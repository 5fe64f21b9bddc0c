//! The multiplexing protocol: frame check, frames, decoder, control messages
//! and the link state machine.
pub mod fcs;
pub mod frame;
pub mod decoder;
pub mod control;
pub mod session;
