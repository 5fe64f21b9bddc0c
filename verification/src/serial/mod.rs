//! The serial line: its parameters, what is asked of it, and the AT dialogue that
//! turns the multiplexer on.
pub mod params;
pub mod stream;
pub mod timer;
pub mod at;
pub mod handshake;
