//! CMUX (3GPP TS 27.010) serial multiplexer debugger: frames, sessions, the
//! interactive state and the screens, as verified code without I/O.
//!
//! Everything here takes plain values and gives plain values back. Opening the
//! serial line, reading the keyboard, drawing on the terminal and writing log
//! files are left to the program around the library.
pub mod app;
pub mod cli;
pub mod clock;
pub mod mux;
pub mod serial;
pub mod text;
pub mod ui;
