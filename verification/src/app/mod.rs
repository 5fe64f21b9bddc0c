//! The interactive side: records, input, state, keys and the main loop's logic.
pub mod record;
pub mod log;
pub mod input;
pub mod state;
pub mod keymap;
pub mod event;
pub mod io_threads;
pub mod runtime;
pub mod counters;
pub mod gathering;
pub mod guarantees;
pub mod conduct;
