//! What is drawn. The library decides what stands where and how; putting it on
//! the terminal is left to the program.
pub mod widget;
pub mod hexview;
pub mod raw;
pub mod dialog;
pub mod layout;
pub mod testutil;
