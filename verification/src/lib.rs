//! Session model of an interactive viewer for listening TCP ports.
//!
//! The crate holds everything the viewer decides: how the list is filtered,
//! how the selection and the scroll window move, which mode an input lands
//! in, how the on-screen region is sized, and which draw instructions a
//! session turns into. Reading the terminal, spawning system utilities and
//! writing to the screen are left to the caller.

pub mod app;
pub mod layout;
pub mod ports;
pub mod text;
pub mod ui;

