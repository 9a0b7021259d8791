//! Core of a terminal to-do manager: tasks grouped in named lists, a key-driven
//! screen state machine with bounded selection cursors, and a flat-file codec
//! for the task collection.

mod text;
pub mod task;
pub mod cursor;
pub mod app;
pub mod codec;
