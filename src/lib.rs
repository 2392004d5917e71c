//! Core of a terminal workspace browser: the workspace tree, the selection
//! cursor, the command registry and the input state machine.
pub mod util;
pub mod tree;
pub mod list;
pub mod commands;
pub mod application;
pub mod logs;
