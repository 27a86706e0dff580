//! Editing engine for a rectangular grid of integer-tagged tiles.
//!
//! The grid, the selection, the undo history, the clipboard, the shape
//! generators and the command dispatcher live here, each with a contract
//! that Verus checks.

pub mod bar;
pub mod clipboard;
pub mod dispatch;
pub mod edit;
pub mod error;
pub mod files;
pub mod keys;
pub mod map;
pub mod movement;
pub mod palette;
pub mod parse;
pub mod screen;
pub mod select;
pub mod shapes;
pub mod state;
pub mod text;
