//! The edit engine of a terminal text editor: a line buffer, a reversible
//! undo/redo log, a cursor and viewport coordinator, and literal search.

pub mod error;
pub mod buffer;
mod text;
pub mod history;
pub mod replay;
pub mod document;
pub mod search;
pub mod keys;
pub mod models;
pub mod command;
pub mod files;
pub mod theme;
