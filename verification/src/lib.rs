//! Core of a terminal text editor: a UTF-8 text buffer with undo and redo,
//! multiple cursors with selections, batched edits, search, and the small
//! parsers and formatters around them.

pub mod text;
pub mod rope;
pub mod grapheme;
pub mod types;
pub mod chars;
pub mod ropebuffer;
pub mod spans;
pub mod cursor;
pub mod editing;
pub mod batch;
pub mod batches;
pub mod edit_order;
pub mod search;
pub mod numbers;
pub mod completer;
pub mod linter;
pub mod cli;
pub mod clipboard;
pub mod settings;
pub mod actions;
pub mod charseq;
pub mod prompt_completer;
mod strings;
pub mod quoting;
pub mod transforms;
pub mod commands;
pub mod pane;
pub mod editor;
pub mod render;
pub mod exec;
pub mod highlight_cache;

pub use types::{ByteOffset, IndentKind, MoveTarget};
pub use quoting::quote_path;
