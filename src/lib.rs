//! Snippet files: named multi-line text blocks between `-- name --` and
//! `-- end --` lines, read one block at a time from a stream of lines.
//!
//! A file's lines are handed to a [`SnippetParser`] one at a time (see
//! [`SnippetParser::advance`]), so that a file is never held whole; snippets
//! added by hand follow the file's own.
pub mod error;
pub mod laws;
pub mod parser;
pub mod reader;
pub mod round_trip;
pub mod snippet;
pub mod text;

pub use error::SnippetError;
pub use parser::{SnippetParser, Step};
pub use reader::{parse_lines, BlockReader};
pub use snippet::Snippet;
pub use text::split_lines;
