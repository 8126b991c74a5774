//! Line search over a text document: every line that holds a query, in document
//! order, compared either exactly or after lowercasing.
//!
//! Text is reasoned about through its UTF-8 bytes (`str::spec_bytes`): a line is
//! a run of bytes between `\n` bytes, and a query occurs in a line when its bytes
//! appear contiguously in the line's bytes.

pub mod config;
pub mod laws;
pub mod lines;
pub mod matching;
pub mod search;

pub use config::{run, Config};
pub use lines::split_first_line;
pub use matching::contains;
pub use search::{search, search_case_insensitive, search_with_mode, MatchMode};
