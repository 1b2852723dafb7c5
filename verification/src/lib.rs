//! A small linter for structural text conventions: every file ends with
//! exactly one line terminator, and no line carries trailing whitespace.
//! Content is handled as raw bytes; rules are checked and applied on
//! whole-file content.

pub mod config;
pub mod issue;
pub mod laws;
pub mod line;
pub mod line_end_lint;
pub mod linter;
pub mod rule;
pub mod text;
pub mod trailing_ws_lint;
pub mod walk;
