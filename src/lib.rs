//! Running SPIR-V command-line tools and reading what they report.
//!
//! - [`message`]: one diagnostic, and the line grammar `<level>:<line>:<column> - <text>`.
//! - [`cmd`]: what a tool's run comes to, from how it ended and what it printed.
//! - [`error`]: the single error, in the native library's status codes, that callers see.
//! - [`generate`]: the arguments of the scripts that generate the native library's tables.
pub mod cmd;
pub mod error;
pub mod generate;
pub mod lines;
pub mod message;
pub mod text;
