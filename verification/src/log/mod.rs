//! Log line formatting: `timestamp LEVEL [target] spans message fields -
//! (file:line)`, styled for terminals.

pub mod format;

pub use format::{Level, MessageVisitor, UniFormatter};
