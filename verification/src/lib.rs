//! Runi: small composable libraries for CLI tools and infrastructure —
//! string helpers, a key/value configuration store, an argument parser with
//! subcommands and help output, ANSI styling, and a log line formatter.

pub mod cli;
pub mod config;
pub mod error;
pub mod log;
pub mod num;
pub mod str_util;
pub mod text;

pub use config::Config;
pub use error::{Error, Result};
