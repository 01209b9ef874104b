//! Command-line parsing: schemas, the option parser, help output,
//! launchers, command layouts, and ANSI styling.

pub mod dispatch;
pub mod error;
pub mod help;
pub mod layout;
pub mod parser;
pub mod schema;
pub mod tint;
pub mod types;

pub use dispatch::{Command, Exit, Launcher, LauncherWithSubs, Runnable, SubCommandOf};
pub use error::{Error, ErrorView, Result};
pub use help::HelpPrinter;
pub use parser::{OptionParser, ParseResult, ParseView};
pub use schema::{CLArgument, CLOption, CommandSchema};
pub use tint::{supports_color, supports_color_stdout, Tint};
pub use types::FromArg;
