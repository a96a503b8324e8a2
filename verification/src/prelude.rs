//! The types that a program needs to describe and parse a command line, for
//! import in one line.

pub use crate::argument::Argument;
pub use crate::cli_make::CliMake;
pub use crate::error::{ConstructionError, ParseError};
pub use crate::io::{Data, Input};
pub use crate::parsed::{ParsedArgument, ParsedCli, ParsedSubcommand};
pub use crate::subcommand::Subcommand;
