//! A small library for command lines: describing them, showing help for
//! them, and parsing them.
//!
//! A program describes the arguments it accepts ([`Argument`]), groups them
//! under nested subcommands ([`Subcommand`]), and hands the whole description
//! to a [`CliMake`]. From that description the library
//!
//! - keeps itself sound: an argument without calls, or one that shares a
//!   call with another argument of its scope, is refused where it is
//!   attached ([`CliMake::new`], [`CliMake::add_arg`], [`Subcommand::new`]),
//! - writes help for the command line and for each subcommand
//!   ([`CliMake::help_msg`], [`Subcommand::help_msg`]), and
//! - parses a sequence of tokens into the tree of what was invoked
//!   ([`CliMake::parse_custom`]).
//!
//! # How tokens are read
//!
//! A token that starts with two hyphens and holds more is a long call; a
//! token made of one hyphen and characters that are no hyphens is a cluster
//! of short calls; every other token is bare. A call arms its argument, which
//! then waits for data: one bare token for text and for a path, bare tokens
//! up to the next call or subcommand for paths. An argument that takes
//! nothing drops the one bare token that follows it. A bare token that no
//! argument takes enters the subcommand it names, and from then on only that
//! subcommand's own arguments and subcommands answer. Nothing is guessed: a
//! token that does not resolve fails the parse.
//!
//! # What is proved
//!
//! Every type has a mathematical view, and every function states over those
//! views what it returns or changes. The statements are checked by Verus
//! against the code; what is taken on trust of the standard library is
//! marked where it stands.

pub mod text;
pub mod utils;
pub mod call_type;
pub mod io;
pub mod argument;
pub mod subcommand;
pub mod error;
pub mod parsed;
pub mod cli_make;
pub mod validate;
pub mod prelude;

pub use argument::Argument;
pub use call_type::CallType;
pub use cli_make::CliMake;
pub use subcommand::Subcommand;
pub use text::HELP_DEFAULT;
pub use utils::CLI_TABBING;
