//! What can go wrong when a command line is described, and when one is parsed.

use vstd::prelude::*;

use crate::argument::{Argument, ArgumentView};

verus! {

/// A fault in the description of a command line, found before any parse.
#[derive(Debug, Clone, Copy, PartialEq, Eq, Structural)]
pub enum ConstructionError {
    /// An argument has no call by which it could be invoked.
    NoCalls,
    /// Two arguments of the same scope share a call.
    DuplicateCall,
}

/// A fault in the tokens given to a parse. No partial result comes with it.
#[derive(Debug, PartialEq)]
pub enum ParseError<'a> {
    /// A call-shaped token that names no argument of the active scope
    ArgNotFound(String),
    /// A bare token, met while no argument was armed, that names no
    /// subcommand of the active scope
    SubcommandNotFound(String),
    /// A required argument of the description that was never invoked
    MissingRequiredArgument(&'a Argument<'a>),
}

/// The mathematical value of a [`ParseError`].
pub enum ParseErrorView {
    ArgNotFound(Seq<char>),
    SubcommandNotFound(Seq<char>),
    MissingRequiredArgument(ArgumentView),
}

impl<'a> View for ParseError<'a> {
    type V = ParseErrorView;

    open spec fn view(&self) -> ParseErrorView {
        match self {
            ParseError::ArgNotFound(token) => ParseErrorView::ArgNotFound(token@),
            ParseError::SubcommandNotFound(token) => ParseErrorView::SubcommandNotFound(token@),
            ParseError::MissingRequiredArgument(argument) => ParseErrorView::MissingRequiredArgument(
                argument@,
            ),
        }
    }
}

impl<'a> Clone for ParseError<'a> {
    fn clone(&self) -> (r: ParseError<'a>)
        ensures
            r@ == self@,
    {
        match self {
            ParseError::ArgNotFound(token) => ParseError::ArgNotFound(token.clone()),
            ParseError::SubcommandNotFound(token) => ParseError::SubcommandNotFound(token.clone()),
            ParseError::MissingRequiredArgument(argument) => ParseError::MissingRequiredArgument(
                argument,
            ),
        }
    }
}

} // verus!
