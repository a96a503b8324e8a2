//! The result of a parse: the arguments and subcommands that were invoked,
//! laid out as the description is.

use vstd::prelude::*;
use vstd::std_specs::convert::FromSpecImpl;

use crate::argument::{Argument, ArgumentView};
use crate::io::{Data, DataView};
use crate::subcommand::{Subcommand, SubcommandView};

verus! {

/// An argument that was invoked, with the data bound to it.
#[derive(Debug, PartialEq)]
pub struct ParsedArgument<'a> {
    /// The argument that was invoked
    pub inner: &'a Argument<'a>,
    /// The data given to it
    pub data: Data,
}

/// The mathematical value of a [`ParsedArgument`].
pub struct ParsedArgumentView {
    pub inner: ArgumentView,
    pub data: DataView,
}

impl<'a> View for ParsedArgument<'a> {
    type V = ParsedArgumentView;

    open spec fn view(&self) -> ParsedArgumentView {
        ParsedArgumentView { inner: self.inner@, data: self.data@ }
    }
}

impl<'a> Clone for ParsedArgument<'a> {
    fn clone(&self) -> (r: ParsedArgument<'a>)
        ensures
            r@ == self@,
    {
        ParsedArgument { inner: self.inner, data: self.data.clone() }
    }
}

/// A subcommand that was entered, with what was invoked inside it.
#[derive(Debug, PartialEq)]
pub struct ParsedSubcommand<'a> {
    /// The subcommand that was entered
    pub inner: &'a Subcommand<'a>,
    /// Subcommands entered from inside this one (if any)
    pub subcommands: Vec<ParsedSubcommand<'a>>,
    /// Arguments invoked directly inside this one (if any), in the order of
    /// their calls
    pub arguments: Vec<ParsedArgument<'a>>,
}

/// The mathematical value of a [`ParsedSubcommand`].
pub struct ParsedSubcommandView {
    pub inner: SubcommandView,
    pub subcommands: Seq<ParsedSubcommandView>,
    pub arguments: Seq<ParsedArgumentView>,
}

/// The views of a sequence of invoked arguments.
pub open spec fn parsed_arguments_view<'a>(arguments: Seq<ParsedArgument<'a>>) -> Seq<
    ParsedArgumentView,
> {
    arguments.map_values(|a: ParsedArgument| a@)
}

/// The views of a sequence of entered subcommands.
pub open spec fn parsed_subcommands_view<'a>(subcommands: Seq<ParsedSubcommand<'a>>) -> Seq<
    ParsedSubcommandView,
>
    decreases subcommands,
{
    Seq::new(
        subcommands.len(),
        |i: int|
            if 0 <= i < subcommands.len() {
                subcommands[i].view()
            } else {
                arbitrary()
            },
    )
}

impl<'a> View for ParsedSubcommand<'a> {
    type V = ParsedSubcommandView;

    open spec fn view(&self) -> ParsedSubcommandView
        decreases self,
    {
        ParsedSubcommandView {
            inner: self.inner@,
            subcommands: parsed_subcommands_view(self.subcommands@),
            arguments: parsed_arguments_view(self.arguments@),
        }
    }
}

/// A copy of `subcommands`, each with all that was invoked inside it.
fn clone_subcommands<'a>(subcommands: &Vec<ParsedSubcommand<'a>>) -> (r: Vec<ParsedSubcommand<'a>>)
    ensures
        parsed_subcommands_view(r@) == parsed_subcommands_view(subcommands@),
    decreases subcommands,
{
    let mut copy: Vec<ParsedSubcommand<'a>> = Vec::new();
    let mut i: usize = 0;
    while i < subcommands.len()
        invariant
            i <= subcommands.len(),
            copy@.len() == i,
            forall|k: int| 0 <= k < i ==> (#[trigger] copy@[k])@ == subcommands@[k]@,
        decreases subcommands.len() - i,
    {
        let one = &subcommands[i];
        copy.push(
            ParsedSubcommand {
                inner: one.inner,
                subcommands: clone_subcommands(&one.subcommands),
                arguments: clone_arguments(&one.arguments),
            },
        );
        i += 1;
    }
    copy
}

/// A copy of `arguments`, each with its data.
fn clone_arguments<'a>(arguments: &Vec<ParsedArgument<'a>>) -> (r: Vec<ParsedArgument<'a>>)
    ensures
        parsed_arguments_view(r@) == parsed_arguments_view(arguments@),
{
    let mut copy: Vec<ParsedArgument<'a>> = Vec::new();
    let mut i: usize = 0;
    while i < arguments.len()
        invariant
            i <= arguments.len(),
            copy@.len() == i,
            forall|k: int| 0 <= k < i ==> (#[trigger] copy@[k])@ == arguments@[k]@,
        decreases arguments.len() - i,
    {
        copy.push(arguments[i].clone());
        i += 1;
    }
    copy
}

impl<'a> Clone for ParsedSubcommand<'a> {
    fn clone(&self) -> (r: ParsedSubcommand<'a>)
        ensures
            r@ == self@,
    {
        ParsedSubcommand {
            inner: self.inner,
            subcommands: clone_subcommands(&self.subcommands),
            arguments: clone_arguments(&self.arguments),
        }
    }
}

impl<'a> ParsedSubcommand<'a> {
    /// The subcommand `subcommand`, entered, with nothing invoked inside it
    /// yet.
    pub fn new_empty(subcommand: &'a Subcommand<'a>) -> (r: Self)
        ensures
            r@ == (ParsedSubcommandView {
                inner: subcommand@,
                subcommands: Seq::<ParsedSubcommandView>::empty(),
                arguments: Seq::<ParsedArgumentView>::empty(),
            }),
    {
        let r = ParsedSubcommand { inner: subcommand, subcommands: Vec::new(), arguments: Vec::new() };
        assert(r@.subcommands =~= Seq::<ParsedSubcommandView>::empty());
        assert(r@.arguments =~= Seq::<ParsedArgumentView>::empty());
        r
    }
}

/// The top of a parse result: what was invoked outside any subcommand, and
/// the subcommands entered from there.
#[derive(Debug, PartialEq)]
pub struct ParsedCli<'a> {
    /// Subcommands entered from the top level
    pub subcommands: Vec<ParsedSubcommand<'a>>,
    /// Arguments invoked at the top level, in the order of their calls
    pub arguments: Vec<ParsedArgument<'a>>,
}

/// The mathematical value of a [`ParsedCli`].
pub struct ParsedCliView {
    pub subcommands: Seq<ParsedSubcommandView>,
    pub arguments: Seq<ParsedArgumentView>,
}

impl<'a> View for ParsedCli<'a> {
    type V = ParsedCliView;

    open spec fn view(&self) -> ParsedCliView {
        ParsedCliView {
            subcommands: parsed_subcommands_view(self.subcommands@),
            arguments: parsed_arguments_view(self.arguments@),
        }
    }
}

impl<'a> Clone for ParsedCli<'a> {
    fn clone(&self) -> (r: ParsedCli<'a>)
        ensures
            r@ == self@,
    {
        ParsedCli {
            subcommands: clone_subcommands(&self.subcommands),
            arguments: clone_arguments(&self.arguments),
        }
    }
}

impl<'a> FromSpecImpl<ParsedArgument<'a>> for &'a Argument<'a> {
    open spec fn obeys_from_spec() -> bool {
        true
    }

    open spec fn from_spec(parsed_argument: ParsedArgument<'a>) -> &'a Argument<'a> {
        parsed_argument.inner
    }
}

impl<'a> From<ParsedArgument<'a>> for &'a Argument<'a> {
    fn from(parsed_argument: ParsedArgument<'a>) -> (r: &'a Argument<'a>) {
        parsed_argument.inner
    }
}

impl<'a> FromSpecImpl<ParsedArgument<'a>> for Data {
    open spec fn obeys_from_spec() -> bool {
        true
    }

    open spec fn from_spec(parsed_argument: ParsedArgument<'a>) -> Data {
        parsed_argument.data
    }
}

impl<'a> From<ParsedArgument<'a>> for Data {
    fn from(parsed_argument: ParsedArgument<'a>) -> (r: Data) {
        parsed_argument.data
    }
}

impl<'a> FromSpecImpl<ParsedSubcommand<'a>> for &'a Subcommand<'a> {
    open spec fn obeys_from_spec() -> bool {
        true
    }

    open spec fn from_spec(parsed_subcommand: ParsedSubcommand<'a>) -> &'a Subcommand<'a> {
        parsed_subcommand.inner
    }
}

impl<'a> From<ParsedSubcommand<'a>> for &'a Subcommand<'a> {
    fn from(parsed_subcommand: ParsedSubcommand<'a>) -> (r: &'a Subcommand<'a>) {
        parsed_subcommand.inner
    }
}

impl<'a> FromSpecImpl<ParsedSubcommand<'a>> for Vec<ParsedSubcommand<'a>> {
    open spec fn obeys_from_spec() -> bool {
        true
    }

    open spec fn from_spec(parsed_subcommand: ParsedSubcommand<'a>) -> Vec<ParsedSubcommand<'a>> {
        parsed_subcommand.subcommands
    }
}

impl<'a> From<ParsedSubcommand<'a>> for Vec<ParsedSubcommand<'a>> {
    fn from(parsed_subcommand: ParsedSubcommand<'a>) -> (r: Vec<ParsedSubcommand<'a>>) {
        parsed_subcommand.subcommands
    }
}

impl<'a> FromSpecImpl<ParsedSubcommand<'a>> for Vec<ParsedArgument<'a>> {
    open spec fn obeys_from_spec() -> bool {
        true
    }

    open spec fn from_spec(parsed_subcommand: ParsedSubcommand<'a>) -> Vec<ParsedArgument<'a>> {
        parsed_subcommand.arguments
    }
}

impl<'a> From<ParsedSubcommand<'a>> for Vec<ParsedArgument<'a>> {
    fn from(parsed_subcommand: ParsedSubcommand<'a>) -> (r: Vec<ParsedArgument<'a>>) {
        parsed_subcommand.arguments
    }
}

impl<'a> FromSpecImpl<ParsedCli<'a>> for Vec<ParsedSubcommand<'a>> {
    open spec fn obeys_from_spec() -> bool {
        true
    }

    open spec fn from_spec(used_cli: ParsedCli<'a>) -> Vec<ParsedSubcommand<'a>> {
        used_cli.subcommands
    }
}

impl<'a> From<ParsedCli<'a>> for Vec<ParsedSubcommand<'a>> {
    fn from(used_cli: ParsedCli<'a>) -> (r: Vec<ParsedSubcommand<'a>>) {
        used_cli.subcommands
    }
}

impl<'a> FromSpecImpl<ParsedCli<'a>> for Vec<ParsedArgument<'a>> {
    open spec fn obeys_from_spec() -> bool {
        true
    }

    open spec fn from_spec(used_cli: ParsedCli<'a>) -> Vec<ParsedArgument<'a>> {
        used_cli.arguments
    }
}

impl<'a> From<ParsedCli<'a>> for Vec<ParsedArgument<'a>> {
    fn from(used_cli: ParsedCli<'a>) -> (r: Vec<ParsedArgument<'a>>) {
        used_cli.arguments
    }
}

} // verus!
