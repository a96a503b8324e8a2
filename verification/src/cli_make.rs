//! The root of a command-line description.

use vstd::prelude::*;

use crate::argument::{Argument, ArgumentView};
use crate::error::ConstructionError;
use crate::subcommand::{
    arguments_view, same_arguments, same_subcommands, subcommands_view, Subcommand,
    SubcommandView,
};
use crate::text::opt_text;
use crate::utils::CLI_TABBING;
use crate::validate::{
    attach_error, construction_error, lemma_attach_argument, lemma_attach_subcommand,
    lemma_uncallable_in_scope, share_call, shares_call, validate_tree,
};

pub mod impl_help;
pub mod impl_parse;

pub use impl_parse::{find_argument, find_subcommand, match_next_subcommand};

verus! {

/// The description of a whole command line: the arguments and subcommands of
/// its top level, and what help says of the program.
#[derive(Debug, PartialEq)]
pub struct CliMake<'a> {
    /// Name of the program
    name: &'a str,
    /// Arguments of the top level
    arguments: Vec<&'a Argument<'a>>,
    /// Subcommands of the top level
    subcommands: Vec<&'a Subcommand<'a>>,
    /// Optional short description of the program
    description: Option<&'a str>,
    /// Optional version string of the program
    version: Option<&'a str>,
    /// The indent of help lines
    tabbing: &'static str,
}

/// The mathematical value of a [`CliMake`]: the whole description.
pub struct CliMakeView {
    pub name: Seq<char>,
    pub arguments: Seq<ArgumentView>,
    pub subcommands: Seq<SubcommandView>,
    pub description: Option<Seq<char>>,
    pub version: Option<Seq<char>>,
    pub tabbing: Seq<char>,
}

impl<'a> View for CliMake<'a> {
    type V = CliMakeView;

    closed spec fn view(&self) -> CliMakeView {
        CliMakeView {
            name: self.name@,
            arguments: arguments_view(self.arguments@),
            subcommands: subcommands_view(self.subcommands@),
            description: opt_text(self.description),
            version: opt_text(self.version),
            tabbing: self.tabbing@,
        }
    }
}

impl CliMakeView {
    /// The fault of this description, if it has one.
    pub open spec fn construction_error(self) -> Option<ConstructionError> {
        construction_error(self.arguments, self.subcommands)
    }

    /// This description with `argument` attached after its arguments.
    pub open spec fn with_argument(self, argument: ArgumentView) -> CliMakeView {
        CliMakeView { arguments: self.arguments.push(argument), ..self }
    }

    /// This description with `arguments` attached after its arguments.
    pub open spec fn with_arguments(self, arguments: Seq<ArgumentView>) -> CliMakeView {
        CliMakeView { arguments: self.arguments + arguments, ..self }
    }

    /// This description with `subcommand` attached after its subcommands.
    pub open spec fn with_subcommand(self, subcommand: SubcommandView) -> CliMakeView {
        CliMakeView { subcommands: self.subcommands.push(subcommand), ..self }
    }

    /// This description with `subcommands` attached after its subcommands.
    pub open spec fn with_subcommands(self, subcommands: Seq<SubcommandView>) -> CliMakeView {
        CliMakeView { subcommands: self.subcommands + subcommands, ..self }
    }
}

impl<'a> Clone for CliMake<'a> {
    fn clone(&self) -> (r: CliMake<'a>)
        ensures
            r@ == self@,
    {
        proof {
            use_type_invariant(self);
        }
        CliMake {
            name: self.name,
            arguments: same_arguments(&self.arguments),
            subcommands: same_subcommands(&self.subcommands),
            description: self.description,
            version: self.version,
            tabbing: self.tabbing,
        }
    }
}

impl<'a> CliMake<'a> {
    /// A description never holds an argument without calls, nor two
    /// arguments of one scope with a call in common: whatever would break
    /// this is refused where it is attached.
    #[verifier::type_invariant]
    spec fn sound(&self) -> bool {
        construction_error(arguments_view(self.arguments@), subcommands_view(self.subcommands@))
            is None
    }

    /// Creates a description from its parts, with the default indent
    /// [`CLI_TABBING`]. The parts are checked as a whole: an argument
    /// without calls anywhere in them is refused with `NoCalls`, two
    /// arguments of one scope with a call in common with `DuplicateCall`.
    pub fn new(
        name: &'a str,
        arguments: Vec<&'a Argument<'a>>,
        subcommands: Vec<&'a Subcommand<'a>>,
        description: Option<&'a str>,
        version: Option<&'a str>,
    ) -> (r: Result<Self, ConstructionError>)
        ensures
            match r {
                Ok(cli) => {
                    &&& cli@ == (CliMakeView {
                        name: name@,
                        arguments: arguments_view(arguments@),
                        subcommands: subcommands_view(subcommands@),
                        description: opt_text(description),
                        version: opt_text(version),
                        tabbing: CLI_TABBING@,
                    })
                    &&& cli@.construction_error() is None
                },
                Err(e) => construction_error(
                    arguments_view(arguments@),
                    subcommands_view(subcommands@),
                ) == Some(e),
            },
            forall|i: int|
                0 <= i < arguments.len() && (#[trigger] arguments@[i])@.calls.len() == 0 ==> r
                    == Err::<Self, ConstructionError>(ConstructionError::NoCalls),
    {
        proof {
            let av = arguments_view(arguments@);
            let sv = subcommands_view(subcommands@);
            lemma_uncallable_in_scope(av, sv);
            assert forall|i: int|
                0 <= i < arguments.len() && (#[trigger] arguments@[i])@.calls.len()
                    == 0 implies construction_error(av, sv) == Some(ConstructionError::NoCalls) by {
                assert(av[i] == arguments@[i]@);
            }
        }
        match validate_tree(&arguments, &subcommands) {
            Ok(()) => Ok(
                CliMake { name, arguments, subcommands, description, version, tabbing: CLI_TABBING },
            ),
            Err(e) => Err(e),
        }
    }

    /// Attaches a single argument to the top level, chainable. An argument
    /// without calls is refused with `NoCalls`, one that has a call in
    /// common with an argument of the top level with `DuplicateCall`; the
    /// description is then left as it was.
    pub fn add_arg(&mut self, argument: &'a Argument<'a>) -> (r: Result<
        &mut Self,
        ConstructionError,
    >)
        ensures
            match r {
                Ok(cli) => {
                    &&& attach_error(old(self)@.arguments, argument@) is None
                    &&& cli@ == old(self)@.with_argument(argument@)
                    &&& cli@.construction_error() is None
                    &&& *final(self) == *final(cli)
                },
                Err(e) => {
                    &&& attach_error(old(self)@.arguments, argument@) == Some(e)
                    &&& final(self)@ == old(self)@
                },
            },
    {
        if argument.calls.len() == 0 {
            return Err(ConstructionError::NoCalls);
        }
        let ghost held = arguments_view(self.arguments@);
        let mut i: usize = 0;
        while i < self.arguments.len()
            invariant
                i <= self.arguments.len(),
                held == arguments_view(self.arguments@),
                *self == *old(self),
                forall|k: int| 0 <= k < i ==> !share_call(#[trigger] held[k], argument@),
            decreases self.arguments.len() - i,
        {
            if shares_call(self.arguments[i], argument) {
                assert(share_call(held[i as int], argument@));
                return Err(ConstructionError::DuplicateCall);
            }
            i += 1;
        }
        let mut arguments = same_arguments(&self.arguments);
        arguments.push(argument);
        proof {
            use_type_invariant(&*self);
            lemma_attach_argument(held, subcommands_view(self.subcommands@), argument@);
            assert(arguments_view(arguments@) =~= held.push(argument@));
        }
        self.arguments = arguments;
        Ok(self)
    }

    /// Attaches multiple arguments to the top level in the order given,
    /// chainable. All are attached or none is: if the top level would then
    /// hold an argument without calls, they are refused with `NoCalls`; if
    /// it would hold two arguments with a call in common, with
    /// `DuplicateCall`.
    pub fn add_args(&mut self, arguments: Vec<&'a Argument<'a>>) -> (r: Result<
        &mut Self,
        ConstructionError,
    >)
        ensures
            match r {
                Ok(cli) => {
                    &&& cli@ == old(self)@.with_arguments(arguments_view(arguments@))
                    &&& cli@.construction_error() is None
                    &&& *final(self) == *final(cli)
                },
                Err(e) => {
                    &&& old(self)@.with_arguments(arguments_view(arguments@)).construction_error()
                        == Some(e)
                    &&& final(self)@ == old(self)@
                },
            },
            forall|i: int|
                0 <= i < arguments.len() && (#[trigger] arguments@[i])@.calls.len() == 0 ==> (r
                    matches Err(e) && e == ConstructionError::NoCalls),
    {
        let mut all = same_arguments(&self.arguments);
        let mut arguments = arguments;
        let ghost more = arguments@;
        let ghost held = self.arguments@.len();
        all.append(&mut arguments);
        assert(arguments_view(all@) =~= arguments_view(self.arguments@) + arguments_view(more));
        proof {
            let av = arguments_view(all@);
            let sv = subcommands_view(self.subcommands@);
            lemma_uncallable_in_scope(av, sv);
            assert forall|i: int|
                0 <= i < more.len() && (#[trigger] more[i])@.calls.len()
                    == 0 implies construction_error(av, sv) == Some(ConstructionError::NoCalls) by {
                assert(av[held + i] == more[i]@);
            }
        }
        match validate_tree(&all, &self.subcommands) {
            Ok(()) => {
                self.arguments = all;
                Ok(self)
            },
            Err(e) => Err(e),
        }
    }

    /// Attaches a single subcommand to the top level, chainable. A
    /// subcommand that holds, anywhere in it, an argument without calls is
    /// refused with `NoCalls`, one that holds two arguments of one scope
    /// with a call in common with `DuplicateCall`; the description is then
    /// left as it was.
    pub fn add_subcmd(&mut self, subcommand: &'a Subcommand<'a>) -> (r: Result<
        &mut Self,
        ConstructionError,
    >)
        ensures
            match r {
                Ok(cli) => {
                    &&& construction_error(subcommand@.arguments, subcommand@.subcommands) is None
                    &&& cli@ == old(self)@.with_subcommand(subcommand@)
                    &&& cli@.construction_error() is None
                    &&& *final(self) == *final(cli)
                },
                Err(e) => {
                    &&& construction_error(subcommand@.arguments, subcommand@.subcommands) == Some(
                        e,
                    )
                    &&& final(self)@ == old(self)@
                },
            },
    {
        match subcommand.validate() {
            Ok(()) => {},
            Err(e) => {
                return Err(e);
            },
        }
        let mut subcommands = same_subcommands(&self.subcommands);
        subcommands.push(subcommand);
        proof {
            use_type_invariant(&*self);
            lemma_attach_subcommand(
                arguments_view(self.arguments@),
                subcommands_view(self.subcommands@),
                subcommand@,
            );
            assert(subcommands_view(subcommands@) =~= subcommands_view(self.subcommands@).push(
                subcommand@,
            ));
        }
        self.subcommands = subcommands;
        Ok(self)
    }

    /// Attaches multiple subcommands to the top level in the order given,
    /// chainable. All are attached or none is: if the description would
    /// then hold an argument without calls, they are refused with
    /// `NoCalls`; if one of its scopes would hold two arguments with a call
    /// in common, with `DuplicateCall`.
    pub fn add_subcmds(&mut self, subcommands: Vec<&'a Subcommand<'a>>) -> (r: Result<
        &mut Self,
        ConstructionError,
    >)
        ensures
            match r {
                Ok(cli) => {
                    &&& cli@ == old(self)@.with_subcommands(subcommands_view(subcommands@))
                    &&& cli@.construction_error() is None
                    &&& *final(self) == *final(cli)
                },
                Err(e) => {
                    &&& old(self)@.with_subcommands(
                        subcommands_view(subcommands@),
                    ).construction_error() == Some(e)
                    &&& final(self)@ == old(self)@
                },
            },
    {
        let mut all = same_subcommands(&self.subcommands);
        let mut subcommands = subcommands;
        let ghost more = subcommands@;
        all.append(&mut subcommands);
        assert(subcommands_view(all@) =~= subcommands_view(self.subcommands@) + subcommands_view(
            more,
        ));
        match validate_tree(&self.arguments, &all) {
            Ok(()) => {
                self.subcommands = all;
                Ok(self)
            },
            Err(e) => Err(e),
        }
    }

    /// Sets the indent of help lines; the default is two spaces.
    pub fn tabbing(&mut self, tab_chars: &'static str) -> (r: &mut Self)
        ensures
            r@ == (CliMakeView { tabbing: tab_chars@, ..old(self)@ }),
            *final(self) == *final(r),
    {
        proof {
            use_type_invariant(&*self);
        }
        self.tabbing = tab_chars;
        self
    }

    /// The name of the program.
    pub fn name(&self) -> (r: &'a str)
        ensures
            r@ == self@.name,
    {
        self.name
    }

    /// The description of the program, if it has one.
    pub fn description(&self) -> (r: Option<&'a str>)
        ensures
            opt_text(r) == self@.description,
    {
        self.description
    }

    /// The version of the program, if it has one.
    pub fn version(&self) -> (r: Option<&'a str>)
        ensures
            opt_text(r) == self@.version,
    {
        self.version
    }

    /// The indent of help lines.
    pub fn indent(&self) -> (r: &'static str)
        ensures
            r@ == self@.tabbing,
    {
        self.tabbing
    }

    /// The arguments of the top level, in the order added.
    pub fn arguments(&self) -> (r: &Vec<&'a Argument<'a>>)
        ensures
            arguments_view(r@) == self@.arguments,
            self@.construction_error() is None,
    {
        proof {
            use_type_invariant(self);
        }
        &self.arguments
    }

    /// The subcommands of the top level, in the order added.
    pub fn subcommands(&self) -> (r: &Vec<&'a Subcommand<'a>>)
        ensures
            subcommands_view(r@) == self@.subcommands,
            self@.construction_error() is None,
    {
        proof {
            use_type_invariant(self);
        }
        &self.subcommands
    }
}

} // verus!
