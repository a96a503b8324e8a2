//! Subcommands: named scopes that hold arguments and further subcommands.

use vstd::prelude::*;
use vstd::string::StringExecFns;
use vstd::utf8::encode_utf8;

use crate::argument::{shows_argument, Argument, ArgumentView};
use crate::cli_make::{CliMake, CliMakeView};
use crate::error::ConstructionError;
use crate::text::{
    help_or_default, lemma_occurs_between, lemma_occurs_inside, occurs_in, opt_text, HELP_DEFAULT,
};
use crate::utils::{push_text, term_lines, writeln_term, CLI_TABBING};
use crate::validate::{construction_error, lemma_uncallable_in_scope, validate_tree};

verus! {

/// A subcommand of the command line: entering it by name makes its own
/// arguments and subcommands the ones that tokens resolve against.
///
/// [`Subcommand::new`] refuses parts that are not sound. The fields are open
/// to the host all the same, so a description checks a subcommand again, with
/// all that is below it, where the subcommand is attached.
#[derive(Debug, PartialEq)]
pub struct Subcommand<'a> {
    /// Name of the subcommand, shown in help and typed to enter it
    pub name: &'a str,
    /// Arguments of this subcommand, if any
    pub arguments: Vec<&'a Argument<'a>>,
    /// Subcommands nested under this one, if any
    pub subcommands: Vec<&'a Subcommand<'a>>,
    /// Optional short description of this subcommand
    pub help: Option<&'a str>,
}

/// The mathematical value of a [`Subcommand`]: the whole tree below it.
pub struct SubcommandView {
    pub name: Seq<char>,
    pub arguments: Seq<ArgumentView>,
    pub subcommands: Seq<SubcommandView>,
    pub help: Option<Seq<char>>,
}

/// The views of a sequence of arguments.
pub open spec fn arguments_view<'a>(arguments: Seq<&'a Argument<'a>>) -> Seq<ArgumentView> {
    arguments.map_values(|a: &Argument| a@)
}

/// The views of a sequence of subcommands.
pub open spec fn subcommands_view<'a>(subcommands: Seq<&'a Subcommand<'a>>) -> Seq<SubcommandView>
    decreases subcommands,
{
    Seq::new(
        subcommands.len(),
        |i: int|
            if 0 <= i < subcommands.len() {
                subcommands[i].view()
            } else {
                arbitrary()
            },
    )
}

impl<'a> View for Subcommand<'a> {
    type V = SubcommandView;

    open spec fn view(&self) -> SubcommandView
        decreases self,
    {
        SubcommandView {
            name: self.name@,
            arguments: arguments_view(self.arguments@),
            subcommands: subcommands_view(self.subcommands@),
            help: opt_text(self.help),
        }
    }
}

/// A vector of the same arguments.
pub(crate) fn same_arguments<'a>(arguments: &Vec<&'a Argument<'a>>) -> (r: Vec<&'a Argument<'a>>)
    ensures
        r@ == arguments@,
{
    let mut same: Vec<&'a Argument<'a>> = Vec::new();
    let mut i: usize = 0;
    while i < arguments.len()
        invariant
            i <= arguments.len(),
            same@ == arguments@.take(i as int),
        decreases arguments.len() - i,
    {
        same.push(arguments[i]);
        i += 1;
    }
    same
}

/// A vector of the same subcommands.
pub(crate) fn same_subcommands<'a>(subcommands: &Vec<&'a Subcommand<'a>>) -> (r: Vec<
    &'a Subcommand<'a>,
>)
    ensures
        r@ == subcommands@,
{
    let mut same: Vec<&'a Subcommand<'a>> = Vec::new();
    let mut i: usize = 0;
    while i < subcommands.len()
        invariant
            i <= subcommands.len(),
            same@ == subcommands@.take(i as int),
        decreases subcommands.len() - i,
    {
        same.push(subcommands[i]);
        i += 1;
    }
    same
}

impl<'a> Clone for Subcommand<'a> {
    fn clone(&self) -> (r: Subcommand<'a>)
        ensures
            r@ == self@,
    {
        Subcommand {
            name: self.name,
            arguments: same_arguments(&self.arguments),
            subcommands: same_subcommands(&self.subcommands),
            help: self.help,
        }
    }
}

impl<'a> Subcommand<'a> {
    /// Creates a subcommand from its parts. The parts are checked as a
    /// whole: an argument without calls anywhere in them is refused with
    /// `NoCalls`, two arguments of one scope with a call in common with
    /// `DuplicateCall`.
    pub fn new(
        name: &'a str,
        arguments: Vec<&'a Argument<'a>>,
        subcommands: Vec<&'a Subcommand<'a>>,
        help: Option<&'a str>,
    ) -> (r: Result<Self, ConstructionError>)
        ensures
            match r {
                Ok(subcommand) => {
                    &&& subcommand.name == name
                    &&& subcommand.arguments == arguments
                    &&& subcommand.subcommands == subcommands
                    &&& subcommand.help == help
                    &&& construction_error(subcommand@.arguments, subcommand@.subcommands) is None
                },
                Err(e) => construction_error(
                    arguments_view(arguments@),
                    subcommands_view(subcommands@),
                ) == Some(e),
            },
            forall|i: int|
                0 <= i < arguments.len() && (#[trigger] arguments@[i])@.calls.len() == 0 ==> r
                    == Err::<Self, ConstructionError>(ConstructionError::NoCalls),
    {
        proof {
            let av = arguments_view(arguments@);
            let sv = subcommands_view(subcommands@);
            lemma_uncallable_in_scope(av, sv);
            assert forall|i: int|
                0 <= i < arguments.len() && (#[trigger] arguments@[i])@.calls.len()
                    == 0 implies construction_error(av, sv) == Some(ConstructionError::NoCalls) by {
                assert(av[i] == arguments@[i]@);
            }
        }
        match validate_tree(&arguments, &subcommands) {
            Ok(()) => Ok(Subcommand { name, arguments, subcommands, help }),
            Err(e) => Err(e),
        }
    }
}

/// The help lines of `arguments`, one after the other, each indented by
/// `tabbing` and wrapped.
pub open spec fn argument_lines(arguments: Seq<ArgumentView>, tabbing: Seq<char>) -> Seq<u8>
    decreases arguments.len(),
{
    if arguments.len() == 0 {
        Seq::empty()
    } else {
        argument_lines(arguments.drop_last(), tabbing) + term_lines(
            arguments.last().help_line(),
            tabbing,
        )
    }
}

/// The help lines of `subcommands`, one after the other, each indented by
/// `tabbing` and wrapped.
pub open spec fn subcommand_lines(subcommands: Seq<SubcommandView>, tabbing: Seq<char>) -> Seq<u8>
    decreases subcommands.len(),
{
    if subcommands.len() == 0 {
        Seq::empty()
    } else {
        subcommand_lines(subcommands.drop_last(), tabbing) + term_lines(
            subcommands.last().help_line(),
            tabbing,
        )
    }
}

/// The section of a help message that lists `arguments`.
pub open spec fn arguments_section(arguments: Seq<ArgumentView>, tabbing: Seq<char>) -> Seq<u8> {
    encode_utf8("\nArguments:\n"@) + (if arguments.len() > 0 {
        argument_lines(arguments, tabbing)
    } else {
        encode_utf8("  No arguments found\n"@)
    })
}

/// The section of a help message that lists `subcommands`.
pub open spec fn subcommands_section(subcommands: Seq<SubcommandView>, tabbing: Seq<char>) -> Seq<
    u8,
> {
    encode_utf8("\nSubcommands:\n"@) + (if subcommands.len() > 0 {
        subcommand_lines(subcommands, tabbing)
    } else {
        encode_utf8("  No subcommands found\n"@)
    })
}

impl SubcommandView {
    /// The line that help shows for this subcommand, before it is indented
    /// and wrapped: its name, a dash, and its help or [`HELP_DEFAULT`].
    pub open spec fn help_line(self) -> Seq<char> {
        self.name + " — "@ + help_or_default(self.help)
    }

    /// What is written about this subcommand itself, if it has help.
    pub open spec fn about(self, tabbing: Seq<char>) -> Seq<u8> {
        match self.help {
            Some(help) => encode_utf8("\nAbout:\n"@) + term_lines(help, tabbing),
            None => Seq::empty(),
        }
    }

    /// The whole help message of this subcommand, as a part of the command
    /// line `cli` of the program `program`.
    pub open spec fn help_text(self, cli: CliMakeView, program: Seq<char>) -> Seq<u8> {
        cli.header(program, Some(self.name)) + self.about(cli.tabbing) + arguments_section(
            self.arguments,
            cli.tabbing,
        ) + subcommands_section(self.subcommands, cli.tabbing)
    }
}

/// Writes the section of a help message that lists `arguments`.
pub(crate) fn write_arguments(arguments: &Vec<&Argument>, tabbing: &str, buf: &mut Vec<u8>)
    ensures
        final(buf)@ == old(buf)@ + arguments_section(arguments_view(arguments@), tabbing@),
{
    let ghost all = arguments_view(arguments@);
    push_text(buf, "\nArguments:\n");
    if arguments.len() > 0 {
        let ghost head = buf@;
        let mut i: usize = 0;
        while i < arguments.len()
            invariant
                i <= arguments.len(),
                all == arguments_view(arguments@),
                buf@ == head + argument_lines(all.take(i as int), tabbing@),
            decreases arguments.len() - i,
        {
            assert(all.take(i + 1).drop_last() =~= all.take(i as int));
            let line = arguments[i].help_line();
            writeln_term(line.as_str(), tabbing, buf);
            i += 1;
        }
        assert(all.take(i as int) =~= all);
    } else {
        push_text(buf, "  No arguments found\n");
    }
}

/// Writes the section of a help message that lists `subcommands`.
pub(crate) fn write_subcommands(subcommands: &Vec<&Subcommand>, tabbing: &str, buf: &mut Vec<u8>)
    ensures
        final(buf)@ == old(buf)@ + subcommands_section(subcommands_view(subcommands@), tabbing@),
{
    let ghost all = subcommands_view(subcommands@);
    push_text(buf, "\nSubcommands:\n");
    if subcommands.len() > 0 {
        let ghost head = buf@;
        let mut i: usize = 0;
        while i < subcommands.len()
            invariant
                i <= subcommands.len(),
                all == subcommands_view(subcommands@),
                buf@ == head + subcommand_lines(all.take(i as int), tabbing@),
            decreases subcommands.len() - i,
        {
            assert(all.take(i + 1).drop_last() =~= all.take(i as int));
            let line = subcommands[i].help_line();
            writeln_term(line.as_str(), tabbing, buf);
            i += 1;
        }
        assert(all.take(i as int) =~= all);
    } else {
        push_text(buf, "  No subcommands found\n");
    }
}

impl<'a> Subcommand<'a> {
    /// The line that help shows for this subcommand, before it is indented
    /// and wrapped.
    pub fn help_line(&self) -> (line: String)
        ensures
            line@ == self@.help_line(),
    {
        let mut line = String::from_str(self.name);
        line.append(" — ");
        match self.help {
            Some(help) => line.append(help),
            None => line.append(HELP_DEFAULT),
        }
        line
    }

    /// Writes the help line of this subcommand to `buf`, with the default
    /// indent. It may look like this:
    ///
    /// ```none
    ///   example — A simple example subcommand
    /// ```
    pub fn help_name_msg(&self, buf: &mut Vec<u8>)
        ensures
            final(buf)@ == old(buf)@ + term_lines(self@.help_line(), CLI_TABBING@),
    {
        let line = self.help_line();
        writeln_term(line.as_str(), CLI_TABBING, buf);
    }

    /// Writes the help message of this subcommand to `buf`: the header of
    /// `climake` with this subcommand on its usage line, what this subcommand
    /// is about, and its arguments and subcommands. `program` is the name
    /// that the program was started under.
    pub fn help_msg(&self, climake: &CliMake, program: &str, buf: &mut Vec<u8>)
        ensures
            final(buf)@ == old(buf)@ + self@.help_text(climake@, program@),
    {
        let tabbing = climake.indent();
        climake.header_msg(program, Some(self.name), buf);
        match self.help {
            Some(help) => {
                push_text(buf, "\nAbout:\n");
                writeln_term(help, tabbing, buf);
            },
            None => {},
        }
        write_arguments(&self.arguments, tabbing, buf);
        write_subcommands(&self.subcommands, tabbing, buf);
    }
}

/// The lines of each argument stand, whole, among the lines of all of them.
pub proof fn lemma_argument_lines_show(arguments: Seq<ArgumentView>, tabbing: Seq<char>, i: int)
    requires
        0 <= i < arguments.len(),
    ensures
        occurs_in(term_lines(arguments[i].help_line(), tabbing), argument_lines(arguments, tabbing)),
    decreases arguments.len(),
{
    let empty = Seq::<u8>::empty();
    let front = argument_lines(arguments.drop_last(), tabbing);
    let last = term_lines(arguments.last().help_line(), tabbing);
    if i == arguments.len() - 1 {
        lemma_occurs_between(front, last, empty);
    } else {
        lemma_argument_lines_show(arguments.drop_last(), tabbing, i);
        lemma_occurs_inside(term_lines(arguments[i].help_line(), tabbing), front, empty, last);
    }
}

/// The lines of each argument stand, whole, in the section that lists the
/// arguments.
pub proof fn lemma_arguments_section_shows(
    arguments: Seq<ArgumentView>,
    tabbing: Seq<char>,
    i: int,
)
    requires
        0 <= i < arguments.len(),
    ensures
        occurs_in(
            term_lines(arguments[i].help_line(), tabbing),
            arguments_section(arguments, tabbing),
        ),
{
    lemma_argument_lines_show(arguments, tabbing, i);
    let head = encode_utf8("\nArguments:\n"@);
    let lines = argument_lines(arguments, tabbing);
    lemma_occurs_inside(
        term_lines(arguments[i].help_line(), tabbing),
        lines,
        head,
        Seq::<u8>::empty(),
    );
}

/// A help text that holds the section that lists `arguments` shows each of
/// them.
pub proof fn lemma_block_shows_argument(
    before: Seq<u8>,
    arguments: Seq<ArgumentView>,
    tabbing: Seq<char>,
    after: Seq<u8>,
    i: int,
)
    requires
        0 <= i < arguments.len(),
    ensures
        shows_argument(before + arguments_section(arguments, tabbing) + after, arguments[i], tabbing),
{
    lemma_arguments_section_shows(arguments, tabbing, i);
    lemma_occurs_inside(
        term_lines(arguments[i].help_line(), tabbing),
        arguments_section(arguments, tabbing),
        before,
        after,
    );
    arguments[i].lemma_shown_where_listed(
        before + arguments_section(arguments, tabbing) + after,
        tabbing,
    );
}

impl SubcommandView {
    /// The help of a subcommand shows every argument of the subcommand.
    pub proof fn lemma_help_shows_argument(self, cli: CliMakeView, program: Seq<char>, i: int)
        requires
            0 <= i < self.arguments.len(),
        ensures
            shows_argument(self.help_text(cli, program), self.arguments[i], cli.tabbing),
    {
        lemma_block_shows_argument(
            cli.header(program, Some(self.name)) + self.about(cli.tabbing),
            self.arguments,
            cli.tabbing,
            subcommands_section(self.subcommands, cli.tabbing),
            i,
        );
    }

    /// Writing the help of a subcommand is a function of the subcommand, the
    /// command line and the name of the program alone: whenever it is
    /// written, and whatever the buffer holds already, the same bytes are
    /// written.
    pub proof fn lemma_help_is_idempotent(
        self,
        cli: CliMakeView,
        program: Seq<char>,
        before_first: Seq<u8>,
        after_first: Seq<u8>,
        before_second: Seq<u8>,
        after_second: Seq<u8>,
    )
        requires
            after_first == before_first + self.help_text(cli, program),
            after_second == before_second + self.help_text(cli, program),
        ensures
            after_first.skip(before_first.len() as int) == after_second.skip(
                before_second.len() as int,
            ),
            before_first == before_second ==> after_first == after_second,
    {
    }
}

} // verus!
