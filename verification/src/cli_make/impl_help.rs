//! Help messages for the whole command line.

use vstd::prelude::*;
use vstd::string::StringExecFns;
use vstd::utf8::encode_utf8;

use crate::argument::shows_argument;
use crate::cli_make::{CliMake, CliMakeView};
use crate::subcommand::{
    arguments_section, lemma_block_shows_argument, subcommands_section, write_arguments,
    write_subcommands,
};
use crate::text::{
    help_or_default, lemma_encode_not_empty, lemma_encode_occurs, lemma_occurs_between,
    lemma_occurs_within, occurs_in,
};
use crate::utils::{lemma_short_line, line_room, push_text, term_lines, writeln_term};

verus! {

/// The usage line of the program `program`, with the subcommand `suffix` if
/// the help is that of a subcommand.
pub open spec fn usage_line(program: Seq<char>, suffix: Option<Seq<char>>) -> Seq<char> {
    match suffix {
        Some(s) => "Usage: ./"@ + program + seq![' '] + s + " [OPTIONS]\n"@,
        None => "Usage: ./"@ + program + " [OPTIONS]\n"@,
    }
}

impl CliMakeView {
    /// The line that introduces the program in `description`: its name, its
    /// version if it has one, a dash, and the description.
    pub open spec fn title(self, description: Seq<char>) -> Seq<char> {
        match self.version {
            Some(v) => self.name + " v"@ + v + " — "@ + description,
            None => self.name + " — "@ + description,
        }
    }

    /// The header of a help message: the usage line and, for a program with a
    /// description, an empty line and its title.
    pub open spec fn header(self, program: Seq<char>, suffix: Option<Seq<char>>) -> Seq<u8> {
        encode_utf8(usage_line(program, suffix)) + (match self.description {
            Some(d) => encode_utf8("\n"@) + term_lines(self.title(d), self.tabbing),
            None => Seq::empty(),
        })
    }

    /// The whole help message of the command line, for the program
    /// `program`.
    pub open spec fn help_text(self, program: Seq<char>) -> Seq<u8> {
        self.header(program, None) + arguments_section(self.arguments, self.tabbing)
            + subcommands_section(self.subcommands, self.tabbing)
    }
}

impl<'a> CliMake<'a> {
    /// Writes the header of a help message to `buf`. `program` is the name
    /// that the program was started under; `usage_suffix` is the subcommand
    /// whose help this is, if any. It may look like this:
    ///
    /// ```none
    /// Usage: ./my-app [OPTIONS]
    ///
    ///   My app v0.1.0 — A simple application
    /// ```
    pub fn header_msg(&self, program: &str, usage_suffix: Option<&str>, buf: &mut Vec<u8>)
        ensures
            final(buf)@ == old(buf)@ + self@.header(
                program@,
                crate::text::opt_text(usage_suffix),
            ),
    {
        let mut usage = String::from_str("Usage: ./");
        usage.append(program);
        match usage_suffix {
            Some(suffix) => {
                usage.push(' ');
                usage.append(suffix);
            },
            None => {},
        }
        usage.append(" [OPTIONS]\n");
        assert(usage@ =~= usage_line(program@, crate::text::opt_text(usage_suffix)));
        push_text(buf, usage.as_str());
        match self.description() {
            Some(d) => {
                push_text(buf, "\n");
                let mut title = String::from_str(self.name());
                match self.version() {
                    Some(v) => {
                        title.append(" v");
                        title.append(v);
                    },
                    None => {},
                }
                title.append(" — ");
                title.append(d);
                writeln_term(title.as_str(), self.indent(), buf);
            },
            None => {},
        }
    }

    /// Writes the help message of the whole command line to `buf`: the
    /// header, then the arguments and the subcommands of the top level.
    /// `program` is the name that the program was started under. It may look
    /// like this:
    ///
    /// ```none
    /// Usage: ./my-app [OPTIONS]
    ///
    ///   My app v0.1.0 — A simple application
    ///
    /// Arguments:
    ///   (-v, --verbose) — Verbose mode
    ///
    /// Subcommands:
    ///   No subcommands found
    /// ```
    pub fn help_msg(&self, program: &str, buf: &mut Vec<u8>)
        ensures
            final(buf)@ == old(buf)@ + self@.help_text(program@),
    {
        self.header_msg(program, None, buf);
        write_arguments(self.arguments(), self.indent(), buf);
        write_subcommands(self.subcommands(), self.indent(), buf);
    }
}

impl CliMakeView {
    /// The help of a command line shows every argument of its top level.
    pub proof fn lemma_help_shows_argument(self, program: Seq<char>, i: int)
        requires
            0 <= i < self.arguments.len(),
        ensures
            shows_argument(self.help_text(program), self.arguments[i], self.tabbing),
    {
        lemma_block_shows_argument(
            self.header(program, None),
            self.arguments,
            self.tabbing,
            subcommands_section(self.subcommands, self.tabbing),
            i,
        );
    }

    /// Where the help line of an argument fits on one line of the terminal,
    /// the help of the command line holds that line and the help of the
    /// argument byte for byte.
    pub proof fn lemma_help_shows_short_line(self, program: Seq<char>, i: int)
        requires
            0 <= i < self.arguments.len(),
            encode_utf8(self.arguments[i].help_line()).len() <= line_room(
                encode_utf8(self.tabbing).len() as int,
            ),
        ensures
            occurs_in(encode_utf8(self.arguments[i].help_line()), self.help_text(program)),
            occurs_in(
                encode_utf8(help_or_default(self.arguments[i].help)),
                self.help_text(program),
            ),
    {
        let argument = self.arguments[i];
        let line = argument.help_line();
        let bytes = encode_utf8(line);
        let shown = term_lines(line, self.tabbing);
        let help = help_or_default(argument.help);
        let whole = self.help_text(program);
        assert(occurs_in(shown, whole) && occurs_in(help, line)) by {
            self.lemma_help_shows_argument(program, i);
        }
        assert(occurs_in(bytes, shown)) by {
            lemma_encode_not_empty(line);
            lemma_short_line(line, self.tabbing);
            lemma_occurs_between(encode_utf8(self.tabbing), bytes, seq![10u8]);
        }
        lemma_encode_occurs(help, line);
        lemma_occurs_within(bytes, shown, whole);
        lemma_occurs_within(encode_utf8(help), bytes, whole);
    }

    /// Writing the help of a command line is a function of the command line
    /// and the name of the program alone: whenever it is written, and
    /// whatever the buffer holds already, the same bytes are written.
    pub proof fn lemma_help_is_idempotent(
        self,
        program: Seq<char>,
        before_first: Seq<u8>,
        after_first: Seq<u8>,
        before_second: Seq<u8>,
        after_second: Seq<u8>,
    )
        requires
            after_first == before_first + self.help_text(program),
            after_second == before_second + self.help_text(program),
        ensures
            after_first.skip(before_first.len() as int) == after_second.skip(
                before_second.len() as int,
            ),
            before_first == before_second ==> after_first == after_second,
    {
    }
}

} // verus!
