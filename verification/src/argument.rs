//! Arguments: named parameters that a user passes by one of their calls.

use vstd::prelude::*;
use vstd::std_specs::cmp::PartialEqSpecImpl;
use vstd::string::StringExecFns;
use vstd::utf8::encode_utf8;

use crate::call_type::{CallType, CallView};
use crate::io::Input;
use crate::text::{
    help_or_default, join, joined, lemma_joined_shows_item, lemma_occurs_between,
    lemma_occurs_inside, occurs_in, opt_text, texts, HELP_DEFAULT,
};
use crate::utils::{
    lemma_unwrapped_wrapped, line_room, term_lines, unwrapped, writeln_term, CLI_TABBING,
};

verus! {

/// An argument of the command line: it is invoked by any of its calls, takes
/// data as its [`Input`] says, and may be required.
///
/// An argument may be made without calls and be given them afterwards. What
/// it holds is checked where it is attached: a description or a subcommand
/// refuses an argument that has no call, and one that shares a call with
/// another argument of the same scope.
#[derive(Debug)]
pub struct Argument<'a> {
    /// Optional help message
    pub help: Option<&'a str>,
    /// The calls that invoke this argument, short ones first when built by
    /// [`Argument::new`]
    pub calls: Vec<CallType>,
    /// The kind of data accepted after a call
    pub input: Input,
    /// Whether a parse fails when this argument is never invoked. `false`
    /// unless set by the host.
    pub required: bool,
}

/// The mathematical value of an [`Argument`].
pub struct ArgumentView {
    pub help: Option<Seq<char>>,
    pub calls: Seq<CallView>,
    pub input: Input,
    pub required: bool,
}

/// The views of a sequence of calls.
pub open spec fn calls_view(calls: Seq<CallType>) -> Seq<CallView> {
    calls.map_values(|c: CallType| c@)
}

/// The short calls spelled by `chars`, one per character.
pub open spec fn short_calls(chars: Seq<char>) -> Seq<CallView> {
    chars.map_values(|c: char| CallView::short(c))
}

/// The long calls named by `names`.
pub open spec fn long_calls(names: Seq<Seq<char>>) -> Seq<CallView> {
    names.map_values(|name: Seq<char>| CallView::Long(name))
}

impl<'a> View for Argument<'a> {
    type V = ArgumentView;

    open spec fn view(&self) -> ArgumentView {
        ArgumentView {
            help: opt_text(self.help),
            calls: calls_view(self.calls@),
            input: self.input,
            required: self.required,
        }
    }
}

impl<'a> Clone for Argument<'a> {
    fn clone(&self) -> (r: Argument<'a>)
        ensures
            r@ == self@,
    {
        let mut calls: Vec<CallType> = Vec::new();
        let mut i: usize = 0;
        while i < self.calls.len()
            invariant
                i <= self.calls.len(),
                calls@.len() == i,
                forall|k: int| 0 <= k < i ==> (#[trigger] calls@[k])@ == self.calls@[k]@,
            decreases self.calls.len() - i,
        {
            calls.push(self.calls[i].clone());
            i += 1;
        }
        assert(calls_view(calls@) =~= calls_view(self.calls@));
        Argument { help: self.help, calls, input: self.input, required: self.required }
    }
}

impl<'a> PartialEq for Argument<'a> {
    /// Two arguments are equal when their help, calls, input kind and
    /// requiredness are.
    fn eq(&self, other: &Argument<'a>) -> (r: bool) {
        let same_help = match (self.help, other.help) {
            (Some(a), Some(b)) => a.eq(b),
            (None, None) => true,
            _ => false,
        };
        if !same_help || self.input != other.input || self.required != other.required {
            return false;
        }
        if self.calls.len() != other.calls.len() {
            assert(calls_view(self.calls@).len() != calls_view(other.calls@).len());
            return false;
        }
        let mut i: usize = 0;
        while i < self.calls.len()
            invariant
                i <= self.calls.len(),
                self.calls.len() == other.calls.len(),
                forall|k: int| 0 <= k < i ==> self.calls@[k]@ == other.calls@[k]@,
            decreases self.calls.len() - i,
        {
            if !self.calls[i].eq(&other.calls[i]) {
                assert(calls_view(self.calls@)[i as int] != calls_view(other.calls@)[i as int]);
                return false;
            }
            i += 1;
        }
        assert(calls_view(self.calls@) =~= calls_view(other.calls@));
        true
    }
}

impl<'a> PartialEqSpecImpl for Argument<'a> {
    open spec fn obeys_eq_spec() -> bool {
        true
    }

    open spec fn eq_spec(&self, other: &Argument<'a>) -> bool {
        self@ == other@
    }
}

/// The characters of the short calls among `calls`, in order.
pub open spec fn short_chars(calls: Seq<CallView>) -> Seq<char>
    decreases calls.len(),
{
    if calls.len() == 0 {
        Seq::empty()
    } else {
        match calls.last() {
            CallView::Short(c) => short_chars(calls.drop_last()).push(c),
            CallView::Long(_) => short_chars(calls.drop_last()),
        }
    }
}

/// The long calls among `calls` as a user types them, in order.
pub open spec fn long_items(calls: Seq<CallView>) -> Seq<Seq<char>>
    decreases calls.len(),
{
    if calls.len() == 0 {
        Seq::empty()
    } else {
        match calls.last() {
            CallView::Short(_) => long_items(calls.drop_last()),
            CallView::Long(name) => long_items(calls.drop_last()).push(seq!['-', '-'] + name),
        }
    }
}

/// What help lists for `calls`: the short calls as one cluster such as
/// `-abc` if there are any, then each long call.
pub open spec fn call_items(calls: Seq<CallView>) -> Seq<Seq<char>> {
    if short_chars(calls).len() > 0 {
        seq![seq!['-'] + short_chars(calls)] + long_items(calls)
    } else {
        long_items(calls)
    }
}

/// What help shows for `calls`: a single item as it is, otherwise the items
/// between brackets and separated by `, `.
pub open spec fn calls_text(calls: Seq<CallView>) -> Seq<char> {
    let items = call_items(calls);
    if items.len() == 1 {
        items[0]
    } else {
        seq!['('] + joined(items, seq![',', ' ']) + seq![')']
    }
}

/// The marker that help shows for a required argument.
pub open spec fn required_text(required: bool) -> Seq<char> {
    if required {
        "[REQUIRED] "@
    } else {
        Seq::empty()
    }
}

impl ArgumentView {
    /// The line that help shows for this argument, before it is indented and
    /// wrapped: its calls, the placeholder of its input, the marker of a
    /// required argument, a dash, and its help or [`HELP_DEFAULT`].
    pub open spec fn help_line(self) -> Seq<char> {
        calls_text(self.calls) + seq![' '] + self.input.placeholder_text() + required_text(
            self.required,
        ) + "— "@ + help_or_default(self.help)
    }

    /// This argument with `more` added after its calls.
    pub open spec fn with_calls(self, more: Seq<CallView>) -> ArgumentView {
        ArgumentView { calls: self.calls + more, ..self }
    }
}

impl<'a> Argument<'a> {
    /// Creates an argument called by `short_calls`, then by `long_calls`, each
    /// in the order given. The argument is not required. With no calls at
    /// all it cannot be attached anywhere until it is given one.
    pub fn new(
        help: Option<&'a str>,
        short_calls: Vec<char>,
        long_calls: Vec<&'a str>,
        input: Input,
    ) -> (r: Self)
        ensures
            r@ == (ArgumentView {
                help: opt_text(help),
                calls: self::short_calls(short_calls@) + self::long_calls(
                    long_calls@.map_values(|s: &str| s@),
                ),
                input,
                required: false,
            }),
    {
        let mut calls: Vec<CallType> = Vec::new();
        let mut i: usize = 0;
        while i < short_calls.len()
            invariant
                i <= short_calls.len(),
                calls@.len() == i,
                forall|k: int|
                    0 <= k < i ==> (#[trigger] calls@[k])@ == CallView::Short(short_calls@[k]),
            decreases short_calls.len() - i,
        {
            calls.push(CallType::from(short_calls[i]));
            i += 1;
        }
        let ghost names = long_calls@.map_values(|s: &str| s@);
        let mut j: usize = 0;
        while j < long_calls.len()
            invariant
                j <= long_calls.len(),
                calls@.len() == short_calls.len() + j,
                forall|k: int|
                    0 <= k < short_calls.len() ==> (#[trigger] calls@[k])@ == CallView::Short(
                        short_calls@[k],
                    ),
                forall|k: int|
                    short_calls.len() <= k < short_calls.len() + j ==> (#[trigger] calls@[k])@
                        == CallView::Long(long_calls@[k - short_calls.len()]@),
            decreases long_calls.len() - j,
        {
            calls.push(CallType::Long(String::from_str(long_calls[j])));
            j += 1;
        }
        assert(calls_view(calls@) =~= self::short_calls(short_calls@) + self::long_calls(names));
        Argument { help, calls, input, required: false }
    }

    /// Adds a single short call, chainable
    pub fn add_scall(&mut self, short_call: char) -> (r: &mut Self)
        ensures
            r@ == old(self)@.with_calls(seq![CallView::short(short_call)]),
            *final(self) == *final(r),
    {
        self.calls.push(CallType::from(short_call));
        assert(calls_view(self.calls@) =~= calls_view(old(self).calls@) + seq![
            CallView::short(short_call),
        ]);
        self
    }

    /// Adds multiple short calls in the order given, chainable
    pub fn add_scalls(&mut self, short_calls: Vec<char>) -> (r: &mut Self)
        ensures
            r@ == old(self)@.with_calls(self::short_calls(short_calls@)),
            *final(self) == *final(r),
    {
        let mut i: usize = 0;
        while i < short_calls.len()
            invariant
                i <= short_calls.len(),
                self@ =~= old(self)@.with_calls(self::short_calls(short_calls@.take(i as int))),
            decreases short_calls.len() - i,
        {
            self.add_scall(short_calls[i]);
            i += 1;
            assert(self@.calls =~= old(self)@.calls + self::short_calls(
                short_calls@.take(i as int),
            ));
        }
        assert(short_calls@.take(i as int) =~= short_calls@);
        self
    }

    /// Adds a single long call, chainable
    pub fn add_lcall(&mut self, long_call: &str) -> (r: &mut Self)
        ensures
            r@ == old(self)@.with_calls(seq![CallView::Long(long_call@)]),
            *final(self) == *final(r),
    {
        self.calls.push(CallType::Long(String::from_str(long_call)));
        assert(calls_view(self.calls@) =~= calls_view(old(self).calls@) + seq![
            CallView::Long(long_call@),
        ]);
        self
    }

    /// Adds multiple long calls in the order given, chainable
    pub fn add_lcalls(&mut self, long_calls: Vec<String>) -> (r: &mut Self)
        ensures
            r@ == old(self)@.with_calls(self::long_calls(long_calls@.map_values(|s: String| s@))),
            *final(self) == *final(r),
    {
        let ghost names = long_calls@.map_values(|s: String| s@);
        let mut i: usize = 0;
        while i < long_calls.len()
            invariant
                i <= long_calls.len(),
                names == long_calls@.map_values(|s: String| s@),
                self@ =~= old(self)@.with_calls(self::long_calls(names.take(i as int))),
            decreases long_calls.len() - i,
        {
            self.add_lcall(long_calls[i].as_str());
            i += 1;
            assert(self@.calls =~= old(self)@.calls + self::long_calls(names.take(i as int)));
        }
        assert(names.take(i as int) =~= names);
        self
    }
}

impl<'a> Argument<'a> {
    /// The line that help shows for this argument, before it is indented and
    /// wrapped.
    pub fn help_line(&self) -> (line: String)
        ensures
            line@ == self@.help_line(),
    {
        let ghost calls = self@.calls;
        let mut cluster = String::new();
        cluster.push('-');
        let mut shorts: usize = 0;
        let mut longs: Vec<String> = Vec::new();
        let mut i: usize = 0;
        while i < self.calls.len()
            invariant
                i <= self.calls.len(),
                calls == self@.calls,
                cluster@ == seq!['-'] + short_chars(calls.take(i as int)),
                shorts > 0 <==> short_chars(calls.take(i as int)).len() > 0,
                shorts <= i,
                texts(longs@) == long_items(calls.take(i as int)),
            decreases self.calls.len() - i,
        {
            assert(calls.take(i + 1).drop_last() =~= calls.take(i as int));
            match &self.calls[i] {
                CallType::Short(c) => {
                    cluster.push(*c);
                    shorts += 1;
                },
                CallType::Long(name) => {
                    let mut item = String::new();
                    item.push('-');
                    item.push('-');
                    item.append(name.as_str());
                    assert(item@ =~= seq!['-', '-'] + name@);
                    longs.push(item);
                },
            }
            i += 1;
        }
        assert(calls.take(i as int) =~= calls);
        let mut items: Vec<String> = Vec::new();
        if shorts > 0 {
            items.push(cluster);
        }
        items.append(&mut longs);
        assert(texts(items@) =~= call_items(calls));
        let mut line = String::new();
        if items.len() == 1 {
            line.append(items[0].as_str());
        } else {
            line.push('(');
            let joined_items = join(&items, ", ");
            line.append(joined_items.as_str());
            line.push(')');
            proof {
                reveal_strlit(", ");
                assert(", "@ =~= seq![',', ' ']);
            }
        }
        line.push(' ');
        line.append(self.input.placeholder());
        if self.required {
            line.append("[REQUIRED] ");
        }
        line.append("— ");
        match self.help {
            Some(help) => line.append(help),
            None => line.append(HELP_DEFAULT),
        }
        line
    }

    /// Writes the help line of this argument to `buf`, with the default
    /// indent. It may look like this:
    ///
    /// ```none
    ///   (-v, --verbose) — Verbose mode
    /// ```
    pub fn help_name_msg(&self, buf: &mut Vec<u8>)
        ensures
            final(buf)@ == old(buf)@ + term_lines(self@.help_line(), CLI_TABBING@),
    {
        let line = self.help_line();
        writeln_term(line.as_str(), CLI_TABBING, buf);
    }
}

/// How help shows the call `call` of an argument with the calls `calls`: a
/// long call as a user types it, a short call as one of the characters of
/// the cluster of the short calls.
pub open spec fn shows_call(line: Seq<char>, calls: Seq<CallView>, call: CallView) -> bool {
    match call {
        CallView::Long(_) => occurs_in(call.spelling(), line),
        CallView::Short(c) => occurs_in(seq!['-'] + short_chars(calls), line) && short_chars(
            calls,
        ).contains(c),
    }
}

/// Every short call among `calls` is one of their short characters.
pub proof fn lemma_short_chars_hold(calls: Seq<CallView>, k: int)
    requires
        0 <= k < calls.len(),
        calls[k] is Short,
    ensures
        short_chars(calls).contains(calls[k]->Short_0),
    decreases calls.len(),
{
    let front = short_chars(calls.drop_last());
    if k == calls.len() - 1 {
        assert(short_chars(calls)[front.len() as int] == calls[k]->Short_0);
    } else {
        lemma_short_chars_hold(calls.drop_last(), k);
        let at = choose|at: int| 0 <= at < front.len() && front[at] == calls[k]->Short_0;
        match calls.last() {
            CallView::Short(c) => {
                assert(short_chars(calls)[at] == front[at]);
            },
            CallView::Long(_) => {},
        }
    }
}

/// Every long call among `calls` is one of their long items, as typed.
pub proof fn lemma_long_items_hold(calls: Seq<CallView>, k: int)
    requires
        0 <= k < calls.len(),
        calls[k] is Long,
    ensures
        long_items(calls).contains(calls[k].spelling()),
    decreases calls.len(),
{
    let front = long_items(calls.drop_last());
    if k == calls.len() - 1 {
        assert(long_items(calls)[front.len() as int] == calls[k].spelling());
    } else {
        lemma_long_items_hold(calls.drop_last(), k);
        let at = choose|at: int| 0 <= at < front.len() && front[at] == calls[k].spelling();
        match calls.last() {
            CallView::Short(_) => {},
            CallView::Long(_) => {
                assert(long_items(calls)[at] == front[at]);
            },
        }
    }
}

/// Every item that help lists for `calls` stands in what help shows for
/// them.
pub proof fn lemma_calls_text_shows_item(calls: Seq<CallView>, i: int)
    requires
        0 <= i < call_items(calls).len(),
    ensures
        occurs_in(call_items(calls)[i], calls_text(calls)),
{
    let items = call_items(calls);
    let empty = Seq::<char>::empty();
    if items.len() == 1 {
        lemma_occurs_between(empty, items[0], empty);
    } else {
        lemma_joined_shows_item(items, seq![',', ' '], i);
        lemma_occurs_inside(items[i], joined(items, seq![',', ' ']), seq!['('], seq![')']);
    }
}

impl ArgumentView {
    /// What follows the calls on the help line, up to the help.
    pub open spec fn help_line_middle(self) -> Seq<char> {
        seq![' '] + self.input.placeholder_text() + required_text(self.required) + "— "@
    }

    /// The help line of an argument shows each of its calls as it is.
    pub proof fn lemma_help_line_shows_call(self, k: int)
        requires
            0 <= k < self.calls.len(),
        ensures
            shows_call(self.help_line(), self.calls, self.calls[k]),
    {
        let line = self.help_line();
        let shown = calls_text(self.calls);
        let empty = Seq::<char>::empty();
        let rest = self.help_line_middle() + help_or_default(self.help);
        assert(line =~= empty + shown + rest);
        let items = call_items(self.calls);
        match self.calls[k] {
            CallView::Short(c) => {
                lemma_short_chars_hold(self.calls, k);
                assert(items[0] == seq!['-'] + short_chars(self.calls));
                lemma_calls_text_shows_item(self.calls, 0);
                lemma_occurs_inside(items[0], shown, empty, rest);
            },
            CallView::Long(_) => {
                lemma_long_items_hold(self.calls, k);
                let longs = long_items(self.calls);
                let at = choose|at: int|
                    0 <= at < longs.len() && longs[at] == self.calls[k].spelling();
                let i = if short_chars(self.calls).len() > 0 {
                    at + 1
                } else {
                    at
                };
                assert(items[i] == self.calls[k].spelling());
                lemma_calls_text_shows_item(self.calls, i);
                lemma_occurs_inside(items[i], shown, empty, rest);
            },
        }
    }

    /// The help line of an argument ends in its help or [`HELP_DEFAULT`].
    pub proof fn lemma_help_line_shows_help(self)
        ensures
            occurs_in(help_or_default(self.help), self.help_line()),
    {
        let front = calls_text(self.calls) + self.help_line_middle();
        let help = help_or_default(self.help);
        assert(self.help_line() =~= front + help + Seq::<char>::empty());
        lemma_occurs_between(front, help, Seq::<char>::empty());
    }
}

/// Whether the help text `block`, written with the indent `tabbing`, shows
/// `argument`: the lines of the argument stand in it whole; with the
/// wrapping undone they are the help line of the argument; and that line
/// holds the help of the argument and each of its calls, as they are.
pub open spec fn shows_argument(block: Seq<u8>, argument: ArgumentView, tabbing: Seq<char>) -> bool {
    let line = argument.help_line();
    let indent = encode_utf8(tabbing).len() as int;
    &&& occurs_in(term_lines(line, tabbing), block)
    &&& unwrapped(term_lines(line, tabbing), indent, line_room(indent)) == encode_utf8(line)
    &&& occurs_in(help_or_default(argument.help), line)
    &&& forall|k: int|
        0 <= k < argument.calls.len() ==> shows_call(
            line,
            argument.calls,
            #[trigger] argument.calls[k],
        )
}

impl ArgumentView {
    /// A help text that holds the lines of an argument shows the argument.
    pub proof fn lemma_shown_where_listed(self, block: Seq<u8>, tabbing: Seq<char>)
        requires
            occurs_in(term_lines(self.help_line(), tabbing), block),
        ensures
            shows_argument(block, self, tabbing),
    {
        let indent = encode_utf8(tabbing);
        lemma_unwrapped_wrapped(
            encode_utf8(self.help_line()),
            indent,
            line_room(indent.len() as int),
        );
        self.lemma_help_line_shows_help();
        assert forall|k: int| 0 <= k < self.calls.len() implies shows_call(
            self.help_line(),
            self.calls,
            #[trigger] self.calls[k],
        ) by {
            self.lemma_help_line_shows_call(k);
        }
    }
}

} // verus!
