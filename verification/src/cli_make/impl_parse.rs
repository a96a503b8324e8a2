//! Parsing: from a description and a sequence of tokens to the tree of what
//! was invoked.

use vstd::prelude::*;

use crate::argument::{Argument, ArgumentView};
use crate::call_type::{CallType, CallView};
use crate::cli_make::{CliMake, CliMakeView};
use crate::error::{ParseError, ParseErrorView};
use crate::io::{bind, fits, Data, Input};
use crate::parsed::{
    parsed_arguments_view, parsed_subcommands_view, ParsedArgument, ParsedArgumentView, ParsedCli,
    ParsedCliView, ParsedSubcommand, ParsedSubcommandView,
};
use crate::subcommand::{arguments_view, subcommands_view, Subcommand, SubcommandView};
use crate::text::{chars_match, chars_of, texts};

verus! {

/// A long-call token: `--` followed by at least one character.
pub open spec fn is_long_call(token: Seq<char>) -> bool {
    token.len() >= 3 && token[0] == '-' && token[1] == '-'
}

/// A short-call cluster: `-` followed by at least one character, none of them
/// a hyphen.
pub open spec fn is_short_cluster(token: Seq<char>) -> bool {
    &&& token.len() >= 2
    &&& token[0] == '-'
    &&& forall|i: int| 1 <= i < token.len() ==> token[i] != '-'
}

/// A token that calls arguments. Every other token is bare: data for an armed
/// argument, or the name of a subcommand.
pub open spec fn is_call(token: Seq<char>) -> bool {
    is_long_call(token) || is_short_cluster(token)
}

/// The first of `arguments` that has `call` among its calls.
pub open spec fn lookup(arguments: Seq<ArgumentView>, call: CallView) -> Option<ArgumentView>
    decreases arguments.len(),
{
    if arguments.len() == 0 {
        None
    } else if arguments[0].calls.contains(call) {
        Some(arguments[0])
    } else {
        lookup(arguments.drop_first(), call)
    }
}

/// The first of `subcommands` named `name`.
pub open spec fn lookup_subcommand(subcommands: Seq<SubcommandView>, name: Seq<char>) -> Option<
    SubcommandView,
>
    decreases subcommands.len(),
{
    if subcommands.len() == 0 {
        None
    } else if subcommands[0].name == name {
        Some(subcommands[0])
    } else {
        lookup_subcommand(subcommands.drop_first(), name)
    }
}

/// Whether the call token `token` resolves in a scope with `arguments`: its
/// long call, or every character of its cluster, is a call of one of them.
pub open spec fn resolves(arguments: Seq<ArgumentView>, token: Seq<char>) -> bool {
    if is_long_call(token) {
        lookup(arguments, CallView::Long(token.skip(2))) is Some
    } else {
        &&& is_short_cluster(token)
        &&& forall|i: int|
            1 <= i < token.len() ==> lookup(arguments, CallView::short(#[trigger] token[i]))
                is Some
    }
}

/// The arguments that `token` calls in a scope with `arguments`, in the order
/// it calls them; empty when `token` does not resolve.
pub open spec fn resolve(arguments: Seq<ArgumentView>, token: Seq<char>) -> Seq<ArgumentView> {
    if !resolves(arguments, token) {
        Seq::empty()
    } else if is_long_call(token) {
        seq![lookup(arguments, CallView::Long(token.skip(2))).unwrap()]
    } else {
        Seq::new(
            (token.len() - 1) as nat,
            |i: int| lookup(arguments, CallView::short(token[i + 1])).unwrap(),
        )
    }
}

/// An armed argument: one that was called and waits for data, with the tokens
/// it was given so far.
pub struct Armed {
    pub argument: ArgumentView,
    pub data: Seq<Seq<char>>,
}

/// An argument as it has just been called, with no data yet.
pub open spec fn arm(argument: ArgumentView) -> Armed {
    Armed { argument, data: Seq::empty() }
}

/// The invoked argument that `armed` becomes when its window closes.
pub open spec fn emit(armed: Armed) -> ParsedArgumentView {
    ParsedArgumentView { inner: armed.argument, data: bind(armed.argument.input, armed.data) }
}

/// `done`, followed by the armed argument if there is one.
pub open spec fn flush(armed: Option<Armed>, done: Seq<ParsedArgumentView>) -> Seq<
    ParsedArgumentView,
> {
    match armed {
        Some(a) => done.push(emit(a)),
        None => done,
    }
}

/// Whether the bare token `token` is data for the armed argument. An argument
/// that takes paths leaves a token that names a subcommand of its scope to
/// that subcommand; any other armed argument takes the token.
pub open spec fn takes(armed: Option<Armed>, subcommands: Seq<SubcommandView>, token: Seq<char>)
    -> bool {
    match armed {
        Some(a) => a.argument.input != Input::Paths || lookup_subcommand(subcommands, token)
            is None,
        None => false,
    }
}

/// The parse of `tokens[pos..]` inside one scope, whose arguments and
/// subcommands are given; `armed` and `done` are the state reached so far.
///
/// - A call token closes the window of the armed argument and calls its own
///   arguments in turn; each but the last is invoked with no data, the last
///   stays armed. A call that the scope does not have fails the parse.
/// - A bare token goes to the armed argument if it takes it: text and path
///   arguments take one token and close, an argument that takes paths keeps
///   its window open, an argument that takes nothing drops the token and
///   closes.
/// - Any other bare token must name a subcommand of the scope. The rest of
///   the tokens belongs to that subcommand, and to nothing outside it.
/// - The end of the tokens closes the window of the armed argument.
pub open spec fn parse_scope(
    arguments: Seq<ArgumentView>,
    subcommands: Seq<SubcommandView>,
    tokens: Seq<Seq<char>>,
    pos: int,
    armed: Option<Armed>,
    done: Seq<ParsedArgumentView>,
) -> Result<ParsedCliView, ParseErrorView>
    decreases tokens.len() - pos,
{
    if pos < 0 || pos >= tokens.len() {
        Ok(ParsedCliView { subcommands: Seq::empty(), arguments: flush(armed, done) })
    } else {
        let token = tokens[pos];
        if is_call(token) {
            if resolves(arguments, token) {
                let found = resolve(arguments, token);
                parse_scope(
                    arguments,
                    subcommands,
                    tokens,
                    pos + 1,
                    Some(arm(found.last())),
                    flush(armed, done) + found.drop_last().map_values(
                        |a: ArgumentView| emit(arm(a)),
                    ),
                )
            } else {
                Err(ParseErrorView::ArgNotFound(token))
            }
        } else if takes(armed, subcommands, token) {
            let a = armed.unwrap();
            match a.argument.input {
                Input::Paths => parse_scope(
                    arguments,
                    subcommands,
                    tokens,
                    pos + 1,
                    Some(Armed { argument: a.argument, data: a.data.push(token) }),
                    done,
                ),
                Input::Text | Input::Path => parse_scope(
                    arguments,
                    subcommands,
                    tokens,
                    pos + 1,
                    None,
                    done.push(emit(Armed { argument: a.argument, data: seq![token] })),
                ),
                Input::Nothing => parse_scope(
                    arguments,
                    subcommands,
                    tokens,
                    pos + 1,
                    None,
                    done.push(emit(a)),
                ),
            }
        } else {
            match lookup_subcommand(subcommands, token) {
                None => Err(ParseErrorView::SubcommandNotFound(token)),
                Some(sub) => match parse_scope(
                    sub.arguments,
                    sub.subcommands,
                    tokens,
                    pos + 1,
                    None,
                    Seq::empty(),
                ) {
                    Err(e) => Err(e),
                    Ok(inner) => Ok(
                        ParsedCliView {
                            subcommands: seq![
                                ParsedSubcommandView {
                                    inner: sub,
                                    subcommands: inner.subcommands,
                                    arguments: inner.arguments,
                                },
                            ],
                            arguments: flush(armed, done),
                        },
                    ),
                },
            }
        }
    }
}

/// Every argument invoked in a part of a parse result, those invoked directly
/// first, then those of each subcommand in turn.
pub open spec fn invoked(
    arguments: Seq<ParsedArgumentView>,
    subcommands: Seq<ParsedSubcommandView>,
) -> Seq<ArgumentView>
    decreases subcommands, 1int,
{
    arguments.map_values(|p: ParsedArgumentView| p.inner) + invoked_below(subcommands)
}

/// Every argument invoked under one of `subcommands`.
pub open spec fn invoked_below(subcommands: Seq<ParsedSubcommandView>) -> Seq<ArgumentView>
    decreases subcommands, 0int,
{
    if subcommands.len() == 0 {
        Seq::empty()
    } else {
        invoked_below(subcommands.drop_last()) + invoked(
            subcommands.last().arguments,
            subcommands.last().subcommands,
        )
    }
}

/// The first of `arguments` that is required and not among `invoked`.
pub open spec fn missing_here(arguments: Seq<ArgumentView>, invoked: Seq<ArgumentView>) -> Option<
    ArgumentView,
>
    decreases arguments.len(),
{
    if arguments.len() == 0 {
        None
    } else if arguments[0].required && !invoked.contains(arguments[0]) {
        Some(arguments[0])
    } else {
        missing_here(arguments.drop_first(), invoked)
    }
}

/// The first required argument of a whole description that is not among
/// `invoked`: the arguments of a scope are looked at before those of its
/// subcommands, and subcommands in their order.
pub open spec fn missing(
    arguments: Seq<ArgumentView>,
    subcommands: Seq<SubcommandView>,
    invoked: Seq<ArgumentView>,
) -> Option<ArgumentView>
    decreases subcommands, 1int,
{
    match missing_here(arguments, invoked) {
        Some(a) => Some(a),
        None => missing_below(subcommands, invoked),
    }
}

/// The first required argument under one of `subcommands` that is not among
/// `invoked`.
pub open spec fn missing_below(subcommands: Seq<SubcommandView>, invoked: Seq<ArgumentView>)
    -> Option<ArgumentView>
    decreases subcommands, 0int,
{
    if subcommands.len() == 0 {
        None
    } else {
        match missing(subcommands[0].arguments, subcommands[0].subcommands, invoked) {
            Some(a) => Some(a),
            None => missing_below(subcommands.drop_first(), invoked),
        }
    }
}

/// The parse of `tokens` against the description `cli`: the tree of what was
/// invoked, unless a token does not resolve or a required argument of the
/// description was never invoked.
pub open spec fn parse(cli: CliMakeView, tokens: Seq<Seq<char>>) -> Result<
    ParsedCliView,
    ParseErrorView,
> {
    match parse_scope(cli.arguments, cli.subcommands, tokens, 0, None, Seq::empty()) {
        Err(e) => Err(e),
        Ok(parsed) => match missing(
            cli.arguments,
            cli.subcommands,
            invoked(parsed.arguments, parsed.subcommands),
        ) {
            Some(a) => Err(ParseErrorView::MissingRequiredArgument(a)),
            None => Ok(parsed),
        },
    }
}

/// The shape of a token.
enum TokenKind {
    Long,
    Cluster,
    Bare,
}

/// Tells the shape of the token spelled by `chars`.
fn classify(chars: &Vec<char>) -> (kind: TokenKind)
    ensures
        (kind is Long) == is_long_call(chars@),
        (kind is Cluster) == is_short_cluster(chars@),
        (kind is Bare) == !is_call(chars@),
{
    if chars.len() < 2 || chars[0] != '-' {
        return TokenKind::Bare;
    }
    if chars[1] == '-' {
        if chars.len() >= 3 {
            return TokenKind::Long;
        } else {
            return TokenKind::Bare;
        }
    }
    let mut i: usize = 1;
    while i < chars.len()
        invariant
            1 <= i <= chars.len(),
            chars@[0] == '-',
            chars@[1] != '-',
            forall|k: int| 1 <= k < i ==> chars@[k] != '-',
        decreases chars.len() - i,
    {
        if chars[i] == '-' {
            assert(!is_short_cluster(chars@)) by {
                assert(chars@[i as int] == '-');
            }
            return TokenKind::Bare;
        }
        i += 1;
    }
    TokenKind::Cluster
}

/// Whether `argument` has the short call `c`.
fn has_short(argument: &Argument, c: char) -> (r: bool)
    ensures
        r == argument@.calls.contains(CallView::short(c)),
{
    let mut i: usize = 0;
    while i < argument.calls.len()
        invariant
            i <= argument.calls.len(),
            forall|k: int| 0 <= k < i ==> argument@.calls[k] != CallView::short(c),
        decreases argument.calls.len() - i,
    {
        let found = match &argument.calls[i] {
            CallType::Short(x) => *x == c,
            CallType::Long(_) => false,
        };
        if found {
            assert(argument@.calls[i as int] == CallView::short(c));
            return true;
        }
        i += 1;
    }
    false
}

/// Whether `argument` has the long call named by `token[2..]`.
fn has_long(argument: &Argument, token: &Vec<char>) -> (r: bool)
    requires
        token.len() >= 2,
    ensures
        r == argument@.calls.contains(CallView::Long(token@.skip(2))),
{
    let mut i: usize = 0;
    while i < argument.calls.len()
        invariant
            token.len() >= 2,
            i <= argument.calls.len(),
            forall|k: int| 0 <= k < i ==> argument@.calls[k] != CallView::Long(token@.skip(2)),
        decreases argument.calls.len() - i,
    {
        let found = match &argument.calls[i] {
            CallType::Short(_) => false,
            CallType::Long(name) => chars_match(token, 2, name.as_str()),
        };
        if found {
            assert(argument@.calls[i as int] == CallView::Long(token@.skip(2)));
            return true;
        }
        i += 1;
    }
    false
}

/// The view of an argument that may have been found.
pub open spec fn found_view<'a>(found: Option<&'a Argument<'a>>) -> Option<ArgumentView> {
    match found {
        Some(a) => Some(a@),
        None => None,
    }
}

/// The first of `arguments` with the short call `c`.
fn find_short<'a>(arguments: &Vec<&'a Argument<'a>>, c: char) -> (r: Option<&'a Argument<'a>>)
    ensures
        found_view(r) == lookup(arguments_view(arguments@), CallView::short(c)),
{
    let ghost all = arguments_view(arguments@);
    assert(all.skip(0) =~= all);
    let mut i: usize = 0;
    while i < arguments.len()
        invariant
            i <= arguments.len(),
            all == arguments_view(arguments@),
            lookup(all, CallView::short(c)) == lookup(all.skip(i as int), CallView::short(c)),
        decreases arguments.len() - i,
    {
        assert(all.skip(i as int).drop_first() =~= all.skip(i + 1));
        if has_short(arguments[i], c) {
            return Some(arguments[i]);
        }
        i += 1;
    }
    None
}

/// The first of `arguments` with the long call named by `token[2..]`.
fn find_long<'a>(arguments: &Vec<&'a Argument<'a>>, token: &Vec<char>) -> (r: Option<
    &'a Argument<'a>,
>)
    requires
        token.len() >= 2,
    ensures
        found_view(r) == lookup(arguments_view(arguments@), CallView::Long(token@.skip(2))),
{
    let ghost all = arguments_view(arguments@);
    let ghost call = CallView::Long(token@.skip(2));
    assert(all.skip(0) =~= all);
    let mut i: usize = 0;
    while i < arguments.len()
        invariant
            token.len() >= 2,
            i <= arguments.len(),
            all == arguments_view(arguments@),
            call == CallView::Long(token@.skip(2)),
            lookup(all, call) == lookup(all.skip(i as int), call),
        decreases arguments.len() - i,
    {
        assert(all.skip(i as int).drop_first() =~= all.skip(i + 1));
        if has_long(arguments[i], token) {
            return Some(arguments[i]);
        }
        i += 1;
    }
    None
}

/// Finds the arguments that the token `call` calls among `arguments`: one
/// for a long call, one per character for a cluster of short calls, in the
/// order called. The result is empty when `call` is no call token, or when it
/// makes a call that none of `arguments` has.
pub fn find_argument<'a>(call: &str, arguments: &Vec<&'a Argument<'a>>) -> (found: Vec<
    &'a Argument<'a>,
>)
    ensures
        arguments_view(found@) == resolve(arguments_view(arguments@), call@),
{
    let chars = chars_of(call);
    find_called(&chars, arguments)
}

/// [`find_argument`] on a token that is already split into characters.
fn find_called<'a>(chars: &Vec<char>, arguments: &Vec<&'a Argument<'a>>) -> (found: Vec<
    &'a Argument<'a>,
>)
    ensures
        arguments_view(found@) == resolve(arguments_view(arguments@), chars@),
{
    let ghost all = arguments_view(arguments@);
    let mut found: Vec<&'a Argument<'a>> = Vec::new();
    match classify(chars) {
        TokenKind::Bare => {},
        TokenKind::Long => {
            match find_long(arguments, chars) {
                Some(argument) => {
                    found.push(argument);
                },
                None => {},
            }
        },
        TokenKind::Cluster => {
            let mut i: usize = 1;
            while i < chars.len()
                invariant
                    1 <= i <= chars.len(),
                    is_short_cluster(chars@),
                    all == arguments_view(arguments@),
                    found@.len() == i - 1,
                    forall|k: int|
                        1 <= k < i ==> lookup(all, CallView::short(#[trigger] chars@[k])) == Some(
                            found@[k - 1]@,
                        ),
                decreases chars.len() - i,
            {
                match find_short(arguments, chars[i]) {
                    Some(argument) => {
                        found.push(argument);
                    },
                    None => {
                        return Vec::new();
                    },
                }
                i += 1;
            }
        },
    }
    found
}

/// The view of a subcommand that may have been found.
pub open spec fn found_subcommand_view<'a>(found: Option<&'a Subcommand<'a>>) -> Option<
    SubcommandView,
> {
    match found {
        Some(s) => Some(s@),
        None => None,
    }
}

/// Finds the first of `subcommands` that is named `name`.
pub fn find_subcommand<'a>(name: &str, subcommands: &Vec<&'a Subcommand<'a>>) -> (found: Option<
    &'a Subcommand<'a>,
>)
    ensures
        found_subcommand_view(found) == lookup_subcommand(subcommands_view(subcommands@), name@),
{
    let ghost all = subcommands_view(subcommands@);
    assert(all.skip(0) =~= all);
    let mut i: usize = 0;
    while i < subcommands.len()
        invariant
            i <= subcommands.len(),
            all == subcommands_view(subcommands@),
            lookup_subcommand(all, name@) == lookup_subcommand(all.skip(i as int), name@),
        decreases subcommands.len() - i,
    {
        assert(all.skip(i as int).drop_first() =~= all.skip(i + 1));
        if name.eq(subcommands[i].name) {
            return Some(subcommands[i]);
        }
        i += 1;
    }
    None
}

/// The state of the armed argument, as the parser holds it: the argument, if
/// one is armed, and the tokens given to it so far.
pub open spec fn armed_view<'a>(armed: Option<&'a Argument<'a>>, given: Seq<String>) -> Option<
    Armed,
> {
    match armed {
        Some(a) => Some(Armed { argument: a@, data: texts(given) }),
        None => None,
    }
}

/// Closes the window of `argument` over the tokens `data`.
fn emit_argument<'a>(argument: &'a Argument<'a>, data: Vec<String>) -> (p: ParsedArgument<'a>)
    ensures
        p@ == emit(Armed { argument: argument@, data: texts(data@) }),
{
    ParsedArgument { inner: argument, data: Data::new(argument.input, data) }
}

/// Whether `r` is what a parse returns when its outcome is `outcome`.
pub open spec fn returns_scope<'a>(
    r: Result<ParsedCli<'a>, ParseError<'a>>,
    outcome: Result<ParsedCliView, ParseErrorView>,
) -> bool {
    match r {
        Ok(parsed) => outcome == Ok::<ParsedCliView, ParseErrorView>(parsed@),
        Err(e) => outcome == Err::<ParsedCliView, ParseErrorView>(e@),
    }
}

/// Parses `inputs[start..]` inside the scope that holds `arguments` and
/// `subcommands`; `done` holds what was invoked in the scope before.
fn parse_tokens<'a>(
    arguments: &Vec<&'a Argument<'a>>,
    subcommands: &Vec<&'a Subcommand<'a>>,
    inputs: &Vec<String>,
    start: usize,
    done: Vec<ParsedArgument<'a>>,
) -> (r: Result<ParsedCli<'a>, ParseError<'a>>)
    requires
        start <= inputs.len(),
    ensures
        returns_scope(
            r,
            parse_scope(
                arguments_view(arguments@),
                subcommands_view(subcommands@),
                texts(inputs@),
                start as int,
                None,
                parsed_arguments_view(done@),
            ),
        ),
    decreases inputs.len() - start, 0int,
{
    let ghost av = arguments_view(arguments@);
    let ghost sv = subcommands_view(subcommands@);
    let ghost tokens = texts(inputs@);
    let ghost goal = parse_scope(av, sv, tokens, start as int, None, parsed_arguments_view(done@));
    let mut emitted = done;
    let mut armed: Option<&'a Argument<'a>> = None;
    let mut given: Vec<String> = Vec::new();
    let mut pos: usize = start;
    while pos < inputs.len()
        invariant
            start <= pos <= inputs.len(),
            av == arguments_view(arguments@),
            sv == subcommands_view(subcommands@),
            tokens == texts(inputs@),
            goal == parse_scope(
                av,
                sv,
                tokens,
                start as int,
                None,
                parsed_arguments_view(done@),
            ),
            goal == parse_scope(
                av,
                sv,
                tokens,
                pos as int,
                armed_view(armed, given@),
                parsed_arguments_view(emitted@),
            ),
        decreases inputs.len() - pos,
    {
        let token = &inputs[pos];
        let chars = chars_of(token.as_str());
        let ghost before = parsed_arguments_view(emitted@);
        let ghost state = armed_view(armed, given@);
        let bare = match classify(&chars) {
            TokenKind::Bare => true,
            _ => false,
        };
        if !bare {
            let found = find_called(&chars, arguments);
            if found.len() == 0 {
                return Err(ParseError::ArgNotFound(token.clone()));
            }
            match armed {
                Some(argument) => {
                    emitted.push(emit_argument(argument, given));
                    given = Vec::new();
                },
                None => {},
            }
            assert(parsed_arguments_view(emitted@) =~= flush(state, before));
            let ghost flushed = parsed_arguments_view(emitted@);
            let ghost opened = arguments_view(found@).drop_last().map_values(
                |a: ArgumentView| emit(arm(a)),
            );
            let mut k: usize = 0;
            while k < found.len() - 1
                invariant
                    found.len() > 0,
                    k <= found.len() - 1,
                    opened == arguments_view(found@).drop_last().map_values(
                        |a: ArgumentView| emit(arm(a)),
                    ),
                    parsed_arguments_view(emitted@) =~= flushed + opened.take(k as int),
                decreases found.len() - k,
            {
                let ghost so_far = parsed_arguments_view(emitted@);
                let nothing: Vec<String> = Vec::new();
                assert(texts(nothing@) =~= Seq::<Seq<char>>::empty());
                emitted.push(emit_argument(found[k], nothing));
                assert(parsed_arguments_view(emitted@) =~= so_far.push(opened[k as int]));
                k += 1;
            }
            assert(opened.take(k as int) =~= opened);
            armed = Some(found[found.len() - 1]);
            given = Vec::new();
            assert(texts(given@) =~= Seq::<Seq<char>>::empty());
            pos += 1;
        } else {
            let descend = match armed {
                Some(argument) => {
                    match argument.input {
                        Input::Paths => {
                            match find_subcommand(token.as_str(), subcommands) {
                                Some(_) => true,
                                None => {
                                    given.push(token.clone());
                                    assert(texts(given@) =~= state.unwrap().data.push(chars@));
                                    false
                                },
                            }
                        },
                        Input::Text | Input::Path => {
                            let mut one: Vec<String> = Vec::new();
                            one.push(token.clone());
                            emitted.push(emit_argument(argument, one));
                            assert(parsed_arguments_view(emitted@) =~= before.push(
                                emit(Armed { argument: argument@, data: seq![chars@] }),
                            ));
                            armed = None;
                            false
                        },
                        Input::Nothing => {
                            emitted.push(emit_argument(argument, given));
                            given = Vec::new();
                            assert(parsed_arguments_view(emitted@) =~= before.push(
                                emit(state.unwrap()),
                            ));
                            armed = None;
                            false
                        },
                    }
                },
                None => true,
            };
            if descend {
                let sub = match find_subcommand(token.as_str(), subcommands) {
                    Some(sub) => sub,
                    None => {
                        return Err(ParseError::SubcommandNotFound(token.clone()));
                    },
                };
                match armed {
                    Some(argument) => {
                        emitted.push(emit_argument(argument, given));
                    },
                    None => {},
                }
                assert(parsed_arguments_view(emitted@) =~= flush(state, before));
                let entered = match match_next_subcommand(
                    inputs,
                    pos + 1,
                    ParsedSubcommand::new_empty(sub),
                ) {
                    Ok(entered) => entered,
                    Err(e) => {
                        return Err(e);
                    },
                };
                let mut below: Vec<ParsedSubcommand<'a>> = Vec::new();
                below.push(entered);
                assert(parsed_subcommands_view(below@) =~= seq![entered@]);
                return Ok(ParsedCli { subcommands: below, arguments: emitted });
            }
            pos += 1;
        }
    }
    match armed {
        Some(argument) => {
            let ghost before = parsed_arguments_view(emitted@);
            emitted.push(emit_argument(argument, given));
            assert(parsed_arguments_view(emitted@) =~= before.push(
                emit(armed_view(armed, given@).unwrap()),
            ));
        },
        None => {},
    }
    let below: Vec<ParsedSubcommand<'a>> = Vec::new();
    assert(parsed_subcommands_view(below@) =~= Seq::<ParsedSubcommandView>::empty());
    Ok(ParsedCli { subcommands: below, arguments: emitted })
}

/// Whether `r` is what [`match_next_subcommand`] returns when the outcome of
/// parsing inside the subcommand that `entered` stands for is `outcome`.
pub open spec fn returns_subcommand<'a>(
    r: Result<ParsedSubcommand<'a>, ParseError<'a>>,
    entered: ParsedSubcommandView,
    outcome: Result<ParsedCliView, ParseErrorView>,
) -> bool {
    match r {
        Ok(parsed) => outcome is Ok && parsed@ == (ParsedSubcommandView {
            inner: entered.inner,
            subcommands: entered.subcommands + outcome->Ok_0.subcommands,
            arguments: outcome->Ok_0.arguments,
        }),
        Err(e) => outcome == Err::<ParsedCliView, ParseErrorView>(e@),
    }
}

/// Parses `inputs[pos..]` inside the subcommand that `parsed_subcommand`
/// stands for, and fills it in: the arguments invoked there follow those it
/// holds already, and a subcommand entered from there follows its
/// subcommands. Past the end of `inputs` there is nothing left to parse.
pub fn match_next_subcommand<'a>(
    inputs: &Vec<String>,
    pos: usize,
    parsed_subcommand: ParsedSubcommand<'a>,
) -> (r: Result<ParsedSubcommand<'a>, ParseError<'a>>)
    ensures
        returns_subcommand(
            r,
            parsed_subcommand@,
            parse_scope(
                parsed_subcommand@.inner.arguments,
                parsed_subcommand@.inner.subcommands,
                texts(inputs@),
                pos as int,
                None,
                parsed_subcommand@.arguments,
            ),
        ),
    decreases inputs.len() - pos, 1int,
{
    if pos > inputs.len() {
        return Ok(parsed_subcommand);
    }
    let ParsedSubcommand { inner, subcommands, arguments } = parsed_subcommand;
    let mut subcommands = subcommands;
    let ghost before = parsed_subcommands_view(subcommands@);
    match parse_tokens(&inner.arguments, &inner.subcommands, inputs, pos, arguments) {
        Ok(scope) => {
            let ParsedCli { subcommands: below, arguments: invoked } = scope;
            let mut below = below;
            subcommands.append(&mut below);
            assert(parsed_subcommands_view(subcommands@) =~= before + scope@.subcommands);
            Ok(ParsedSubcommand { inner, subcommands, arguments: invoked })
        },
        Err(e) => Err(e),
    }
}

/// Appends to `out` every argument invoked in a part of a parse result.
fn collect_invoked<'a>(
    arguments: &Vec<ParsedArgument<'a>>,
    subcommands: &Vec<ParsedSubcommand<'a>>,
    out: &mut Vec<&'a Argument<'a>>,
)
    ensures
        arguments_view(final(out)@) == arguments_view(old(out)@) + invoked(
            parsed_arguments_view(arguments@),
            parsed_subcommands_view(subcommands@),
        ),
    decreases subcommands,
{
    let ghost start = arguments_view(out@);
    let ghost direct = parsed_arguments_view(arguments@).map_values(
        |p: ParsedArgumentView| p.inner,
    );
    let ghost below = parsed_subcommands_view(subcommands@);
    let mut i: usize = 0;
    while i < arguments.len()
        invariant
            i <= arguments.len(),
            direct == parsed_arguments_view(arguments@).map_values(|p: ParsedArgumentView| p.inner),
            arguments_view(out@) =~= start + direct.take(i as int),
        decreases arguments.len() - i,
    {
        let ghost so_far = arguments_view(out@);
        out.push(arguments[i].inner);
        i += 1;
        assert(arguments_view(out@) =~= so_far.push(arguments@[i - 1].inner@));
    }
    let mut j: usize = 0;
    while j < subcommands.len()
        invariant
            j <= subcommands.len(),
            below == parsed_subcommands_view(subcommands@),
            arguments_view(out@) =~= start + direct + invoked_below(below.take(j as int)),
        decreases subcommands.len() - j,
    {
        collect_invoked(&subcommands[j].arguments, &subcommands[j].subcommands, out);
        j += 1;
        assert(below.take(j as int).drop_last() =~= below.take(j - 1));
    }
    assert(below.take(j as int) =~= below);
}

/// Whether `argument` is among `invoked`.
fn was_invoked(argument: &Argument, invoked: &Vec<&Argument>) -> (r: bool)
    ensures
        r == arguments_view(invoked@).contains(argument@),
{
    let mut i: usize = 0;
    while i < invoked.len()
        invariant
            i <= invoked.len(),
            forall|k: int| 0 <= k < i ==> arguments_view(invoked@)[k] != argument@,
        decreases invoked.len() - i,
    {
        if argument.eq(invoked[i]) {
            assert(arguments_view(invoked@)[i as int] == argument@);
            return true;
        }
        i += 1;
    }
    false
}

/// The first required argument of a description that is not among
/// `invoked`.
fn find_missing<'a>(
    arguments: &Vec<&'a Argument<'a>>,
    subcommands: &Vec<&'a Subcommand<'a>>,
    invoked: &Vec<&'a Argument<'a>>,
) -> (r: Option<&'a Argument<'a>>)
    ensures
        found_view(r) == missing(
            arguments_view(arguments@),
            subcommands_view(subcommands@),
            arguments_view(invoked@),
        ),
    decreases subcommands,
{
    let ghost av = arguments_view(arguments@);
    let ghost sv = subcommands_view(subcommands@);
    let ghost iv = arguments_view(invoked@);
    assert(av.skip(0) =~= av);
    let mut i: usize = 0;
    while i < arguments.len()
        invariant
            i <= arguments.len(),
            av == arguments_view(arguments@),
            iv == arguments_view(invoked@),
            missing_here(av, iv) == missing_here(av.skip(i as int), iv),
        decreases arguments.len() - i,
    {
        assert(av.skip(i as int).drop_first() =~= av.skip(i + 1));
        if arguments[i].required && !was_invoked(arguments[i], invoked) {
            return Some(arguments[i]);
        }
        i += 1;
    }
    assert(sv.skip(0) =~= sv);
    let mut j: usize = 0;
    while j < subcommands.len()
        invariant
            j <= subcommands.len(),
            sv == subcommands_view(subcommands@),
            iv == arguments_view(invoked@),
            av == arguments_view(arguments@),
            missing_here(av, iv) is None,
            missing_below(sv, iv) == missing_below(sv.skip(j as int), iv),
        decreases subcommands.len() - j,
    {
        assert(sv.skip(j as int).drop_first() =~= sv.skip(j + 1));
        match find_missing(&subcommands[j].arguments, &subcommands[j].subcommands, invoked) {
            Some(argument) => {
                return Some(argument);
            },
            None => {},
        }
        j += 1;
    }
    None
}

impl<'a> CliMake<'a> {
    /// Parses `inputs`, the tokens of a command line without the name of the
    /// program, against this description.
    ///
    /// The parse fails, with no partial result, on the first token that does
    /// not resolve in the scope it is met in; and, once every token has
    /// resolved, on the first required argument of the description that was
    /// never invoked.
    ///
    /// A description is sound whenever it is parsed against, since nothing
    /// unsound can be attached to it: in each of its scopes a call belongs to
    /// one argument at most, so that no call is ever ambiguous.
    pub fn parse_custom(&'a self, inputs: Vec<String>) -> (r: Result<ParsedCli<'a>, ParseError<'a>>)
        ensures
            returns_scope(r, parse(self@, texts(inputs@))),
            self@.construction_error() is None,
    {
        let nothing: Vec<ParsedArgument<'a>> = Vec::new();
        assert(parsed_arguments_view(nothing@) =~= Seq::<ParsedArgumentView>::empty());
        let parsed = match parse_tokens(self.arguments(), self.subcommands(), &inputs, 0, nothing) {
            Ok(parsed) => parsed,
            Err(e) => {
                return Err(e);
            },
        };
        let mut invoked: Vec<&'a Argument<'a>> = Vec::new();
        collect_invoked(&parsed.arguments, &parsed.subcommands, &mut invoked);
        match find_missing(self.arguments(), self.subcommands(), &invoked) {
            Some(argument) => Err(ParseError::MissingRequiredArgument(argument)),
            None => Ok(parsed),
        }
    }
}

/// Against a description with no arguments and no subcommands, a first token
/// that is no call token is never passed over: the parse fails, and reports
/// that token as a subcommand that was not found.
pub proof fn lemma_unrecognized_leading_token(cli: CliMakeView, tokens: Seq<Seq<char>>)
    requires
        cli.arguments.len() == 0,
        cli.subcommands.len() == 0,
        tokens.len() > 0,
        !is_call(tokens[0]),
    ensures
        parse(cli, tokens) == Err::<ParsedCliView, ParseErrorView>(
            ParseErrorView::SubcommandNotFound(tokens[0]),
        ),
{
}

/// Against a description with no arguments, a first token that is a call
/// token fails the parse as an argument that was not found.
pub proof fn lemma_unrecognized_leading_call(cli: CliMakeView, tokens: Seq<Seq<char>>)
    requires
        cli.arguments.len() == 0,
        tokens.len() > 0,
        is_call(tokens[0]),
    ensures
        parse(cli, tokens) == Err::<ParsedCliView, ParseErrorView>(
            ParseErrorView::ArgNotFound(tokens[0]),
        ),
{
    let token = tokens[0];
    if !is_long_call(token) {
        assert(lookup(cli.arguments, CallView::short(token[1])) is None);
    }
}

/// Whether a part of a parse result is laid out as the description is:
/// every argument invoked is an argument of the scope and holds data of its
/// kind; at most one subcommand was entered; it is a subcommand of the
/// scope, and what was invoked inside it is laid out as that subcommand is.
pub open spec fn mirrors(
    invoked: Seq<ParsedArgumentView>,
    entered: Seq<ParsedSubcommandView>,
    arguments: Seq<ArgumentView>,
    subcommands: Seq<SubcommandView>,
) -> bool
    decreases entered,
{
    &&& forall|i: int|
        0 <= i < invoked.len() ==> arguments.contains((#[trigger] invoked[i]).inner) && fits(
            invoked[i].inner.input,
            invoked[i].data,
        )
    &&& entered.len() <= 1
    &&& forall|j: int|
        0 <= j < entered.len() ==> subcommands.contains((#[trigger] entered[j]).inner) && mirrors(
            entered[j].arguments,
            entered[j].subcommands,
            entered[j].inner.arguments,
            entered[j].inner.subcommands,
        )
}

/// What is looked up among arguments is one of them.
pub proof fn lemma_lookup_is_member(arguments: Seq<ArgumentView>, call: CallView)
    requires
        lookup(arguments, call) is Some,
    ensures
        arguments.contains(lookup(arguments, call).unwrap()),
        lookup(arguments, call).unwrap().calls.contains(call),
    decreases arguments.len(),
{
    if !arguments[0].calls.contains(call) {
        lemma_lookup_is_member(arguments.drop_first(), call);
        let found = lookup(arguments, call).unwrap();
        let at = choose|at: int|
            0 <= at < arguments.drop_first().len() && arguments.drop_first()[at] == found;
        assert(arguments[at + 1] == found);
    }
}

/// What is looked up among subcommands is one of them, of the name looked
/// up.
pub proof fn lemma_lookup_subcommand_is_member(subcommands: Seq<SubcommandView>, name: Seq<char>)
    requires
        lookup_subcommand(subcommands, name) is Some,
    ensures
        subcommands.contains(lookup_subcommand(subcommands, name).unwrap()),
        lookup_subcommand(subcommands, name).unwrap().name == name,
    decreases subcommands.len(),
{
    if subcommands[0].name != name {
        lemma_lookup_subcommand_is_member(subcommands.drop_first(), name);
        let found = lookup_subcommand(subcommands, name).unwrap();
        let at = choose|at: int|
            0 <= at < subcommands.drop_first().len() && subcommands.drop_first()[at] == found;
        assert(subcommands[at + 1] == found);
    }
}

/// Every argument that a call token calls is an argument of the scope.
pub proof fn lemma_resolve_gives_members(arguments: Seq<ArgumentView>, token: Seq<char>)
    ensures
        forall|i: int|
            0 <= i < resolve(arguments, token).len() ==> arguments.contains(
                #[trigger] resolve(arguments, token)[i],
            ),
{
    let found = resolve(arguments, token);
    assert forall|i: int| 0 <= i < found.len() implies arguments.contains(#[trigger] found[i]) by {
        if is_long_call(token) {
            lemma_lookup_is_member(arguments, CallView::Long(token.skip(2)));
        } else {
            assert(lookup(arguments, CallView::short(token[i + 1])) is Some);
            lemma_lookup_is_member(arguments, CallView::short(token[i + 1]));
        }
    }
}

/// A parse inside a scope that goes well gives a result that is laid out as
/// the scope is, if what was invoked before is.
pub proof fn lemma_parse_scope_mirrors(
    arguments: Seq<ArgumentView>,
    subcommands: Seq<SubcommandView>,
    tokens: Seq<Seq<char>>,
    pos: int,
    armed: Option<Armed>,
    done: Seq<ParsedArgumentView>,
)
    requires
        mirrors(done, Seq::empty(), arguments, subcommands),
        armed is Some ==> arguments.contains(armed.unwrap().argument),
        parse_scope(arguments, subcommands, tokens, pos, armed, done) is Ok,
    ensures
        ({
            let parsed = parse_scope(arguments, subcommands, tokens, pos, armed, done)->Ok_0;
            mirrors(parsed.arguments, parsed.subcommands, arguments, subcommands)
        }),
    decreases tokens.len() - pos,
{
    let flushed = flush(armed, done);
    assert(mirrors(flushed, Seq::empty(), arguments, subcommands));
    if 0 <= pos < tokens.len() {
        let token = tokens[pos];
        if is_call(token) {
            let found = resolve(arguments, token);
            lemma_resolve_gives_members(arguments, token);
            let opened = found.drop_last().map_values(|a: ArgumentView| emit(arm(a)));
            assert forall|i: int| 0 <= i < opened.len() implies arguments.contains(
                (#[trigger] opened[i]).inner,
            ) && fits(opened[i].inner.input, opened[i].data) by {
                assert(opened[i].inner == found[i]);
            }
            assert(mirrors(flushed + opened, Seq::empty(), arguments, subcommands));
            lemma_parse_scope_mirrors(
                arguments,
                subcommands,
                tokens,
                pos + 1,
                Some(arm(found.last())),
                flushed + opened,
            );
        } else if takes(armed, subcommands, token) {
            let a = armed.unwrap();
            match a.argument.input {
                Input::Paths => {
                    lemma_parse_scope_mirrors(
                        arguments,
                        subcommands,
                        tokens,
                        pos + 1,
                        Some(Armed { argument: a.argument, data: a.data.push(token) }),
                        done,
                    );
                },
                Input::Text | Input::Path => {
                    let next = done.push(emit(Armed { argument: a.argument, data: seq![token] }));
                    assert(mirrors(next, Seq::empty(), arguments, subcommands));
                    lemma_parse_scope_mirrors(arguments, subcommands, tokens, pos + 1, None, next);
                },
                Input::Nothing => {
                    let next = done.push(emit(a));
                    assert(mirrors(next, Seq::empty(), arguments, subcommands));
                    lemma_parse_scope_mirrors(arguments, subcommands, tokens, pos + 1, None, next);
                },
            }
        } else {
            lemma_lookup_subcommand_is_member(subcommands, token);
            let sub = lookup_subcommand(subcommands, token).unwrap();
            assert(mirrors(Seq::empty(), Seq::empty(), sub.arguments, sub.subcommands));
            lemma_parse_scope_mirrors(
                sub.arguments,
                sub.subcommands,
                tokens,
                pos + 1,
                None,
                Seq::empty(),
            );
        }
    }
}

/// A parse that goes well gives a result that is laid out as the
/// description is, and leaves no required argument of the description
/// uninvoked.
pub proof fn lemma_parse_mirrors(cli: CliMakeView, tokens: Seq<Seq<char>>)
    requires
        parse(cli, tokens) is Ok,
    ensures
        ({
            let parsed = parse(cli, tokens)->Ok_0;
            &&& mirrors(parsed.arguments, parsed.subcommands, cli.arguments, cli.subcommands)
            &&& missing(
                cli.arguments,
                cli.subcommands,
                invoked(parsed.arguments, parsed.subcommands),
            ) is None
        }),
{
    lemma_parse_scope_mirrors(cli.arguments, cli.subcommands, tokens, 0, None, Seq::empty());
}

} // verus!
