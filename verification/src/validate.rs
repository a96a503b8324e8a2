//! What makes a description sound, and the checks that are made where
//! arguments and subcommands are attached: every argument can be called, and
//! no call means two arguments in one scope.

use vstd::prelude::*;

use crate::argument::{Argument, ArgumentView};
use crate::call_type::CallView;
use crate::cli_make::impl_parse::lookup;
use crate::error::ConstructionError;
use crate::subcommand::{arguments_view, subcommands_view, Subcommand, SubcommandView};

verus! {

/// Whether `argument` belongs to the description made of `arguments` and
/// `subcommands`: to the scope itself, or to a subcommand anywhere below.
pub open spec fn describes(
    arguments: Seq<ArgumentView>,
    subcommands: Seq<SubcommandView>,
    argument: ArgumentView,
) -> bool
    decreases subcommands,
{
    arguments.contains(argument) || exists|j: int|
        0 <= j < subcommands.len() && describes(
            #[trigger] subcommands[j].arguments,
            subcommands[j].subcommands,
            argument,
        )
}

/// Whether some argument of the description has no call.
pub open spec fn any_uncallable(arguments: Seq<ArgumentView>, subcommands: Seq<SubcommandView>)
    -> bool {
    exists|a: ArgumentView| #[trigger] describes(arguments, subcommands, a) && a.calls.len() == 0
}

/// Whether `a` and `b` have a call in common.
pub open spec fn share_call(a: ArgumentView, b: ArgumentView) -> bool {
    exists|call: CallView| #[trigger] a.calls.contains(call) && b.calls.contains(call)
}

/// Whether two of `arguments`, at different places, have a call in common.
pub open spec fn has_duplicate(arguments: Seq<ArgumentView>) -> bool {
    exists|i: int, j: int|
        0 <= i < j < arguments.len() && share_call(#[trigger] arguments[i], #[trigger] arguments[j])
}

/// Whether some scope of the description holds two arguments with a call in
/// common. A subcommand may use a call again that its parent or a sibling
/// uses.
pub open spec fn any_duplicate(arguments: Seq<ArgumentView>, subcommands: Seq<SubcommandView>)
    -> bool
    decreases subcommands,
{
    has_duplicate(arguments) || exists|j: int|
        0 <= j < subcommands.len() && any_duplicate(
            #[trigger] subcommands[j].arguments,
            subcommands[j].subcommands,
        )
}

/// The fault of a description, if it has one. An argument without calls
/// anywhere in it is reported before a shared call.
pub open spec fn construction_error(
    arguments: Seq<ArgumentView>,
    subcommands: Seq<SubcommandView>,
) -> Option<ConstructionError> {
    if any_uncallable(arguments, subcommands) {
        Some(ConstructionError::NoCalls)
    } else if any_duplicate(arguments, subcommands) {
        Some(ConstructionError::DuplicateCall)
    } else {
        None
    }
}

/// The fault of attaching `argument` to a scope that holds `arguments`: it
/// has no call, or it has a call in common with one of them.
pub open spec fn attach_error(arguments: Seq<ArgumentView>, argument: ArgumentView) -> Option<
    ConstructionError,
> {
    if argument.calls.len() == 0 {
        Some(ConstructionError::NoCalls)
    } else if exists|i: int|
        0 <= i < arguments.len() && share_call(#[trigger] arguments[i], argument) {
        Some(ConstructionError::DuplicateCall)
    } else {
        None
    }
}

/// What a check returns for the fault `fault`.
pub open spec fn verdict(fault: Option<ConstructionError>) -> Result<(), ConstructionError> {
    match fault {
        Some(e) => Err(e),
        None => Ok(()),
    }
}

/// Whether one of `arguments` has no call.
pub(crate) fn scope_uncallable(arguments: &Vec<&Argument>) -> (r: bool)
    ensures
        r == exists|i: int|
            0 <= i < arguments.len() && (#[trigger] arguments_view(arguments@)[i]).calls.len()
                == 0,
{
    let mut i: usize = 0;
    while i < arguments.len()
        invariant
            i <= arguments.len(),
            forall|k: int|
                0 <= k < i ==> (#[trigger] arguments_view(arguments@)[k]).calls.len() != 0,
        decreases arguments.len() - i,
    {
        if arguments[i].calls.len() == 0 {
            assert(arguments_view(arguments@)[i as int].calls.len() == 0);
            return true;
        }
        i += 1;
    }
    false
}

/// Whether some argument of the description has no call.
pub(crate) fn tree_uncallable(arguments: &Vec<&Argument>, subcommands: &Vec<&Subcommand>) -> (r: bool)
    ensures
        r == any_uncallable(arguments_view(arguments@), subcommands_view(subcommands@)),
    decreases subcommands,
{
    let ghost av = arguments_view(arguments@);
    let ghost sv = subcommands_view(subcommands@);
    if scope_uncallable(arguments) {
        proof {
            let i = choose|i: int| 0 <= i < arguments.len() && (#[trigger] av[i]).calls.len() == 0;
            assert(describes(av, sv, av[i]));
        }
        return true;
    }
    let mut j: usize = 0;
    while j < subcommands.len()
        invariant
            j <= subcommands.len(),
            av == arguments_view(arguments@),
            sv == subcommands_view(subcommands@),
            forall|i: int| 0 <= i < av.len() ==> (#[trigger] av[i]).calls.len() != 0,
            forall|k: int|
                0 <= k < j ==> !any_uncallable(#[trigger] sv[k].arguments, sv[k].subcommands),
        decreases subcommands.len() - j,
    {
        if tree_uncallable(&subcommands[j].arguments, &subcommands[j].subcommands) {
            proof {
                let a = choose|a: ArgumentView|
                    #[trigger] describes(sv[j as int].arguments, sv[j as int].subcommands, a)
                        && a.calls.len() == 0;
                assert(describes(av, sv, a));
            }
            return true;
        }
        j += 1;
    }
    assert(!any_uncallable(av, sv)) by {
        assert forall|a: ArgumentView| #[trigger] describes(av, sv, a) implies a.calls.len()
            != 0 by {
            if av.contains(a) {
                let i = choose|i: int| 0 <= i < av.len() && av[i] == a;
                assert(av[i].calls.len() != 0);
            } else {
                let k = choose|k: int|
                    0 <= k < sv.len() && describes(
                        #[trigger] sv[k].arguments,
                        sv[k].subcommands,
                        a,
                    );
                assert(!any_uncallable(sv[k].arguments, sv[k].subcommands));
            }
        }
    }
    false
}

/// Whether `argument` has `call` among its calls.
fn has_call(argument: &Argument, call: &crate::call_type::CallType) -> (r: bool)
    ensures
        r == argument@.calls.contains(call@),
{
    let mut i: usize = 0;
    while i < argument.calls.len()
        invariant
            i <= argument.calls.len(),
            forall|k: int| 0 <= k < i ==> argument@.calls[k] != call@,
        decreases argument.calls.len() - i,
    {
        if argument.calls[i].eq(call) {
            assert(argument@.calls[i as int] == call@);
            return true;
        }
        i += 1;
    }
    false
}

/// Whether `a` and `b` have a call in common.
pub(crate) fn shares_call(a: &Argument, b: &Argument) -> (r: bool)
    ensures
        r == share_call(a@, b@),
{
    let mut i: usize = 0;
    while i < a.calls.len()
        invariant
            i <= a.calls.len(),
            forall|k: int| 0 <= k < i ==> !b@.calls.contains(#[trigger] a@.calls[k]),
        decreases a.calls.len() - i,
    {
        if has_call(b, &a.calls[i]) {
            assert(a@.calls.contains(a@.calls[i as int]));
            return true;
        }
        i += 1;
    }
    assert(!share_call(a@, b@)) by {
        assert forall|call: CallView| #[trigger] a@.calls.contains(call) implies !b@.calls.contains(
            call,
        ) by {
            let k = choose|k: int| 0 <= k < a@.calls.len() && a@.calls[k] == call;
            assert(!b@.calls.contains(a@.calls[k]));
        }
    }
    false
}

/// Whether two of `arguments`, at different places, have a call in common.
pub(crate) fn scope_duplicate(arguments: &Vec<&Argument>) -> (r: bool)
    ensures
        r == has_duplicate(arguments_view(arguments@)),
{
    let ghost av = arguments_view(arguments@);
    let mut j: usize = 0;
    while j < arguments.len()
        invariant
            j <= arguments.len(),
            av == arguments_view(arguments@),
            forall|i: int, k: int|
                0 <= i < k < j ==> !share_call(#[trigger] av[i], #[trigger] av[k]),
        decreases arguments.len() - j,
    {
        let mut i: usize = 0;
        while i < j
            invariant
                i <= j < arguments.len(),
                av == arguments_view(arguments@),
                forall|h: int| 0 <= h < i ==> !share_call(#[trigger] av[h], av[j as int]),
            decreases j - i,
        {
            if shares_call(arguments[i], arguments[j]) {
                assert(share_call(av[i as int], av[j as int]));
                return true;
            }
            i += 1;
        }
        j += 1;
    }
    false
}

/// Whether some scope of the description holds two arguments with a call in
/// common.
pub(crate) fn tree_duplicate(arguments: &Vec<&Argument>, subcommands: &Vec<&Subcommand>) -> (r: bool)
    ensures
        r == any_duplicate(arguments_view(arguments@), subcommands_view(subcommands@)),
    decreases subcommands,
{
    let ghost sv = subcommands_view(subcommands@);
    if scope_duplicate(arguments) {
        return true;
    }
    let mut j: usize = 0;
    while j < subcommands.len()
        invariant
            j <= subcommands.len(),
            sv == subcommands_view(subcommands@),
            !has_duplicate(arguments_view(arguments@)),
            forall|k: int|
                0 <= k < j ==> !any_duplicate(#[trigger] sv[k].arguments, sv[k].subcommands),
        decreases subcommands.len() - j,
    {
        if tree_duplicate(&subcommands[j].arguments, &subcommands[j].subcommands) {
            assert(any_duplicate(sv[j as int].arguments, sv[j as int].subcommands));
            return true;
        }
        j += 1;
    }
    false
}

/// Checks the description made of `arguments` and `subcommands`.
pub(crate) fn validate_tree(arguments: &Vec<&Argument>, subcommands: &Vec<&Subcommand>) -> (r: Result<
    (),
    ConstructionError,
>)
    ensures
        r == verdict(
            construction_error(arguments_view(arguments@), subcommands_view(subcommands@)),
        ),
{
    if tree_uncallable(arguments, subcommands) {
        Err(ConstructionError::NoCalls)
    } else if tree_duplicate(arguments, subcommands) {
        Err(ConstructionError::DuplicateCall)
    } else {
        Ok(())
    }
}

impl<'a> Argument<'a> {
    /// Checks that this argument can be called at all, as is done where it
    /// is attached.
    pub fn validate(&self) -> (r: Result<(), ConstructionError>)
        ensures
            self@.calls.len() > 0 ==> r == Ok::<(), ConstructionError>(()),
            self@.calls.len() == 0 ==> r == Err::<(), ConstructionError>(
                ConstructionError::NoCalls,
            ),
    {
        if self.calls.len() > 0 {
            Ok(())
        } else {
            Err(ConstructionError::NoCalls)
        }
    }
}

impl<'a> Subcommand<'a> {
    /// Checks what this subcommand describes: every argument in it or below
    /// it has a call, and no scope in it holds two arguments with a call in
    /// common.
    pub fn validate(&self) -> (r: Result<(), ConstructionError>)
        ensures
            r == verdict(construction_error(self@.arguments, self@.subcommands)),
    {
        validate_tree(&self.arguments, &self.subcommands)
    }
}

/// A description is never faulted for want of calls while each argument in
/// it has at least one call, and always is while some argument in it has
/// none.
pub proof fn lemma_no_calls(arguments: Seq<ArgumentView>, subcommands: Seq<SubcommandView>)
    ensures
        (forall|a: ArgumentView| #[trigger]
            describes(arguments, subcommands, a) ==> a.calls.len() >= 1) ==> construction_error(
            arguments,
            subcommands,
        ) != Some(ConstructionError::NoCalls),
        (exists|a: ArgumentView| #[trigger]
            describes(arguments, subcommands, a) && a.calls.len() == 0) ==> construction_error(
            arguments,
            subcommands,
        ) == Some(ConstructionError::NoCalls),
{
}

/// A description passes the check exactly when every argument in it has a
/// call and no scope in it holds two arguments with a call in common.
pub proof fn lemma_sound_description(arguments: Seq<ArgumentView>, subcommands: Seq<SubcommandView>)
    ensures
        verdict(construction_error(arguments, subcommands)) is Ok <==> {
            &&& forall|a: ArgumentView| #[trigger]
                describes(arguments, subcommands, a) ==> a.calls.len() >= 1
            &&& !any_duplicate(arguments, subcommands)
        },
{
}

/// In a scope where no two arguments have a call in common, a call is never
/// ambiguous: the argument that has it is the one that a parse finds.
pub proof fn lemma_lookup_is_unambiguous(arguments: Seq<ArgumentView>, call: CallView, i: int)
    requires
        !has_duplicate(arguments),
        0 <= i < arguments.len(),
        arguments[i].calls.contains(call),
    ensures
        lookup(arguments, call) == Some(arguments[i]),
    decreases arguments.len(),
{
    if i > 0 {
        assert(!arguments[0].calls.contains(call)) by {
            if arguments[0].calls.contains(call) {
                assert(share_call(arguments[0], arguments[i]));
            }
        }
        let rest = arguments.drop_first();
        assert(!has_duplicate(rest)) by {
            if has_duplicate(rest) {
                let (h, k) = choose|h: int, k: int|
                    0 <= h < k < rest.len() && share_call(#[trigger] rest[h], #[trigger] rest[k]);
                assert(share_call(arguments[h + 1], arguments[k + 1]));
            }
        }
        lemma_lookup_is_unambiguous(rest, call, i - 1);
    }
}

/// An argument without calls in the top scope of a description is a fault of
/// the description, and is the fault reported.
pub proof fn lemma_uncallable_in_scope(arguments: Seq<ArgumentView>, subcommands: Seq<SubcommandView>)
    ensures
        forall|i: int|
            0 <= i < arguments.len() && (#[trigger] arguments[i]).calls.len() == 0
                ==> construction_error(arguments, subcommands) == Some(ConstructionError::NoCalls),
{
    assert forall|i: int|
        0 <= i < arguments.len() && (#[trigger] arguments[i]).calls.len() == 0 implies any_uncallable(
        arguments,
        subcommands,
    ) by {
        assert(arguments.contains(arguments[i]));
        assert(describes(arguments, subcommands, arguments[i]));
    }
}

/// A sound description stays sound when an argument is attached to its top
/// scope that has a call and shares none with the arguments there.
pub proof fn lemma_attach_argument(
    arguments: Seq<ArgumentView>,
    subcommands: Seq<SubcommandView>,
    argument: ArgumentView,
)
    requires
        construction_error(arguments, subcommands) is None,
        attach_error(arguments, argument) is None,
    ensures
        construction_error(arguments.push(argument), subcommands) is None,
{
    let more = arguments.push(argument);
    assert forall|a: ArgumentView| #[trigger] describes(more, subcommands, a) implies a.calls.len()
        != 0 by {
        if more.contains(a) {
            let i = choose|i: int| 0 <= i < more.len() && more[i] == a;
            if i < arguments.len() {
                assert(arguments[i] == a);
                assert(describes(arguments, subcommands, a));
            }
        } else {
            assert(describes(arguments, subcommands, a));
        }
    }
    if has_duplicate(more) {
        let (i, j) = choose|i: int, j: int|
            0 <= i < j < more.len() && share_call(#[trigger] more[i], #[trigger] more[j]);
        if j < arguments.len() {
            assert(share_call(arguments[i], arguments[j]));
        } else {
            assert(share_call(arguments[i], argument));
        }
    }
}

/// A sound description stays sound when a sound subcommand is attached to
/// its top scope.
pub proof fn lemma_attach_subcommand(
    arguments: Seq<ArgumentView>,
    subcommands: Seq<SubcommandView>,
    subcommand: SubcommandView,
)
    requires
        construction_error(arguments, subcommands) is None,
        construction_error(subcommand.arguments, subcommand.subcommands) is None,
    ensures
        construction_error(arguments, subcommands.push(subcommand)) is None,
{
    let more = subcommands.push(subcommand);
    assert forall|a: ArgumentView| #[trigger] describes(arguments, more, a) implies a.calls.len()
        != 0 by {
        if !arguments.contains(a) {
            let j = choose|j: int|
                0 <= j < more.len() && describes(#[trigger] more[j].arguments, more[j].subcommands, a);
            if j < subcommands.len() {
                assert(describes(subcommands[j].arguments, subcommands[j].subcommands, a));
                assert(describes(arguments, subcommands, a));
            } else {
                assert(describes(subcommand.arguments, subcommand.subcommands, a));
            }
        } else {
            assert(describes(arguments, subcommands, a));
        }
    }
    if any_duplicate(arguments, more) {
        let j = choose|j: int|
            0 <= j < more.len() && any_duplicate(#[trigger] more[j].arguments, more[j].subcommands);
        if j < subcommands.len() {
            assert(any_duplicate(subcommands[j].arguments, subcommands[j].subcommands));
        }
    }
}

} // verus!
