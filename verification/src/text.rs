//! Plumbing for `str` and `String` values.
//!
//! The view of a string is its sequence of `char`s. The executable helpers
//! here let the rest of the crate stay at that level.

use vstd::prelude::*;
use vstd::utf8::{encode_scalar, encode_utf8};

verus! {

/// What help shows where no help was given.
pub const HELP_DEFAULT: &'static str = "No help provided";

/// `String::push` appends exactly one `char` to the end of the string.
pub assume_specification[ String::push ](s: &mut String, c: char)
    ensures
        final(s)@ == old(s)@.push(c),
;

/// `str` equality holds exactly when both slices spell the same characters.
pub assume_specification[ <str as PartialEq>::eq ](a: &str, b: &str) -> (r: bool)
    ensures
        r == (a@ == b@),
;

/// The view of an optional string slice.
pub open spec fn opt_text(text: Option<&str>) -> Option<Seq<char>> {
    match text {
        Some(t) => Some(t@),
        None => None,
    }
}

/// The characters of `s`, in order, for constant-time indexing.
pub(crate) fn chars_of(s: &str) -> (v: Vec<char>)
    ensures
        v@ == s@,
{
    let mut v: Vec<char> = Vec::new();
    for c in it: s.chars()
        invariant
            v@ == it.seq().take(it.index()),
    {
        v.push(c);
    }
    v
}

/// Whether `text`, seen as a string, spells exactly `v[from..]`.
pub(crate) fn chars_match(v: &Vec<char>, from: usize, text: &str) -> (r: bool)
    requires
        from <= v.len(),
    ensures
        r == (v@.skip(from as int) == text@),
{
    let other = chars_of(text);
    if other.len() != v.len() - from {
        return false;
    }
    let mut i: usize = 0;
    while i < other.len()
        invariant
            from <= v.len(),
            other.len() == v.len() - from,
            other@ == text@,
            i <= other.len(),
            forall|k: int| 0 <= k < i ==> v@[from + k] == other@[k],
        decreases other.len() - i,
    {
        if v[from + i] != other[i] {
            return false;
        }
        i += 1;
    }
    assert(v@.skip(from as int) =~= text@);
    true
}

/// The help given, or [`HELP_DEFAULT`] where none was.
pub open spec fn help_or_default(help: Option<Seq<char>>) -> Seq<char> {
    match help {
        Some(h) => h,
        None => HELP_DEFAULT@,
    }
}

/// The views of a sequence of strings.
pub open spec fn texts(strings: Seq<String>) -> Seq<Seq<char>> {
    strings.map_values(|s: String| s@)
}

/// `items` in order, with `separator` between each two.
pub open spec fn joined(items: Seq<Seq<char>>, separator: Seq<char>) -> Seq<char>
    decreases items.len(),
{
    if items.len() == 0 {
        Seq::empty()
    } else if items.len() == 1 {
        items[0]
    } else {
        joined(items.drop_last(), separator) + separator + items.last()
    }
}

/// Joins `items` with `separator` between each two.
pub(crate) fn join(items: &Vec<String>, separator: &str) -> (s: String)
    ensures
        s@ == joined(texts(items@), separator@),
{
    let ghost all = texts(items@);
    let mut s = String::new();
    let mut i: usize = 0;
    while i < items.len()
        invariant
            i <= items.len(),
            all == texts(items@),
            s@ == joined(all.take(i as int), separator@),
        decreases items.len() - i,
    {
        assert(all.take(i + 1).drop_last() =~= all.take(i as int));
        if i > 0 {
            s.append(separator);
        }
        s.append(items[i].as_str());
        i += 1;
    }
    assert(all.take(i as int) =~= all);
    s
}

/// Whether `needle` stands in `hay` as it is, in one piece.
pub open spec fn occurs_in<T>(needle: Seq<T>, hay: Seq<T>) -> bool {
    exists|at: int| #[trigger] occurs_at(needle, hay, at)
}

/// Whether `needle` stands in `hay` from the place `at` on.
pub open spec fn occurs_at<T>(needle: Seq<T>, hay: Seq<T>, at: int) -> bool {
    0 <= at && at + needle.len() <= hay.len() && hay.subrange(at, at + needle.len()) == needle
}

/// A piece stands in whatever is put around it.
pub proof fn lemma_occurs_between<T>(before: Seq<T>, needle: Seq<T>, after: Seq<T>)
    ensures
        occurs_in(needle, before + needle + after),
{
    let hay = before + needle + after;
    assert(hay.subrange(before.len() as int, (before.len() + needle.len()) as int) =~= needle);
    assert(occurs_at(needle, hay, before.len() as int));
}

/// What stands in a piece stands in whatever is put around that piece.
pub proof fn lemma_occurs_inside<T>(needle: Seq<T>, piece: Seq<T>, before: Seq<T>, after: Seq<T>)
    requires
        occurs_in(needle, piece),
    ensures
        occurs_in(needle, before + piece + after),
{
    let at = choose|at: int| #[trigger] occurs_at(needle, piece, at);
    let hay = before + piece + after;
    assert(hay.subrange(before.len() + at, before.len() + at + needle.len()) =~= piece.subrange(
        at,
        at + needle.len(),
    ));
    assert(occurs_at(needle, hay, before.len() + at));
}

/// What stands in a piece of a text stands in the text.
pub proof fn lemma_occurs_within<T>(needle: Seq<T>, piece: Seq<T>, hay: Seq<T>)
    requires
        occurs_in(needle, piece),
        occurs_in(piece, hay),
    ensures
        occurs_in(needle, hay),
{
    let at = choose|at: int| #[trigger] occurs_at(piece, hay, at);
    let before = hay.subrange(0, at);
    let after = hay.subrange(at + piece.len(), hay.len() as int);
    assert(hay =~= before + piece + after);
    lemma_occurs_inside(needle, piece, before, after);
}

/// The encoding of two texts put together is their encodings put together.
pub proof fn lemma_encode_concat(a: Seq<char>, b: Seq<char>)
    ensures
        encode_utf8(a + b) == encode_utf8(a) + encode_utf8(b),
    decreases a.len(),
{
    if a.len() == 0 {
        assert(a + b =~= b);
    } else {
        assert((a + b).drop_first() =~= a.drop_first() + b);
        lemma_encode_concat(a.drop_first(), b);
    }
}

/// A text that is not empty has an encoding that is not empty.
pub proof fn lemma_encode_not_empty(text: Seq<char>)
    requires
        text.len() > 0,
    ensures
        encode_utf8(text).len() > 0,
{
    assert(encode_scalar(text[0] as u32).len() > 0);
}

/// A text that stands in another does so in the encoding too.
pub proof fn lemma_encode_occurs(needle: Seq<char>, hay: Seq<char>)
    requires
        occurs_in(needle, hay),
    ensures
        occurs_in(encode_utf8(needle), encode_utf8(hay)),
{
    let at = choose|at: int| #[trigger] occurs_at(needle, hay, at);
    let before = hay.subrange(0, at);
    let after = hay.subrange(at + needle.len(), hay.len() as int);
    assert(hay =~= before + needle + after);
    lemma_encode_concat(before + needle, after);
    lemma_encode_concat(before, needle);
    lemma_occurs_between(encode_utf8(before), encode_utf8(needle), encode_utf8(after));
}

/// Every item stands in the items joined.
pub proof fn lemma_joined_shows_item(items: Seq<Seq<char>>, separator: Seq<char>, i: int)
    requires
        0 <= i < items.len(),
    ensures
        occurs_in(items[i], joined(items, separator)),
    decreases items.len(),
{
    let empty = Seq::<char>::empty();
    if items.len() == 1 {
        lemma_occurs_between(empty, items[0], empty);
    } else if i == items.len() - 1 {
        let front = joined(items.drop_last(), separator) + separator;
        lemma_occurs_between(front, items[i], empty);
    } else {
        lemma_joined_shows_item(items.drop_last(), separator, i);
        let piece = joined(items.drop_last(), separator);
        assert(empty + piece + (separator + items.last()) =~= joined(items, separator));
        lemma_occurs_inside(items[i], piece, empty, separator + items.last());
    }
}

} // verus!
