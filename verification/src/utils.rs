//! Writing text for a terminal: every line indented, and none longer than
//! the terminal is wide.

use vstd::prelude::*;
use vstd::utf8::encode_utf8;

verus! {

/// The indent that help lines get unless told otherwise.
pub const CLI_TABBING: &'static str = "  ";

/// The width, in bytes, of the terminal that text is laid out for.
pub const TERM_WIDTH: usize = 80;

/// The bytes of text that fit on a line beside an indent of `indent` bytes.
/// An indent as wide as the terminal or wider leaves room for one byte.
pub open spec fn line_room(indent: int) -> int {
    if indent < TERM_WIDTH {
        TERM_WIDTH - indent
    } else {
        1
    }
}

/// `bytes` cut into lines of at most `width` bytes, each led by `indent` and
/// ended by a newline. Lines are cut at bytes, not at characters. Nothing at
/// all is written for no bytes.
pub open spec fn wrapped(bytes: Seq<u8>, indent: Seq<u8>, width: int) -> Seq<u8>
    decreases bytes.len(),
{
    if bytes.len() == 0 || width <= 0 {
        Seq::empty()
    } else if bytes.len() <= width {
        indent + bytes + seq![10u8]
    } else {
        indent + bytes.take(width) + seq![10u8] + wrapped(bytes.skip(width), indent, width)
    }
}

/// The bytes that [`writeln_term`] writes for `text` with the indent
/// `tabbing`.
pub open spec fn term_lines(text: Seq<char>, tabbing: Seq<char>) -> Seq<u8> {
    wrapped(encode_utf8(text), encode_utf8(tabbing), line_room(encode_utf8(tabbing).len() as int))
}

/// Appends `bytes[from..to]` to `buf`.
fn push_bytes(buf: &mut Vec<u8>, bytes: &[u8], from: usize, to: usize)
    requires
        from <= to <= bytes@.len(),
    ensures
        final(buf)@ == old(buf)@ + bytes@.subrange(from as int, to as int),
{
    let mut i: usize = from;
    while i < to
        invariant
            from <= i <= to <= bytes@.len(),
            buf@ == old(buf)@ + bytes@.subrange(from as int, i as int),
        decreases to - i,
    {
        buf.push(bytes[i]);
        i += 1;
    }
}

/// Appends the UTF-8 encoding of `text` to `buf`, as it is.
pub(crate) fn push_text(buf: &mut Vec<u8>, text: &str)
    ensures
        final(buf)@ == old(buf)@ + encode_utf8(text@),
{
    let bytes = text.as_bytes();
    push_bytes(buf, bytes, 0, bytes.len());
}

/// The first line of what is left of `bytes` from `start` on, and the rest.
proof fn lemma_wrapped_step(bytes: Seq<u8>, indent: Seq<u8>, width: int, start: int, end: int)
    requires
        width > 0,
        0 <= start < bytes.len(),
        end == if bytes.len() - start <= width {
            bytes.len() as int
        } else {
            start + width
        },
    ensures
        wrapped(bytes.skip(start), indent, width) == indent + bytes.subrange(start, end) + seq![
            10u8,
        ] + wrapped(bytes.skip(end), indent, width),
{
    assert(bytes.skip(start).skip(end - start) =~= bytes.skip(end));
}

/// Writes `to_write` to `buf` for a terminal [`TERM_WIDTH`] bytes wide: cut
/// into lines that fit beside the indent, each led by `tabbing` and ended by
/// a newline.
pub fn writeln_term(to_write: &str, tabbing: &str, buf: &mut Vec<u8>)
    ensures
        final(buf)@ == old(buf)@ + term_lines(to_write@, tabbing@),
{
    let bytes = to_write.as_bytes();
    let indent = tabbing.as_bytes();
    let width: usize = if indent.len() < TERM_WIDTH {
        TERM_WIDTH - indent.len()
    } else {
        1
    };
    let ghost all = wrapped(bytes@, indent@, width as int);
    let ghost written = Seq::<u8>::empty();
    assert(bytes@.skip(0) =~= bytes@);
    let mut start: usize = 0;
    while start < bytes.len()
        invariant
            start <= bytes@.len(),
            width > 0,
            buf@ == old(buf)@ + written,
            all == written + wrapped(bytes@.skip(start as int), indent@, width as int),
        decreases bytes@.len() - start,
    {
        let end: usize = if bytes.len() - start <= width {
            bytes.len()
        } else {
            start + width
        };
        let ghost line = indent@ + bytes@.subrange(start as int, end as int) + seq![10u8];
        proof {
            lemma_wrapped_step(bytes@, indent@, width as int, start as int, end as int);
        }
        push_bytes(buf, indent, 0, indent.len());
        push_bytes(buf, bytes, start, end);
        buf.push(10u8);
        proof {
            written = written + line;
        }
        start = end;
    }
}

/// The text of the lines `out`: what is left when, of every line, the first
/// `indent` bytes and the newline at its end are taken away, for lines that
/// hold at most `width` bytes of text each.
pub open spec fn unwrapped(out: Seq<u8>, indent: int, width: int) -> Seq<u8>
    decreases out.len(),
{
    if indent < 0 || width <= 0 || out.len() <= indent + 1 {
        Seq::empty()
    } else if out.len() <= indent + width + 1 {
        out.subrange(indent, out.len() - 1)
    } else {
        out.subrange(indent, indent + width) + unwrapped(
            out.skip(indent + width + 1),
            indent,
            width,
        )
    }
}

/// Wrapping adds nothing to the text and takes nothing from it: with the
/// indents and newlines taken out again, the bytes are those that were
/// wrapped.
pub proof fn lemma_unwrapped_wrapped(bytes: Seq<u8>, indent: Seq<u8>, width: int)
    requires
        width > 0,
    ensures
        unwrapped(wrapped(bytes, indent, width), indent.len() as int, width) == bytes,
    decreases bytes.len(),
{
    if bytes.len() > width {
        let rest = wrapped(bytes.skip(width), indent, width);
        lemma_unwrapped_wrapped(bytes.skip(width), indent, width);
        assert(wrapped(bytes, indent, width).skip(indent.len() + width + 1) =~= rest);
    }
}

/// A text that fits on one line is written as it is, between the indent and
/// a newline.
pub proof fn lemma_short_line(text: Seq<char>, tabbing: Seq<char>)
    requires
        0 < encode_utf8(text).len() <= line_room(encode_utf8(tabbing).len() as int),
    ensures
        term_lines(text, tabbing) == encode_utf8(tabbing) + encode_utf8(text) + seq![10u8],
{
}

} // verus!
