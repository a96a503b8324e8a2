//! Tests for the layout of text for a terminal.

use climake::utils::writeln_term;

fn laid_out(text: &str, tabbing: &str) -> String {
    let mut buf: Vec<u8> = vec![];
    writeln_term(text, tabbing, &mut buf);
    String::from_utf8_lossy(&buf).into_owned()
}

/// A short line is indented and ended.
#[test]
fn writeln_term_short_line() {
    assert_eq!(laid_out("hello", "  "), "  hello\n");
}

/// Nothing is written for no text, not even the indent.
#[test]
fn writeln_term_empty_text() {
    assert_eq!(laid_out("", "  "), "");
}

/// 78 bytes fit beside two of indent; the 79th starts a new line.
#[test]
fn writeln_term_cuts_at_the_width() {
    let exact = "a".repeat(78);
    assert_eq!(laid_out(&exact, "  "), format!("  {}\n", exact));
    let over = "a".repeat(79);
    assert_eq!(laid_out(&over, "  "), format!("  {}\n  a\n", exact));
    let twice = "b".repeat(156);
    assert_eq!(
        laid_out(&twice, "  "),
        format!("  {}\n  {}\n", "b".repeat(78), "b".repeat(78))
    );
    let more = "c".repeat(157);
    assert_eq!(
        laid_out(&more, "  "),
        format!("  {}\n  {}\n  c\n", "c".repeat(78), "c".repeat(78))
    );
}

/// With no indent a line holds 80 bytes.
#[test]
fn writeln_term_without_indent() {
    let text = "d".repeat(81);
    assert_eq!(laid_out(&text, ""), format!("{}\nd\n", "d".repeat(80)));
}

/// Lines are cut at bytes: a character of several bytes may be split.
#[test]
fn writeln_term_cuts_inside_a_character() {
    // 77 bytes of ASCII, then a dash of three bytes: one byte of it is left over
    let text = format!("{}—", "e".repeat(77));
    let mut buf: Vec<u8> = vec![];
    writeln_term(&text, "  ", &mut buf);
    let dash = "—".as_bytes();
    let mut expected: Vec<u8> = vec![];
    expected.extend_from_slice(b"  ");
    expected.extend_from_slice("e".repeat(77).as_bytes());
    expected.push(dash[0]);
    expected.extend_from_slice(b"\n  ");
    expected.extend_from_slice(&dash[1..]);
    expected.push(b'\n');
    assert_eq!(buf, expected);
}

/// An indent as wide as the terminal leaves one byte of text to the line.
#[test]
fn writeln_term_wide_indent() {
    let indent = " ".repeat(80);
    assert_eq!(
        laid_out("abc", &indent),
        format!("{0}a\n{0}b\n{0}c\n", indent)
    );
    let wider = " ".repeat(100);
    assert_eq!(laid_out("ab", &wider), format!("{0}a\n{0}b\n", wider));
    let nearly = " ".repeat(79);
    assert_eq!(laid_out("ab", &nearly), format!("{0}a\n{0}b\n", nearly));
    let two_left = " ".repeat(78);
    assert_eq!(laid_out("abc", &two_left), format!("{0}ab\n{0}c\n", two_left));
}
