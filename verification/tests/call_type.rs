//! Tests for the spellings of calls.

use climake::CallType;

/// Checks that the `From<CallType>` implementation for `String` works correctly
#[test]
fn call_type_string_from_calltype() {
    assert_eq!(String::from(CallType::Short('h')), "h".to_string());
    assert_eq!(
        String::from(CallType::Long("testing".to_string())),
        "testing".to_string()
    );
}

/// Checks that the `From<CallType>` implementation for `String` works correctly
#[test]
fn argument_string_from_calltype() {
    assert_eq!(String::from(CallType::Short('h')), "h".to_string());
    assert_eq!(
        String::from(CallType::Long("testing".to_string())),
        "testing".to_string()
    );
}

/// Checks that the `From<CallType>` implementation for `String` works correctly
#[test]
fn lib_string_from_calltype() {
    assert_eq!(String::from(CallType::Short('h')), "h".to_string());
    assert_eq!(
        String::from(CallType::Long("testing".to_string())),
        "testing".to_string()
    );
}

/// A call is made from a character or from a string.
#[test]
fn calltype_from_char_and_string() {
    assert_eq!(CallType::from('x'), CallType::Short('x'));
    assert_eq!(
        CallType::from("verbose".to_string()),
        CallType::Long("verbose".to_string())
    );
}

/// A call is spelled with one hyphen when short and with two when long.
#[test]
fn calltype_spelling() {
    assert_eq!(CallType::Short('x').spelling(), "-x".to_string());
    assert_eq!(
        CallType::Long("xyz".to_string()).spelling(),
        "--xyz".to_string()
    );
}

/// Calls are equal when of the same kind and text, and clones are equal.
#[test]
fn calltype_equality() {
    assert_eq!(CallType::Short('a'), CallType::Short('a'));
    assert_ne!(CallType::Short('a'), CallType::Short('b'));
    assert_ne!(CallType::Short('a'), CallType::Long("a".to_string()));
    assert_ne!(
        CallType::Long("ab".to_string()),
        CallType::Long("abc".to_string())
    );
    let call = CallType::Long("long".to_string());
    assert_eq!(call.clone(), call);
}
