//! Tests for the checks of arguments and subcommands.

use climake::error::ConstructionError;
use climake::io::Input;
use climake::{Argument, Subcommand};

/// An argument with a call passes the check, one without fails it.
#[test]
fn validate_argument() {
    assert_eq!(
        Argument::new(None, vec![], vec![], Input::Nothing).validate(),
        Err(ConstructionError::NoCalls)
    );
    assert_eq!(
        Argument::new(None, vec!['a'], vec![], Input::Nothing).validate(),
        Ok(())
    );
    assert_eq!(
        Argument::new(None, vec![], vec!["long"], Input::Nothing).validate(),
        Ok(())
    );
    let mut later = Argument::new(None, vec![], vec![], Input::Nothing);
    later.add_lcall("later");
    assert_eq!(later.validate(), Ok(()));
}

/// A subcommand cannot be made with an argument without calls in it or
/// below it.
#[test]
fn validate_reports_no_calls() {
    let none = Argument::new(
        Some("This should return NoCalls once added to cli"),
        vec![],
        vec![],
        Input::Nothing,
    );
    let fine = Argument::new(None, vec!['f'], vec![], Input::Nothing);
    assert_eq!(
        Subcommand::new("deep", vec![&fine, &none], vec![], None).err(),
        Some(ConstructionError::NoCalls)
    );
    // what is put into a subcommand behind its back is found by the check
    let mut deep = Subcommand::new("deep", vec![], vec![], None).unwrap();
    assert_eq!(deep.validate(), Ok(()));
    deep.arguments.push(&none);
    assert_eq!(deep.validate(), Err(ConstructionError::NoCalls));
    assert_eq!(
        Subcommand::new("outer", vec![&fine], vec![&deep], None).err(),
        Some(ConstructionError::NoCalls)
    );
}

/// A subcommand cannot be made with two arguments of one scope that share a
/// call.
#[test]
fn validate_reports_duplicate_calls() {
    let org_arg = Argument::new(None, vec!['d'], vec!["dupecall"], Input::Nothing);
    assert_eq!(
        Subcommand::new("sub", vec![&org_arg, &org_arg], vec![], None).err(),
        Some(ConstructionError::DuplicateCall)
    );
    let short = Argument::new(None, vec!['x', 'd'], vec![], Input::Nothing);
    assert_eq!(
        Subcommand::new("sub", vec![&short, &org_arg], vec![], None).err(),
        Some(ConstructionError::DuplicateCall)
    );
    let long = Argument::new(None, vec!['y'], vec!["other", "dupecall"], Input::Nothing);
    let third = Argument::new(None, vec!['z'], vec![], Input::Nothing);
    assert_eq!(
        Subcommand::new("sub", vec![&third, &long, &org_arg], vec![], None).err(),
        Some(ConstructionError::DuplicateCall)
    );
    let mut inner = Subcommand::new("inner", vec![&long, &third], vec![], None).unwrap();
    inner.arguments.push(&org_arg);
    assert_eq!(inner.validate(), Err(ConstructionError::DuplicateCall));
    assert_eq!(
        Subcommand::new("outer", vec![], vec![&inner], None).err(),
        Some(ConstructionError::DuplicateCall)
    );
}

/// A subcommand may use the calls of its parent and of its siblings.
#[test]
fn validate_scopes_are_separate() {
    let a = Argument::new(None, vec!['a'], vec!["all"], Input::Nothing);
    let one = Subcommand::new("one", vec![&a], vec![], None).unwrap();
    let two = Subcommand::new("two", vec![&a], vec![&one], None).unwrap();
    let top = Subcommand::new("top", vec![&a], vec![&one, &two], None).unwrap();
    assert_eq!(top.validate(), Ok(()));
    // a short call and a long call of the same letter are different calls
    let short = Argument::new(None, vec!['v'], vec![], Input::Nothing);
    let long = Argument::new(None, vec![], vec!["v"], Input::Nothing);
    assert!(Subcommand::new("sub", vec![&short, &long], vec![], None).is_ok());
}

/// An argument without calls is reported before a shared call, wherever the
/// two are.
#[test]
fn validate_no_calls_comes_first() {
    let none = Argument::new(None, vec![], vec![], Input::Nothing);
    let dupe = Argument::new(None, vec!['d'], vec![], Input::Nothing);
    let mut deep = Subcommand::new("deep", vec![], vec![], None).unwrap();
    deep.arguments.push(&none);
    assert_eq!(
        Subcommand::new("top", vec![&dupe, &dupe], vec![&deep], None).err(),
        Some(ConstructionError::NoCalls)
    );
}
