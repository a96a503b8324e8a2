//! Tests for taking a parse result apart.

use climake::io::{Data, Input};
use climake::parsed::{ParsedArgument, ParsedCli, ParsedSubcommand};
use climake::{Argument, Subcommand};

/// A parsed argument gives its argument and its data.
#[test]
fn parsed_argument_conversions() {
    let a = Argument::new(None, vec!['a'], vec![], Input::Text);
    let parsed = ParsedArgument {
        inner: &a,
        data: Data::Text("x".to_string()),
    };
    let argument: &Argument = parsed.clone().into();
    assert_eq!(argument, &a);
    let data: Data = parsed.into();
    assert_eq!(data, Data::Text("x".to_string()));
}

/// A parsed subcommand gives its subcommand, and what was invoked inside it.
#[test]
fn parsed_subcommand_conversions() {
    let a = Argument::new(None, vec!['a'], vec![], Input::Nothing);
    let inner = Subcommand::new("inner", vec![], vec![], None).unwrap();
    let outer = Subcommand::new("outer", vec![&a], vec![&inner], None).unwrap();
    let make = || ParsedSubcommand {
        inner: &outer,
        subcommands: vec![ParsedSubcommand::new_empty(&inner)],
        arguments: vec![ParsedArgument {
            inner: &a,
            data: Data::Nothing,
        }],
    };
    let subcommand: &Subcommand = make().into();
    assert_eq!(subcommand, &outer);
    let below: Vec<ParsedSubcommand> = make().into();
    assert_eq!(below, vec![ParsedSubcommand::new_empty(&inner)]);
    let arguments: Vec<ParsedArgument> = make().into();
    assert_eq!(
        arguments,
        vec![ParsedArgument {
            inner: &a,
            data: Data::Nothing
        }]
    );
}

/// The top of a parse result gives what was invoked at the top.
#[test]
fn parsed_cli_conversions() {
    let a = Argument::new(None, vec!['a'], vec![], Input::Nothing);
    let sub = Subcommand::new("sub", vec![], vec![], None).unwrap();
    let make = || ParsedCli {
        subcommands: vec![ParsedSubcommand::new_empty(&sub)],
        arguments: vec![ParsedArgument {
            inner: &a,
            data: Data::Nothing,
        }],
    };
    let below: Vec<ParsedSubcommand> = make().into();
    assert_eq!(below.len(), 1);
    assert_eq!(below[0].inner, &sub);
    let arguments: Vec<ParsedArgument> = make().into();
    assert_eq!(arguments.len(), 1);
    assert_eq!(arguments[0].inner, &a);
}

/// An entered subcommand starts out empty.
#[test]
fn parsed_subcommand_new_empty() {
    let sub = Subcommand::new("sub", vec![], vec![], None).unwrap();
    let parsed = ParsedSubcommand::new_empty(&sub);
    assert_eq!(parsed.inner, &sub);
    assert!(parsed.arguments.is_empty());
    assert!(parsed.subcommands.is_empty());
}
