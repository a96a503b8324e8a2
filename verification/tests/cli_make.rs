//! Tests for assembling a description.

use climake::error::ConstructionError;
use climake::io::Input;
use climake::{Argument, CliMake, Subcommand};

/// Checks that the `CliMake::add_arg` method works correctly: an argument
/// without calls is not attached
#[test]
fn impl_basic_cli_add_arg() {
    let mut cli = CliMake::new("example", vec![], vec![], Some("Add arg check"), None).unwrap();
    let arg = Argument::new(Some("arg help"), vec![], vec![], Input::Nothing);

    assert_eq!(cli.add_arg(&arg).err(), Some(ConstructionError::NoCalls));
    assert_eq!(cli.add_arg(&arg).err(), Some(ConstructionError::NoCalls));

    assert_eq!(cli.arguments(), &Vec::<&Argument>::new())
}

/// Checks that the `CliMake::add_arg` method works correctly: an argument
/// without calls is not attached
#[test]
fn lib_cli_add_arg() {
    let mut cli = CliMake::new("example", vec![], vec![], Some("Add arg check"), None).unwrap();
    let arg = Argument::new(Some("arg help"), vec![], vec![], Input::Nothing);

    assert_eq!(cli.add_arg(&arg).err(), Some(ConstructionError::NoCalls));
    assert_eq!(cli.add_arg(&arg).err(), Some(ConstructionError::NoCalls));

    assert_eq!(cli.arguments(), &Vec::<&Argument>::new())
}

/// Checks that the `CliMake::add_args` method works correctly: arguments
/// without calls are not attached
#[test]
fn impl_basic_cli_add_args() {
    let mut cli = CliMake::new("example", vec![], vec![], Some("Add arg check"), None).unwrap();
    let arg = Argument::new(Some("arg help"), vec![], vec![], Input::Nothing);

    assert_eq!(cli.add_args(vec![&arg, &arg]).err(), Some(ConstructionError::NoCalls));
    assert_eq!(cli.add_args(vec![&arg, &arg]).err(), Some(ConstructionError::NoCalls));

    assert_eq!(cli.arguments(), &Vec::<&Argument>::new())
}

/// Checks that the `CliMake::add_args` method works correctly: arguments
/// without calls are not attached
#[test]
fn lib_cli_add_args() {
    let mut cli = CliMake::new("example", vec![], vec![], Some("Add arg check"), None).unwrap();
    let arg = Argument::new(Some("arg help"), vec![], vec![], Input::Nothing);

    assert_eq!(cli.add_args(vec![&arg, &arg]).err(), Some(ConstructionError::NoCalls));
    assert_eq!(cli.add_args(vec![&arg, &arg]).err(), Some(ConstructionError::NoCalls));

    assert_eq!(cli.arguments(), &Vec::<&Argument>::new())
}

/// Checks that the `CliMake::add_subcmds` method works correctly
#[test]
fn impl_basic_cli_add_subcmds() {
    let mut cli = CliMake::new("example", vec![], vec![], Some("Add arg check"), None).unwrap();
    let subcmd = Subcommand::new("example", vec![], vec![], None).unwrap();

    cli.add_subcmds(vec![&subcmd, &subcmd])
        .unwrap()
        .add_subcmds(vec![&subcmd, &subcmd])
        .unwrap();

    assert_eq!(cli.subcommands(), &vec![&subcmd, &subcmd, &subcmd, &subcmd])
}

/// Checks that the `CliMake::add_subcmds` method works correctly
#[test]
fn lib_cli_add_subcmds() {
    let mut cli = CliMake::new("example", vec![], vec![], Some("Add arg check"), None).unwrap();
    let subcmd = Subcommand::new("example", vec![], vec![], None).unwrap();

    cli.add_subcmds(vec![&subcmd, &subcmd])
        .unwrap()
        .add_subcmds(vec![&subcmd, &subcmd])
        .unwrap();

    assert_eq!(cli.subcommands(), &vec![&subcmd, &subcmd, &subcmd, &subcmd])
}

/// Checks that the `CliMake::add_subcmd` method works correctly
#[test]
fn impl_basic_cli_add_subcmd() {
    let mut cli = CliMake::new("example", vec![], vec![], Some("Add arg check"), None).unwrap();
    let subcmd = Subcommand::new("example", vec![], vec![], None).unwrap();

    cli.add_subcmd(&subcmd).unwrap().add_subcmd(&subcmd).unwrap();

    assert_eq!(cli.subcommands(), &vec![&subcmd, &subcmd])
}

/// Checks that the `CliMake::add_subcmd` method works correctly
#[test]
fn lib_cli_add_subcmd() {
    let mut cli = CliMake::new("example", vec![], vec![], Some("Add arg check"), None).unwrap();
    let subcmd = Subcommand::new("example", vec![], vec![], None).unwrap();

    cli.add_subcmd(&subcmd).unwrap().add_subcmd(&subcmd).unwrap();

    assert_eq!(cli.subcommands(), &vec![&subcmd, &subcmd])
}

/// Arguments that can be called, with calls of their own, are attached in
/// order, and attaching is chainable.
#[test]
fn cli_add_arg_attaches() {
    let a = Argument::new(None, vec!['a'], vec!["all"], Input::Nothing);
    let b = Argument::new(None, vec!['b'], vec![], Input::Text);
    let c = Argument::new(None, vec![], vec!["sea"], Input::Paths);
    let d = Argument::new(None, vec!['d'], vec![], Input::Path);
    let mut cli = CliMake::new("app", vec![&a], vec![], None, None).unwrap();
    cli.add_arg(&b).unwrap().add_arg(&c).unwrap();
    assert_eq!(cli.arguments(), &vec![&a, &b, &c]);
    cli.add_args(vec![&d]).unwrap().add_args(vec![]).unwrap();
    assert_eq!(cli.arguments(), &vec![&a, &b, &c, &d]);
}

/// An argument that shares a call with one of the scope is refused, and the
/// description is as it was before.
#[test]
fn cli_add_arg_refuses_duplicates() {
    let a = Argument::new(None, vec!['a'], vec!["all"], Input::Nothing);
    let short = Argument::new(None, vec!['x', 'a'], vec![], Input::Nothing);
    let long = Argument::new(None, vec!['y'], vec!["other", "all"], Input::Nothing);
    let fine = Argument::new(None, vec!['z'], vec!["a"], Input::Nothing);
    let mut cli = CliMake::new("app", vec![&a], vec![], None, None).unwrap();
    assert_eq!(cli.add_arg(&a).err(), Some(ConstructionError::DuplicateCall));
    assert_eq!(cli.add_arg(&short).err(), Some(ConstructionError::DuplicateCall));
    assert_eq!(cli.add_arg(&long).err(), Some(ConstructionError::DuplicateCall));
    assert_eq!(cli.arguments(), &vec![&a]);
    // a short call and a long call of the same letter are different calls
    cli.add_arg(&fine).unwrap();
    assert_eq!(cli.arguments(), &vec![&a, &fine]);
}

/// Several arguments are attached together or not at all.
#[test]
fn cli_add_args_is_all_or_nothing() {
    let a = Argument::new(None, vec!['a'], vec![], Input::Nothing);
    let b = Argument::new(None, vec!['b'], vec![], Input::Nothing);
    let c = Argument::new(None, vec!['c'], vec![], Input::Nothing);
    let none = Argument::new(None, vec![], vec![], Input::Nothing);
    let mut cli = CliMake::new("app", vec![&a], vec![], None, None).unwrap();
    assert_eq!(
        cli.add_args(vec![&b, &a]).err(),
        Some(ConstructionError::DuplicateCall)
    );
    assert_eq!(
        cli.add_args(vec![&b, &c, &b]).err(),
        Some(ConstructionError::DuplicateCall)
    );
    assert_eq!(cli.add_args(vec![&b, &none]).err(), Some(ConstructionError::NoCalls));
    // an argument without calls is reported before a shared call
    assert_eq!(cli.add_args(vec![&a, &none]).err(), Some(ConstructionError::NoCalls));
    assert_eq!(cli.arguments(), &vec![&a]);
    cli.add_args(vec![&b, &c]).unwrap();
    assert_eq!(cli.arguments(), &vec![&a, &b, &c]);
}

/// A description cannot be made of parts that are not sound.
#[test]
fn cli_new_refuses_unsound_parts() {
    let none = Argument::new(
        Some("This should return NoCalls once added to cli"),
        vec![],
        vec![],
        Input::Nothing,
    );
    let fine = Argument::new(None, vec!['f'], vec![], Input::Nothing);
    let org_arg = Argument::new(None, vec!['d'], vec!["dupecall"], Input::Nothing);
    assert_eq!(
        CliMake::new("app", vec![&none], vec![], None, None).err(),
        Some(ConstructionError::NoCalls)
    );
    assert_eq!(
        CliMake::new("app", vec![&fine, &none], vec![], None, None).err(),
        Some(ConstructionError::NoCalls)
    );
    assert_eq!(
        CliMake::new("app", vec![&org_arg, &org_arg], vec![], None, None).err(),
        Some(ConstructionError::DuplicateCall)
    );
    // an argument without calls is reported before a shared call
    assert_eq!(
        CliMake::new("app", vec![&org_arg, &org_arg, &none], vec![], None, None).err(),
        Some(ConstructionError::NoCalls)
    );
    assert!(CliMake::new("app", vec![&fine, &org_arg], vec![], None, None).is_ok());
    assert!(CliMake::new("app", vec![], vec![], None, None).is_ok());
}

/// A subcommand that is not sound cannot be attached, however it came to be.
#[test]
fn cli_refuses_unsound_subcommands() {
    let none = Argument::new(None, vec![], vec![], Input::Nothing);
    let dupe = Argument::new(None, vec!['d'], vec![], Input::Nothing);
    let fine = Argument::new(None, vec!['f'], vec![], Input::Nothing);
    let mut callless = Subcommand::new("callless", vec![], vec![], None).unwrap();
    callless.arguments.push(&none);
    let mut doubled = Subcommand::new("doubled", vec![&dupe], vec![], None).unwrap();
    doubled.arguments.push(&dupe);
    let mut outer = Subcommand::new("outer", vec![&fine], vec![], None).unwrap();
    outer.subcommands.push(&callless);
    let good = Subcommand::new("good", vec![&fine, &dupe], vec![], None).unwrap();

    assert_eq!(
        CliMake::new("app", vec![], vec![&good, &outer], None, None).err(),
        Some(ConstructionError::NoCalls)
    );
    assert_eq!(
        CliMake::new("app", vec![], vec![&doubled], None, None).err(),
        Some(ConstructionError::DuplicateCall)
    );
    let mut cli = CliMake::new("app", vec![&fine], vec![], None, None).unwrap();
    assert_eq!(cli.add_subcmd(&callless).err(), Some(ConstructionError::NoCalls));
    assert_eq!(cli.add_subcmd(&outer).err(), Some(ConstructionError::NoCalls));
    assert_eq!(cli.add_subcmd(&doubled).err(), Some(ConstructionError::DuplicateCall));
    assert_eq!(
        cli.add_subcmds(vec![&good, &doubled]).err(),
        Some(ConstructionError::DuplicateCall)
    );
    assert_eq!(
        cli.add_subcmds(vec![&doubled, &callless]).err(),
        Some(ConstructionError::NoCalls)
    );
    assert_eq!(cli.subcommands(), &Vec::<&Subcommand>::new());
    // a subcommand may use the calls of its parent
    cli.add_subcmd(&good).unwrap();
    assert_eq!(cli.subcommands(), &vec![&good]);
}

/// What a description is made of can be read back.
#[test]
fn cli_new_keeps_its_parts() {
    let arg = Argument::new(None, vec!['a'], vec![], Input::Nothing);
    let subcmd = Subcommand::new("sub", vec![&arg], vec![], Some("A subcommand")).unwrap();
    let cli =
        CliMake::new("prog", vec![&arg], vec![&subcmd], Some("About"), Some("1.2.3")).unwrap();
    assert_eq!(cli.name(), "prog");
    assert_eq!(cli.description(), Some("About"));
    assert_eq!(cli.version(), Some("1.2.3"));
    assert_eq!(cli.indent(), "  ");
    assert_eq!(cli.arguments(), &vec![&arg]);
    assert_eq!(cli.subcommands(), &vec![&subcmd]);
    assert_eq!(cli.clone(), cli);
}

/// The indent is two spaces until it is set, and setting it is chainable.
#[test]
fn cli_tabbing_sets_the_indent() {
    let arg = Argument::new(None, vec!['a'], vec![], Input::Nothing);
    let mut cli = CliMake::new("prog", vec![], vec![], None, None).unwrap();
    cli.tabbing("\t").add_arg(&arg).unwrap();
    assert_eq!(cli.indent(), "\t");
    assert_eq!(cli.arguments(), &vec![&arg]);
}

/// A subcommand keeps what it was made of.
#[test]
fn subcommand_new_keeps_its_parts() {
    let arg = Argument::new(None, vec!['a'], vec![], Input::Nothing);
    let inner = Subcommand::new("inner", vec![], vec![], None).unwrap();
    let subcmd = Subcommand::new("outer", vec![&arg], vec![&inner], Some("Outer")).unwrap();
    assert_eq!(subcmd.name, "outer");
    assert_eq!(subcmd.arguments, vec![&arg]);
    assert_eq!(subcmd.subcommands, vec![&inner]);
    assert_eq!(subcmd.help, Some("Outer"));
    assert_eq!(subcmd.clone(), subcmd);
}
