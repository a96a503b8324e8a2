//! Tests for the help of subcommands and of the whole command line.

use climake::io::Input;
use climake::{Argument, CliMake, Subcommand};

fn text(buf: Vec<u8>) -> String {
    String::from_utf8(buf).unwrap()
}

/// Checks that the `Subcommand::help_name_msg` method works correctly
#[test]
fn name_help() {
    let mut chk_vec: Vec<u8> = vec![];

    Subcommand::new("command", vec![], vec![], Some("A simple command")).unwrap()
        .help_name_msg(&mut chk_vec);
    assert_eq!(
        std::str::from_utf8(chk_vec.as_slice()).unwrap(),
        "  command — A simple command\n"
    );
}

/// Checks that the `Subcommand::help_name_msg` method works correctly
#[test]
fn subcommand_name_help() {
    let mut chk_vec: Vec<u8> = vec![];

    Subcommand::new("command", vec![], vec![], Some("A simple command")).unwrap()
        .help_name_msg(&mut chk_vec);
    assert_eq!(
        std::str::from_utf8(chk_vec.as_slice()).unwrap(),
        "  command — A simple command\n"
    );
}

/// Ensures header message displays without errors.
#[test]
fn check_header() {
    let cli = CliMake::new("example", vec![], vec![], Some("A simple CLI."), None).unwrap();
    let mut buf: Vec<u8> = vec![];

    cli.header_msg("example", None, &mut buf);

    assert_eq!(text(buf), "Usage: ./example [OPTIONS]\n\n  example — A simple CLI.\n");
}

/// A subcommand without help shows the default.
#[test]
fn subcommand_help_line_default() {
    let subcmd = Subcommand::new("bare", vec![], vec![], None).unwrap();
    assert_eq!(subcmd.help_line(), "bare — No help provided");
}

/// The header shows the version when there is one, and nothing but the usage
/// line when there is no description.
#[test]
fn header_variants() {
    let mut buf: Vec<u8> = vec![];
    CliMake::new("My app", vec![], vec![], Some("A simple application"), Some("0.1.0")).unwrap()
        .header_msg("my-app", None, &mut buf);
    assert_eq!(
        text(buf),
        "Usage: ./my-app [OPTIONS]\n\n  My app v0.1.0 — A simple application\n"
    );

    let mut buf: Vec<u8> = vec![];
    CliMake::new("My app", vec![], vec![], None, Some("0.1.0")).unwrap().header_msg(
        "my-app",
        None,
        &mut buf,
    );
    assert_eq!(text(buf), "Usage: ./my-app [OPTIONS]\n");

    let mut buf: Vec<u8> = vec![];
    CliMake::new("My app", vec![], vec![], None, None).unwrap().header_msg(
        "my-app",
        Some("add"),
        &mut buf,
    );
    assert_eq!(text(buf), "Usage: ./my-app add [OPTIONS]\n");
}

/// The help of a command line with nothing in it.
#[test]
fn help_msg_empty() {
    let cli = CliMake::new("empty", vec![], vec![], None, None).unwrap();
    let mut buf: Vec<u8> = vec![];
    cli.help_msg("empty", &mut buf);
    assert_eq!(
        text(buf),
        "Usage: ./empty [OPTIONS]\n\
         \n\
         Arguments:\n  No arguments found\n\
         \n\
         Subcommands:\n  No subcommands found\n"
    );
}

/// The whole help of a command line, byte for byte.
#[test]
fn help_msg_full() {
    let verbose = Argument::new(Some("Verbose mode"), vec!['v'], vec!["verbose"], Input::Nothing);
    let mut file = Argument::new(Some("The file to read"), vec!['f'], vec![], Input::Path);
    file.required = true;
    let add = Subcommand::new("add", vec![&file], vec![], Some("Adds a file")).unwrap();
    let rem = Subcommand::new("rem", vec![], vec![], None).unwrap();
    let cli = CliMake::new(
        "My app",
        vec![&verbose, &file],
        vec![&add, &rem],
        Some("A simple application"),
        Some("0.1.0"),
    ).unwrap();
    let mut buf: Vec<u8> = vec![];
    cli.help_msg("my-app", &mut buf);
    assert_eq!(
        text(buf),
        "Usage: ./my-app [OPTIONS]\n\
         \n  My app v0.1.0 — A simple application\n\
         \n\
         Arguments:\n\
         \x20 (-v, --verbose) — Verbose mode\n\
         \x20 -f [path] [REQUIRED] — The file to read\n\
         \n\
         Subcommands:\n\
         \x20 add — Adds a file\n\
         \x20 rem — No help provided\n"
    );
}

/// Help is appended to what the buffer holds already.
#[test]
fn help_msg_appends() {
    let cli = CliMake::new("empty", vec![], vec![], None, None).unwrap();
    let mut buf: Vec<u8> = b"before\n".to_vec();
    cli.help_msg("empty", &mut buf);
    assert!(text(buf).starts_with("before\nUsage: ./empty [OPTIONS]\n"));
}

/// Writing the help twice writes the same bytes twice.
#[test]
fn help_msg_is_idempotent() {
    let verbose = Argument::new(Some("Verbose mode"), vec!['v'], vec!["verbose"], Input::Nothing);
    let add = Subcommand::new("add", vec![&verbose], vec![], Some("Adds")).unwrap();
    let cli = CliMake::new("app", vec![&verbose], vec![&add], Some("An app"), None).unwrap();
    let mut first: Vec<u8> = vec![];
    let mut second: Vec<u8> = vec![];
    cli.help_msg("app", &mut first);
    cli.help_msg("app", &mut second);
    assert_eq!(first, second);

    let mut first: Vec<u8> = vec![];
    let mut second: Vec<u8> = vec![];
    add.help_msg(&cli, "app", &mut first);
    add.help_msg(&cli, "app", &mut second);
    assert_eq!(first, second);
}

/// Every argument's calls and help stand in the help of the command line.
#[test]
fn help_msg_shows_every_argument() {
    let one = Argument::new(Some("The first one"), vec!['a', 'b'], vec!["first"], Input::Text);
    let two = Argument::new(Some("The second one"), vec![], vec!["second", "2nd"], Input::Paths);
    let cli = CliMake::new("app", vec![&one, &two], vec![], None, None).unwrap();
    let mut buf: Vec<u8> = vec![];
    cli.help_msg("app", &mut buf);
    let shown = text(buf);
    for needle in [
        "-ab",
        "--first",
        "The first one",
        "--second",
        "--2nd",
        "The second one",
    ] {
        assert!(shown.contains(needle));
    }
    assert!(shown.contains("  (-ab, --first) [text] — The first one\n"));
    assert!(shown.contains("  (--second, --2nd) [paths] — The second one\n"));
}

/// The help of a subcommand names it on the usage line and tells what it is
/// about.
#[test]
fn subcommand_help_msg() {
    let img = Subcommand::new("img", vec![], vec![], Some("An image")).unwrap();
    let text_cmd = Subcommand::new("text", vec![], vec![], Some("Textual input")).unwrap();
    let title = Argument::new(Some("Title of the post"), vec!['t'], vec!["title"], Input::Text);
    let add = Subcommand::new(
        "add",
        vec![&title],
        vec![&img, &text_cmd],
        Some("Adds a new post"),
    ).unwrap();
    let cli = CliMake::new(
        "subcommandsgalore",
        vec![],
        vec![&add],
        Some("A demonstration cli to show subcommand help"),
        None,
    ).unwrap();
    let mut buf: Vec<u8> = vec![];
    add.help_msg(&cli, "galore", &mut buf);
    assert_eq!(
        text(buf),
        "Usage: ./galore add [OPTIONS]\n\
         \n  subcommandsgalore — A demonstration cli to show subcommand help\n\
         \nAbout:\n  Adds a new post\n\
         \nArguments:\n  (-t, --title) [text] — Title of the post\n\
         \nSubcommands:\n  img — An image\n  text — Textual input\n"
    );

    let mut buf: Vec<u8> = vec![];
    img.help_msg(&cli, "galore", &mut buf);
    assert_eq!(
        text(buf),
        "Usage: ./galore img [OPTIONS]\n\
         \n  subcommandsgalore — A demonstration cli to show subcommand help\n\
         \nAbout:\n  An image\n\
         \nArguments:\n  No arguments found\n\
         \nSubcommands:\n  No subcommands found\n"
    );
}

/// The indent of the command line is the indent of its help lines, and the
/// room for text shrinks by it.
#[test]
fn help_msg_uses_the_indent() {
    let long = "y".repeat(80);
    let arg = Argument::new(Some(long.as_str()), vec!['l'], vec![], Input::Nothing);
    let mut cli = CliMake::new("app", vec![&arg], vec![], None, None).unwrap();
    cli.tabbing("....");
    let mut buf: Vec<u8> = vec![];
    cli.help_msg("app", &mut buf);
    // 76 bytes fit beside an indent of four: "-l — " takes 7, so 69 of help
    let expected = format!(
        "Usage: ./app [OPTIONS]\n\nArguments:\n....-l — {}\n....{}\n\nSubcommands:\n  No subcommands found\n",
        "y".repeat(69),
        "y".repeat(11)
    );
    assert_eq!(text(buf), expected);
}
