use tpad::command::{parse_command, CommandError};
use tpad::models::Operations;

#[test]
fn open_joins_its_arguments() {
    assert_eq!(parse_command("  o a.txt   b.txt "), Ok(Operations::Open(String::from("a.txt b.txt"))));
    assert_eq!(parse_command("o"), Ok(Operations::Open(String::new())));
}

#[test]
fn find_strips_leading_slashes() {
    assert_eq!(parse_command("/needle"), Ok(Operations::Find(String::from("needle"))));
    assert_eq!(parse_command("//a/b x"), Ok(Operations::Find(String::from("a/b"))));
}

#[test]
fn count_needs_a_word() {
    assert_eq!(parse_command("count foo bar"), Ok(Operations::WordCount(String::from("foo"))));
    assert_eq!(parse_command("count"), Err(CommandError::MissingWord));
    assert_eq!(CommandError::MissingWord.message(), "No word provided for count command");
}

#[test]
fn plain_commands() {
    assert_eq!(parse_command("list"), Ok(Operations::List));
    assert_eq!(parse_command("q"), Ok(Operations::Close));
    assert_eq!(parse_command("wq"), Ok(Operations::SaveAndClose));
    assert_eq!(parse_command("w"), Ok(Operations::Save));
    assert_eq!(parse_command("cl"), Ok(Operations::Exit));
    assert_eq!(parse_command("clundo"), Ok(Operations::ClearHistory));
    assert_eq!(parse_command("theme"), Ok(Operations::OpenTheme));
    assert_eq!(parse_command("set"), Ok(Operations::SelectTheme));
}

#[test]
fn unknown_commands_are_refused() {
    assert_eq!(parse_command("quit"), Err(CommandError::Invalid));
    assert_eq!(parse_command(""), Err(CommandError::Invalid));
    assert_eq!(CommandError::Invalid.message(), "Invalid command ");
}
