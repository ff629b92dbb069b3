use storm::command::{parse_cmd, Command};

fn parse(s: &str) -> Result<Command, String> {
    parse_cmd(&s.to_string())
}

#[test]
fn parses_commands_with_arguments() {
    assert_eq!(parse("newgroup Friends\n"), Ok(Command::NewGroup("friends".to_string())));
    assert_eq!(parse("entergroup work"), Ok(Command::EnterGroup("work".to_string())));
    assert_eq!(parse("  LOGIN Bob  \n"), Ok(Command::Login("bob".to_string())));
    assert_eq!(parse("send hello world"), Ok(Command::Send("hello world".to_string())));
    assert_eq!(parse("send  hi"), Ok(Command::Send(" hi".to_string())));
}

#[test]
fn parses_two_argument_commands() {
    assert_eq!(
        parse("add alice ABcd\n"),
        Ok(Command::AddContact("alice".to_string(), "abcd".to_string()))
    );
    assert_eq!(
        parse("share g bob extra"),
        Ok(Command::Share("g".to_string(), "bob extra".to_string()))
    );
}

#[test]
fn reports_missing_second_argument() {
    assert_eq!(parse("add alice"), Err("Must specify name and key".to_string()));
    assert_eq!(parse("share grp\n"), Err("Must provide group name and peer name".to_string()));
}

#[test]
fn reports_unknown_command_word() {
    assert_eq!(parse("foo bar"), Err("Command not recognized".to_string()));
}

#[test]
fn parses_bare_commands() {
    assert_eq!(parse("groups\n"), Ok(Command::ListGroups));
    assert_eq!(parse("peers"), Ok(Command::ListPeers));
    assert_eq!(parse("key\r\n"), Ok(Command::PrintKey));
    assert_eq!(parse("\t exit \r\n"), Ok(Command::Exit));
    assert_eq!(parse("quit"), Ok(Command::Exit));
}

#[test]
fn bare_commands_are_case_sensitive() {
    assert_eq!(parse("GROUPS\n"), Err("Invalid command: GROUPS".to_string()));
}

#[test]
fn empty_line_is_invalid() {
    assert_eq!(parse(""), Err("Invalid command: ".to_string()));
    assert_eq!(parse("   \n"), Err("Invalid command: ".to_string()));
}

#[test]
fn unicode_white_space_is_trimmed() {
    assert_eq!(parse("\u{3000}groups\u{a0}"), Ok(Command::ListGroups));
    assert_eq!(parse("\u{2003}login Zoë\u{85}"), Ok(Command::Login("zoë".to_string())));
}

#[test]
fn argument_commands_ignore_case() {
    assert_eq!(parse("NEWGROUP Fam"), parse("newgroup fam"));
    assert_eq!(parse("Share G Bob"), Ok(Command::Share("g".to_string(), "bob".to_string())));
}
