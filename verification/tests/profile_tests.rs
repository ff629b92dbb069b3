use storm::command::Command;
use storm::profile::ProfileState;
use storm::session::{
    key_text, message_line, new_group_line, respond_before_login, respond_to_command,
    respond_to_line, LoginReaction, Reaction,
};

fn s(x: &str) -> String {
    x.to_string()
}

#[test]
fn profile_records_groups_and_contacts() {
    let mut p = ProfileState::new();
    assert!(!p.has_group(&s("g")));
    p.add_group(&s("g"), &[1u8; 32]);
    assert!(p.has_group(&s("g")));
    p.add_group(&s("h"), &[1u8; 32]);
    assert!(!p.has_group(&s("g")));
    assert!(p.has_group(&s("h")));
    assert_eq!(p.peer_key(&s("bob")), None);
    p.add_peer(&s("bob"), [2u8; 32]);
    p.add_peer(&s("bob"), [3u8; 32]);
    assert_eq!(p.peer_key(&s("bob")), Some([3u8; 32]));
    assert_eq!(p.peers().len(), 1);
    assert!(!p.is_sharing(&[3u8; 32], &s("h")));
    p.add_peer_to_group([3u8; 32], &s("h"));
    assert!(p.is_sharing(&[3u8; 32], &s("h")));
    assert_eq!(p.groups().len(), 1);
}

#[test]
fn profile_from_stored_rows() {
    let p = ProfileState::from_rows(
        &vec![(s("a"), [1u8; 32]), (s("b"), [2u8; 32])],
        &vec![(s("x"), [5u8; 32]), (s("x"), [6u8; 32])],
        &vec![([6u8; 32], s("a"))],
    );
    assert!(p.has_group(&s("a")) && p.has_group(&s("b")));
    assert_eq!(p.peer_key(&s("x")), Some([6u8; 32]));
    assert!(p.is_sharing(&[6u8; 32], &s("a")));
    assert!(!p.is_sharing(&[6u8; 32], &s("b")));
}

#[test]
fn before_login() {
    assert_eq!(respond_before_login(&s("login Alice\n")), LoginReaction::Login(s("alice")));
    assert_eq!(respond_before_login(&s("exit")), LoginReaction::Quit);
    assert_eq!(
        respond_before_login(&s("groups")),
        LoginReaction::Say(s("You muse first login before using this command"))
    );
    assert_eq!(respond_before_login(&s("x y")), LoginReaction::Say(s("Command not recognized")));
}

fn profile() -> ProfileState {
    let mut p = ProfileState::new();
    p.add_group(&s("fam"), &[1u8; 32]);
    p.add_peer(&s("bob"), [9u8; 32]);
    p
}

#[test]
fn group_commands() {
    let p = profile();
    assert_eq!(
        respond_to_command(&p, &None, Command::NewGroup(s("fam"))),
        Reaction::Say(s("This group already exists"))
    );
    assert_eq!(respond_to_command(&p, &None, Command::NewGroup(s("new"))), Reaction::CreateGroup(s("new")));
    assert_eq!(respond_to_command(&p, &None, Command::EnterGroup(s("fam"))), Reaction::EnterGroup(s("fam")));
    assert_eq!(
        respond_to_command(&p, &None, Command::EnterGroup(s("zz"))),
        Reaction::Say(s("You are not in group zz."))
    );
}

#[test]
fn share_command() {
    let mut p = profile();
    assert_eq!(
        respond_to_command(&p, &None, Command::Share(s("nope"), s("bob"))),
        Reaction::Say(s("You do not have this group."))
    );
    assert_eq!(
        respond_to_command(&p, &None, Command::Share(s("fam"), s("eve"))),
        Reaction::Say(s("You do not have this contact."))
    );
    assert_eq!(
        respond_to_command(&p, &None, Command::Share(s("fam"), s("bob"))),
        Reaction::ShareGroup([9u8; 32], s("fam"))
    );
    p.add_peer_to_group([9u8; 32], &s("fam"));
    assert_eq!(
        respond_to_command(&p, &None, Command::Share(s("fam"), s("bob"))),
        Reaction::Say(s("You are already sharing this group with this contact."))
    );
}

#[test]
fn send_command() {
    let p = profile();
    assert_eq!(
        respond_to_command(&p, &None, Command::Send(s("hi"))),
        Reaction::Say(s("You must enter a group before you can send messages"))
    );
    assert_eq!(
        respond_to_command(&p, &Some(s("fam")), Command::Send(s("hi"))),
        Reaction::SendMessage(s("fam"), s("hi"))
    );
}

#[test]
fn add_contact_command() {
    let p = profile();
    let hex = "0a".repeat(32);
    assert_eq!(
        respond_to_command(&p, &None, Command::AddContact(s("carol"), hex)),
        Reaction::AddContact(s("carol"), [10u8; 32])
    );
    assert_eq!(
        respond_to_command(&p, &None, Command::AddContact(s("carol"), "0A".repeat(32))),
        Reaction::AddContact(s("carol"), [10u8; 32])
    );
    assert_eq!(
        respond_to_command(&p, &None, Command::AddContact(s("carol"), s("0a0b"))),
        Reaction::Say(s("Incorrect key length"))
    );
    assert_eq!(
        respond_to_command(&p, &None, Command::AddContact(s("carol"), s("0g"))),
        Reaction::Say(s("Invalid key"))
    );
    assert_eq!(
        respond_to_command(&p, &None, Command::AddContact(s("carol"), s("abc"))),
        Reaction::Say(s("Invalid key"))
    );
}

#[test]
fn other_commands() {
    let p = profile();
    assert_eq!(respond_to_command(&p, &None, Command::Login(s("x"))), Reaction::SwitchProfile(s("x")));
    assert_eq!(respond_to_command(&p, &None, Command::Exit), Reaction::Quit);
    assert_eq!(respond_to_command(&p, &None, Command::PrintKey), Reaction::PrintKey);
    assert_eq!(respond_to_command(&p, &None, Command::ListGroups), Reaction::ListGroups);
    assert_eq!(respond_to_command(&p, &None, Command::ListPeers), Reaction::ListPeers);
}

#[test]
fn lines_once_logged_in() {
    let p = profile();
    assert_eq!(respond_to_line(&p, &None, &s("Share FAM Bob\n")), Reaction::ShareGroup([9u8; 32], s("fam")));
    assert_eq!(respond_to_line(&p, &None, &s("hello")), Reaction::Say(s("Invalid command: hello")));
}

#[test]
fn shown_texts() {
    let mut k = [0u8; 32];
    k[0] = 0xab;
    k[31] = 0x01;
    let t = key_text(&k);
    assert_eq!(t.len(), 64);
    assert!(t.starts_with("ab00"));
    assert!(t.ends_with("0001"));
    assert_eq!(message_line(&s("fam"), &s("bob"), &s("hi")), "fam - bob says: hi");
    assert_eq!(new_group_line(&s("fam")), "New group fam");
}
