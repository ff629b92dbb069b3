//! What the command line does with each line the user types, before and
//! after logging in. The caller reads the lines, performs the reactions and
//! prints the messages.
use crate::command::{parse_cmd, parse_outcome, parse_spec, Command, CommandModel};
use crate::profile::{has_group_named, ProfileModel, ProfileState};
use crate::text::{append_str, chars_of, string_from_chars};
use vstd::prelude::*;

verus! {

/// The value of a hexadecimal digit, in either case; -1 for any other character.
pub open spec fn hex_value(c: char) -> int {
    let n = c as u32;
    if 0x30 <= n <= 0x39 {
        n - 0x30
    } else if 0x61 <= n <= 0x66 {
        n - 0x61 + 10
    } else if 0x41 <= n <= 0x46 {
        n - 0x41 + 10
    } else {
        -1
    }
}

/// The bytes a text of hexadecimal digits stands for, two digits a byte;
/// none when the text has an odd length or a character that is not a digit.
pub open spec fn hex_decoding(s: Seq<char>) -> Option<Seq<u8>> {
    if s.len() % 2 == 0 && forall|i: int| 0 <= i < s.len() ==> hex_value(#[trigger] s[i]) >= 0 {
        Some(Seq::new((s.len() / 2) as nat, |i: int| (hex_value(s[2 * i]) * 16 + hex_value(s[2 * i + 1])) as u8))
    } else {
        None
    }
}

/// The lower-case hexadecimal digit of a value below 16.
pub open spec fn hex_digit(v: int) -> char {
    if v < 10 {
        (0x30 + v) as char
    } else {
        (0x61 + v - 10) as char
    }
}

/// The lower-case hexadecimal text of some bytes, two digits a byte, high
/// digit first.
pub open spec fn hex_encoding(bytes: Seq<u8>) -> Seq<char> {
    Seq::new(
        2 * bytes.len(),
        |i: int|
            if i % 2 == 0 {
                hex_digit(bytes[i / 2] as int / 16)
            } else {
                hex_digit(bytes[i / 2] as int % 16)
            },
    )
}

#[verifier::external_type_specification]
#[verifier::external_body]
pub struct ExFromHexError(hex::FromHexError);

/// Calls `hex::decode` on the text. As the crate's source shows, the text is
/// read as bytes, two hexadecimal digits of either case to a byte; an odd
/// length or any other character is an error. Which error is not stated.
#[verifier::external_body]
fn hex_decode(text: &String) -> (bytes: Result<Vec<u8>, hex::FromHexError>)
    ensures
        match bytes {
            Ok(b) => hex_decoding(text@) == Some(b@),
            Err(_) => hex_decoding(text@) is None,
        },
{
    hex::decode(text)
}

/// Calls `hex::encode`. As the crate's source shows, each byte becomes two
/// lower-case hexadecimal digits, high digit first.
#[verifier::external_body]
fn hex_encode(bytes: &[u8; 32]) -> (text: String)
    ensures
        text@ == hex_encoding(bytes@),
{
    hex::encode(bytes)
}

/// How the user's public key is shown.
pub fn key_text(public: &[u8; 32]) -> (text: String)
    ensures
        text@ == hex_encoding(public@),
{
    hex_encode(public)
}

/// What the command line does before the user has logged in.
#[derive(Debug, PartialEq, Eq)]
pub enum LoginReaction {
    /// Load this profile and continue logged in.
    Login(String),
    /// Leave the program.
    Quit,
    /// Print this message and read the next line.
    Say(String),
}

/// The model of a reaction before login.
pub enum LoginReactionModel {
    Login(Seq<char>),
    Quit,
    Say(Seq<char>),
}

impl View for LoginReaction {
    type V = LoginReactionModel;

    open spec fn view(&self) -> LoginReactionModel {
        match self {
            LoginReaction::Login(s) => LoginReactionModel::Login(s@),
            LoginReaction::Quit => LoginReactionModel::Quit,
            LoginReaction::Say(s) => LoginReactionModel::Say(s@),
        }
    }
}

/// The answer to any other command before login.
pub open spec fn login_first_text() -> Seq<char> {
    "You muse first login before using this command"@
}

/// What a line typed before login leads to.
pub open spec fn login_reaction(line: Seq<char>) -> LoginReactionModel {
    match parse_spec(line) {
        Ok(CommandModel::Login(name)) => LoginReactionModel::Login(name),
        Ok(CommandModel::Exit) => LoginReactionModel::Quit,
        Ok(_) => LoginReactionModel::Say(login_first_text()),
        Err(e) => LoginReactionModel::Say(e),
    }
}

/// Decides what to do with a line typed before login.
pub fn respond_before_login(line: &String) -> (r: LoginReaction)
    ensures
        r@ == login_reaction(line@),
{
    match parse_cmd(line) {
        Ok(Command::Login(name)) => LoginReaction::Login(name),
        Ok(Command::Exit) => LoginReaction::Quit,
        Ok(_) => LoginReaction::Say("You muse first login before using this command".to_owned()),
        Err(e) => LoginReaction::Say(e),
    }
}

/// What the command line does once logged in.
#[derive(Debug, PartialEq, Eq)]
pub enum Reaction {
    /// Leave the program.
    Quit,
    /// Print this message.
    Say(String),
    /// Load this profile in place of the current one, then stop.
    SwitchProfile(String),
    /// Print the user's public key.
    PrintKey,
    /// Create a group of this name.
    CreateGroup(String),
    /// Make this group the current one.
    EnterGroup(String),
    /// Share the group with the contact of this key.
    ShareGroup([u8; 32], String),
    /// Print the groups.
    ListGroups,
    /// Print the contacts.
    ListPeers,
    /// Send the text to the named group.
    SendMessage(String, String),
    /// Record a contact of this name and key, and connect to it.
    AddContact(String, [u8; 32]),
}

/// The model of a reaction once logged in.
pub enum ReactionModel {
    Quit,
    Say(Seq<char>),
    SwitchProfile(Seq<char>),
    PrintKey,
    CreateGroup(Seq<char>),
    EnterGroup(Seq<char>),
    ShareGroup([u8; 32], Seq<char>),
    ListGroups,
    ListPeers,
    SendMessage(Seq<char>, Seq<char>),
    AddContact(Seq<char>, [u8; 32]),
}

impl View for Reaction {
    type V = ReactionModel;

    open spec fn view(&self) -> ReactionModel {
        match self {
            Reaction::Quit => ReactionModel::Quit,
            Reaction::Say(s) => ReactionModel::Say(s@),
            Reaction::SwitchProfile(s) => ReactionModel::SwitchProfile(s@),
            Reaction::PrintKey => ReactionModel::PrintKey,
            Reaction::CreateGroup(s) => ReactionModel::CreateGroup(s@),
            Reaction::EnterGroup(s) => ReactionModel::EnterGroup(s@),
            Reaction::ShareGroup(k, s) => ReactionModel::ShareGroup(*k, s@),
            Reaction::ListGroups => ReactionModel::ListGroups,
            Reaction::ListPeers => ReactionModel::ListPeers,
            Reaction::SendMessage(g, m) => ReactionModel::SendMessage(g@, m@),
            Reaction::AddContact(n, k) => ReactionModel::AddContact(n@, *k),
        }
    }
}

/// The key a decoded contact key stands for, when it has exactly 32 bytes.
pub open spec fn key_of_bytes(bytes: Seq<u8>) -> Option<[u8; 32]> {
    if bytes.len() == 32 {
        Some(choose|k: [u8; 32]| k@ == bytes)
    } else {
        None
    }
}

/// What a command leads to once logged in, given the profile and the
/// current group.
pub open spec fn command_reaction(p: ProfileModel, current: Option<Seq<char>>, cmd: CommandModel) -> ReactionModel {
    match cmd {
        CommandModel::Login(name) => ReactionModel::SwitchProfile(name),
        CommandModel::Exit => ReactionModel::Quit,
        CommandModel::PrintKey => ReactionModel::PrintKey,
        CommandModel::NewGroup(desc) => if has_group_named(p.groups, desc) {
            ReactionModel::Say("This group already exists"@)
        } else {
            ReactionModel::CreateGroup(desc)
        },
        CommandModel::EnterGroup(desc) => if has_group_named(p.groups, desc) {
            ReactionModel::EnterGroup(desc)
        } else {
            ReactionModel::Say("You are not in group "@ + desc + "."@)
        },
        CommandModel::Share(group, peer) => if !has_group_named(p.groups, group) {
            ReactionModel::Say("You do not have this group."@)
        } else if !p.peers.contains_key(peer) {
            ReactionModel::Say("You do not have this contact."@)
        } else if p.sharing.contains((p.peers[peer], group)) {
            ReactionModel::Say("You are already sharing this group with this contact."@)
        } else {
            ReactionModel::ShareGroup(p.peers[peer], group)
        },
        CommandModel::ListGroups => ReactionModel::ListGroups,
        CommandModel::ListPeers => ReactionModel::ListPeers,
        CommandModel::Send(msg) => match current {
            Some(g) => ReactionModel::SendMessage(g, msg),
            None => ReactionModel::Say("You must enter a group before you can send messages"@),
        },
        CommandModel::AddContact(name, hex_key) => match hex_decoding(hex_key) {
            Some(bytes) => match key_of_bytes(bytes) {
                Some(k) => ReactionModel::AddContact(name, k),
                None => ReactionModel::Say("Incorrect key length"@),
            },
            None => ReactionModel::Say("Invalid key"@),
        },
    }
}

/// What a line typed once logged in leads to.
pub open spec fn line_reaction(p: ProfileModel, current: Option<Seq<char>>, line: Seq<char>) -> ReactionModel {
    match parse_spec(line) {
        Ok(cmd) => command_reaction(p, current, cmd),
        Err(e) => ReactionModel::Say(e),
    }
}

/// The model of the current group.
pub open spec fn current_group(current: Option<String>) -> Option<Seq<char>> {
    match current {
        Some(g) => Some(g@),
        None => None,
    }
}

fn say(msg: &str) -> (r: Reaction)
    ensures
        r@ == ReactionModel::Say(msg@),
{
    Reaction::Say(msg.to_owned())
}

/// The contact key that decoded bytes stand for, when there are exactly 32.
pub fn key_from_bytes(bytes: &Vec<u8>) -> (k: Option<[u8; 32]>)
    ensures
        match k {
            Some(k) => key_of_bytes(bytes@) == Some(k) && k@ == bytes@,
            None => key_of_bytes(bytes@) is None,
        },
{
    if bytes.len() != 32 {
        return None;
    }
    let mut key = [0u8; 32];
    for i in 0..32
        invariant
            bytes@.len() == 32,
            key@.len() == 32,
            forall|j: int| 0 <= j < i ==> key@[j] == bytes@[j],
    {
        key[i] = bytes[i];
    }
    proof {
        assert(key@ =~= bytes@);
        let c = choose|c: [u8; 32]| c@ == bytes@;
        assert(c == key) by {
            assert forall|i: int| 0 <= i < 32 implies c[i] == key[i] by {
                assert(c@[i] == key@[i]);
            }
        }
    }
    Some(key)
}

/// Decides what to do with a command once logged in.
pub fn respond_to_command(profile: &ProfileState, current: &Option<String>, cmd: Command) -> (r: Reaction)
    requires
        profile.wf(),
    ensures
        r@ == command_reaction(profile@, current_group(*current), cmd@),
{
    match cmd {
        Command::Login(name) => Reaction::SwitchProfile(name),
        Command::Exit => Reaction::Quit,
        Command::PrintKey => Reaction::PrintKey,
        Command::NewGroup(desc) => {
            if profile.has_group(&desc) {
                say("This group already exists")
            } else {
                Reaction::CreateGroup(desc)
            }
        },
        Command::EnterGroup(desc) => {
            if profile.has_group(&desc) {
                Reaction::EnterGroup(desc)
            } else {
                let mut msg = chars_of("You are not in group ");
                let ghost start = msg@;
                let d = chars_of(desc.as_str());
                let mut k: usize = 0;
                while k < d.len()
                    invariant
                        0 <= k <= d.len(),
                        msg@ == start + d@.take(k as int),
                    decreases d.len() - k,
                {
                    msg.push(d[k]);
                    k = k + 1;
                }
                assert(d@.take(d.len() as int) == d@);
                msg.push('.');
                proof {
                    reveal_strlit(".");
                    assert(msg@ =~= "You are not in group "@ + desc@ + "."@);
                }
                Reaction::Say(string_from_chars(&msg))
            }
        },
        Command::Share(group, peer) => {
            if !profile.has_group(&group) {
                say("You do not have this group.")
            } else {
                match profile.peer_key(&peer) {
                    None => say("You do not have this contact."),
                    Some(key) => {
                        if profile.is_sharing(&key, &group) {
                            say("You are already sharing this group with this contact.")
                        } else {
                            Reaction::ShareGroup(key, group)
                        }
                    },
                }
            }
        },
        Command::ListGroups => Reaction::ListGroups,
        Command::ListPeers => Reaction::ListPeers,
        Command::Send(msg) => {
            match current {
                Some(g) => Reaction::SendMessage(g.clone(), msg),
                None => say("You must enter a group before you can send messages"),
            }
        },
        Command::AddContact(name, hex_key) => {
            match hex_decode(&hex_key) {
                Ok(bytes) => {
                    match key_from_bytes(&bytes) {
                        Some(k) => Reaction::AddContact(name, k),
                        None => say("Incorrect key length"),
                    }
                },
                Err(_) => say("Invalid key"),
            }
        },
    }
}

/// Decides what to do with a line typed once logged in.
pub fn respond_to_line(profile: &ProfileState, current: &Option<String>, line: &String) -> (r: Reaction)
    requires
        profile.wf(),
    ensures
        r@ == line_reaction(profile@, current_group(*current), line@),
{
    match parse_cmd(line) {
        Ok(cmd) => respond_to_command(profile, current, cmd),
        Err(e) => Reaction::Say(e),
    }
}

/// How a message received in the current group is shown.
pub open spec fn message_text(group: Seq<char>, from: Seq<char>, text: Seq<char>) -> Seq<char> {
    group + " - "@ + from + " says: "@ + text
}

/// Shows a message received in group `group` from `from`.
pub fn message_line(group: &String, from: &String, text: &String) -> (line: String)
    ensures
        line@ == message_text(group@, from@, text@),
{
    let mut v: Vec<char> = Vec::new();
    append_str(&mut v, group.as_str());
    append_str(&mut v, " - ");
    append_str(&mut v, from.as_str());
    append_str(&mut v, " says: ");
    append_str(&mut v, text.as_str());
    assert(v@ =~= message_text(group@, from@, text@));
    string_from_chars(&v)
}

/// How the creation of a group is shown.
pub fn new_group_line(name: &String) -> (line: String)
    ensures
        line@ == "New group "@ + name@,
{
    let mut v: Vec<char> = Vec::new();
    append_str(&mut v, "New group ");
    append_str(&mut v, name.as_str());
    assert(v@ =~= "New group "@ + name@);
    string_from_chars(&v)
}

/// A group is shared with a contact at most once: asking again to share a
/// group that is already shared only says so.
pub proof fn law_no_duplicate_sharing(p: ProfileModel, current: Option<Seq<char>>, group: Seq<char>, peer: Seq<char>)
    requires
        has_group_named(p.groups, group),
        p.peers.contains_key(peer),
    ensures
        (command_reaction(p, current, CommandModel::Share(group, peer)) is ShareGroup) <==> !p.sharing.contains(
            (p.peers[peer], group),
        ),
        ({
            let shared = ProfileModel { sharing: p.sharing.insert((p.peers[peer], group)), ..p };
            !(command_reaction(shared, current, CommandModel::Share(group, peer)) is ShareGroup)
        }),
{
}

/// A group is never created twice: a name that already names a group is
/// refused.
pub proof fn law_no_duplicate_group(p: ProfileModel, current: Option<Seq<char>>, name: Seq<char>)
    ensures
        (command_reaction(p, current, CommandModel::NewGroup(name)) is CreateGroup) <==> !has_group_named(
            p.groups,
            name,
        ),
{
}

/// Messages go only to the group the user has entered: without one, sending
/// is refused.
pub proof fn law_send_needs_current_group(p: ProfileModel, current: Option<Seq<char>>, msg: Seq<char>)
    ensures
        (command_reaction(p, current, CommandModel::Send(msg)) is SendMessage) <==> current is Some,
{
}

/// Only the user's own groups can be entered: entering `desc` succeeds
/// exactly when a group of that name exists, whatever the contacts and the
/// current group are, and a name that is not a group is refused with a
/// message.
pub proof fn law_enter_only_own_groups(p: ProfileModel, current: Option<Seq<char>>, desc: Seq<char>)
    ensures
        (command_reaction(p, current, CommandModel::EnterGroup(desc)) == ReactionModel::EnterGroup(desc))
            <==> (exists|id: [u8; 32]| #[trigger] p.groups.contains((desc, id))),
        !(exists|id: [u8; 32]| #[trigger] p.groups.contains((desc, id))) ==> (command_reaction(
            p,
            current,
            CommandModel::EnterGroup(desc),
        ) is Say),
{
}

} // verus!
