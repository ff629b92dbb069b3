//! The command language of the Storm command line.
use crate::text::{
    is_first_index, ascii_lower, ascii_lowercase, chars_of, is_word, split_once, split_once_chars, string_from_chars, to_ascii_lowercase,
    trim, trim_chars,
};
use vstd::prelude::*;

verus! {

/// A command typed at the Storm prompt.
#[derive(Debug, PartialEq, Eq)]
pub enum Command {
    NewGroup(String),
    EnterGroup(String),
    ListGroups,
    ListPeers,
    Send(String),
    AddContact(String, String),
    Share(String, String),
    Login(String),
    PrintKey,
    Exit,
}

/// The mathematical value of a command: its variant and its texts.
pub enum CommandModel {
    NewGroup(Seq<char>),
    EnterGroup(Seq<char>),
    ListGroups,
    ListPeers,
    Send(Seq<char>),
    AddContact(Seq<char>, Seq<char>),
    Share(Seq<char>, Seq<char>),
    Login(Seq<char>),
    PrintKey,
    Exit,
}

impl View for Command {
    type V = CommandModel;

    open spec fn view(&self) -> CommandModel {
        match self {
            Command::NewGroup(s) => CommandModel::NewGroup(s@),
            Command::EnterGroup(s) => CommandModel::EnterGroup(s@),
            Command::ListGroups => CommandModel::ListGroups,
            Command::ListPeers => CommandModel::ListPeers,
            Command::Send(s) => CommandModel::Send(s@),
            Command::AddContact(a, b) => CommandModel::AddContact(a@, b@),
            Command::Share(a, b) => CommandModel::Share(a@, b@),
            Command::Login(s) => CommandModel::Login(s@),
            Command::PrintKey => CommandModel::PrintKey,
            Command::Exit => CommandModel::Exit,
        }
    }
}

/// The model of a parse outcome: a command, or the text of the error.
pub open spec fn parse_outcome(r: Result<Command, String>) -> Result<CommandModel, Seq<char>> {
    match r {
        Ok(c) => Ok(c@),
        Err(e) => Err(e@),
    }
}

/// What a line means when, after lower-casing and trimming, it holds a space:
/// a command word, then its argument text.
pub open spec fn command_with_argument(word: Seq<char>, arg: Seq<char>) -> Result<CommandModel, Seq<char>> {
    if word == "newgroup"@ {
        Ok(CommandModel::NewGroup(arg))
    } else if word == "entergroup"@ {
        Ok(CommandModel::EnterGroup(arg))
    } else if word == "send"@ {
        Ok(CommandModel::Send(arg))
    } else if word == "login"@ {
        Ok(CommandModel::Login(arg))
    } else if word == "add"@ {
        match split_once(arg, ' ') {
            Some((name, key)) => Ok(CommandModel::AddContact(name, key)),
            None => Err("Must specify name and key"@),
        }
    } else if word == "share"@ {
        match split_once(arg, ' ') {
            Some((group, name)) => Ok(CommandModel::Share(group, name)),
            None => Err("Must provide group name and peer name"@),
        }
    } else {
        Err("Command not recognized"@)
    }
}

/// What a line means when it holds a single word; `word` is the line trimmed
/// but not lower-cased.
pub open spec fn bare_command(word: Seq<char>) -> Result<CommandModel, Seq<char>> {
    if word == "groups"@ {
        Ok(CommandModel::ListGroups)
    } else if word == "peers"@ {
        Ok(CommandModel::ListPeers)
    } else if word == "key"@ {
        Ok(CommandModel::PrintKey)
    } else if word == "exit"@ || word == "quit"@ {
        Ok(CommandModel::Exit)
    } else {
        Err("Invalid command: "@ + word)
    }
}

/// The meaning of a line typed at the prompt.
pub open spec fn parse_spec(line: Seq<char>) -> Result<CommandModel, Seq<char>> {
    match split_once(trim(ascii_lowercase(line)), ' ') {
        Some((word, arg)) => command_with_argument(word, arg),
        None => bare_command(trim(line)),
    }
}

proof fn lemma_lowercase_idempotent(s: Seq<char>)
    ensures
        ascii_lowercase(ascii_lowercase(s)) == ascii_lowercase(s),
{
    assert forall|i: int| 0 <= i < s.len() implies ascii_lower(ascii_lower(s[i])) == ascii_lower(
        s[i],
    ) by {
        let c = s[i];
        if 'A' <= c <= 'Z' {
            let d = ((c as u32) + 32) as char;
            assert(d as u32 == (c as u32) + 32);
        }
    }
    assert(ascii_lowercase(ascii_lowercase(s)) =~= ascii_lowercase(s));
}

/// Commands that take an argument ignore the case of the whole line: a line
/// means the same as its lower-cased form.
pub proof fn law_argument_commands_ignore_case(line: Seq<char>)
    requires
        split_once(trim(ascii_lowercase(line)), ' ') is Some,
    ensures
        parse_spec(ascii_lowercase(line)) == parse_spec(line),
{
    lemma_lowercase_idempotent(line);
}

proof fn lemma_split_after_word(word: Seq<char>, arg: Seq<char>)
    requires
        forall|j: int| 0 <= j < word.len() ==> word[j] != ' ',
    ensures
        split_once(word + seq![' '] + arg, ' ') == Some((word, arg)),
{
    let s = word + seq![' '] + arg;
    let n = word.len() as int;
    assert(s[n] == ' ');
    assert(s.contains(' '));
    assert forall|j: int| 0 <= j < n implies s[j] != ' ' by {
        assert(s[j] == word[j]);
    }
    assert(is_first_index(s, ' ', n));
    let i = choose|i: int| is_first_index(s, ' ', i);
    assert(i == n) by {
        if i < n {
            assert(s[i] == word[i]);
        }
    }
    assert(s.take(n) =~= word);
    assert(s.skip(n + 1) =~= arg);
}

/// A command word that takes a text (`newgroup`, `entergroup`, `send`,
/// `login`) carries the whole rest of the line after the first space,
/// spaces included: when the trimmed, lower-cased line is the word, a space
/// and `arg`, the command holds exactly `arg`.
pub proof fn law_argument_is_whole_rest(line: Seq<char>, word: Seq<char>, arg: Seq<char>)
    requires
        word == "newgroup"@ || word == "entergroup"@ || word == "send"@ || word == "login"@,
        trim(ascii_lowercase(line)) == word + seq![' '] + arg,
    ensures
        word == "newgroup"@ ==> parse_spec(line) == Ok::<CommandModel, Seq<char>>(CommandModel::NewGroup(arg)),
        word == "entergroup"@ ==> parse_spec(line) == Ok::<CommandModel, Seq<char>>(CommandModel::EnterGroup(arg)),
        word == "send"@ ==> parse_spec(line) == Ok::<CommandModel, Seq<char>>(CommandModel::Send(arg)),
        word == "login"@ ==> parse_spec(line) == Ok::<CommandModel, Seq<char>>(CommandModel::Login(arg)),
{
    reveal_strlit("newgroup");
    reveal_strlit("entergroup");
    reveal_strlit("send");
    reveal_strlit("login");
    assert forall|j: int| 0 <= j < word.len() implies word[j] != ' ' by {
        if word == "newgroup"@ {
        } else if word == "entergroup"@ {
        } else if word == "send"@ {
        } else {
        }
    }
    lemma_split_after_word(word, arg);
}

/// `add` and `share` take two texts: the first runs up to the second space
/// of the trimmed, lower-cased line and the second is all the rest, spaces
/// included.
pub proof fn law_two_arguments(line: Seq<char>, word: Seq<char>, first: Seq<char>, rest: Seq<char>)
    requires
        word == "add"@ || word == "share"@,
        forall|j: int| 0 <= j < first.len() ==> first[j] != ' ',
        trim(ascii_lowercase(line)) == word + seq![' '] + (first + seq![' '] + rest),
    ensures
        word == "add"@ ==> parse_spec(line) == Ok::<CommandModel, Seq<char>>(CommandModel::AddContact(first, rest)),
        word == "share"@ ==> parse_spec(line) == Ok::<CommandModel, Seq<char>>(CommandModel::Share(first, rest)),
{
    reveal_strlit("newgroup");
    reveal_strlit("entergroup");
    reveal_strlit("send");
    reveal_strlit("login");
    reveal_strlit("add");
    reveal_strlit("share");
    assert forall|j: int| 0 <= j < word.len() implies word[j] != ' ' by {
        if word == "add"@ {
        } else {
        }
    }
    assert(word != "newgroup"@ && word != "entergroup"@ && word != "send"@);
    assert(word != "login"@) by {
        if word == "share"@ {
            assert(word[0] != "login"@[0]);
        }
    }
    assert(word == "share"@ ==> word != "add"@);
    lemma_split_after_word(word, first + seq![' '] + rest);
    lemma_split_after_word(first, rest);
}

fn error_text(msg: &str) -> (e: Result<Command, String>)
    ensures
        parse_outcome(e) == Err::<CommandModel, Seq<char>>(msg@),
{
    Err(msg.to_owned())
}

/// Parses one line typed at the prompt into a command, or the message that
/// explains why it is not one.
pub fn parse_cmd(line: &String) -> (r: Result<Command, String>)
    ensures
        parse_outcome(r) == parse_spec(line@),
{
    let raw = chars_of(line.as_str());
    let lowered = to_ascii_lowercase(&raw);
    let cleaned = trim_chars(&lowered);
    match split_once_chars(&cleaned, ' ') {
        Some((word, arg_chars)) => {
            let arg = string_from_chars(&arg_chars);
            if is_word(&word, "newgroup") {
                Ok(Command::NewGroup(arg))
            } else if is_word(&word, "entergroup") {
                Ok(Command::EnterGroup(arg))
            } else if is_word(&word, "send") {
                Ok(Command::Send(arg))
            } else if is_word(&word, "login") {
                Ok(Command::Login(arg))
            } else if is_word(&word, "add") {
                match split_once_chars(&arg_chars, ' ') {
                    Some((name, key)) => Ok(
                        Command::AddContact(string_from_chars(&name), string_from_chars(&key)),
                    ),
                    None => error_text("Must specify name and key"),
                }
            } else if is_word(&word, "share") {
                match split_once_chars(&arg_chars, ' ') {
                    Some((group, name)) => Ok(
                        Command::Share(string_from_chars(&group), string_from_chars(&name)),
                    ),
                    None => error_text("Must provide group name and peer name"),
                }
            } else {
                error_text("Command not recognized")
            }
        },
        None => {
            let word = trim_chars(&raw);
            if is_word(&word, "groups") {
                Ok(Command::ListGroups)
            } else if is_word(&word, "peers") {
                Ok(Command::ListPeers)
            } else if is_word(&word, "key") {
                Ok(Command::PrintKey)
            } else if is_word(&word, "exit") || is_word(&word, "quit") {
                Ok(Command::Exit)
            } else {
                let mut msg = chars_of("Invalid command: ");
                let ghost prefix = msg@;
                let mut k: usize = 0;
                while k < word.len()
                    invariant
                        0 <= k <= word.len(),
                        msg@ == prefix + word@.take(k as int),
                    decreases word.len() - k,
                {
                    msg.push(word[k]);
                    k = k + 1;
                }
                assert(word@.take(word.len() as int) == word@);
                Err(string_from_chars(&msg))
            }
        },
    }
}

} // verus!
