//! What the user typed, read as one of a closed set of commands, and the
//! secret to store when a credential is made or edited.

use vstd::prelude::*;
use rand_pwd::RandPwd;
use crate::text::chars_of;
use crate::text::has_prefix;
use crate::text::same_text;
use crate::text::starts_with;
use crate::text::trim;
use crate::text::trimmed;

verus! {

/// A command of the interactive session. The commands that name a
/// credential or a query carry the rest of the line as typed.
#[derive(Debug)]
pub enum Command {
    Quit,
    Help,
    Create,
    List,
    Show(String),
    Query(String),
    Edit(String),
    Delete(String),
}

/// A command as plain values.
pub ghost enum CommandView {
    Quit,
    Help,
    Create,
    List,
    Show(Seq<char>),
    Query(Seq<char>),
    Edit(Seq<char>),
    Delete(Seq<char>),
}

impl View for Command {
    type V = CommandView;

    open spec fn view(&self) -> CommandView {
        match self {
            Command::Quit => CommandView::Quit,
            Command::Help => CommandView::Help,
            Command::Create => CommandView::Create,
            Command::List => CommandView::List,
            Command::Show(rest) => CommandView::Show(rest@),
            Command::Query(rest) => CommandView::Query(rest@),
            Command::Edit(rest) => CommandView::Edit(rest@),
            Command::Delete(rest) => CommandView::Delete(rest@),
        }
    }
}

/// The command that a line spells, white space at its ends aside. A word
/// alone is a command without argument; a word, one space and a rest is a
/// command on that rest; anything else asks for help.
pub open spec fn command_of(line: Seq<char>) -> CommandView {
    let input = trimmed(line);
    if input == "quit"@ {
        CommandView::Quit
    } else if input == "h"@ || input == "help"@ {
        CommandView::Help
    } else if input == "c"@ || input == "create"@ {
        CommandView::Create
    } else if input == "l"@ || input == "list"@ {
        CommandView::List
    } else if has_prefix(input, "s "@) {
        CommandView::Show(input.skip(2))
    } else if has_prefix(input, "show "@) {
        CommandView::Show(input.skip(5))
    } else if has_prefix(input, "q "@) {
        CommandView::Query(input.skip(2))
    } else if has_prefix(input, "query "@) {
        CommandView::Query(input.skip(6))
    } else if has_prefix(input, "e "@) {
        CommandView::Edit(input.skip(2))
    } else if has_prefix(input, "edit "@) {
        CommandView::Edit(input.skip(5))
    } else if has_prefix(input, "d "@) {
        CommandView::Delete(input.skip(2))
    } else if has_prefix(input, "delete "@) {
        CommandView::Delete(input.skip(7))
    } else {
        CommandView::Help
    }
}

/// Tells whether `input` is exactly `word`.
fn is_word(input: &Vec<char>, word: &str) -> (yes: bool)
    ensures
        yes == (input@ == word@),
{
    same_text(input, &chars_of(word))
}

/// The rest of `input` behind `word`, if `input` begins with it.
fn rest_behind(input: &str, chars: &Vec<char>, word: &str) -> (rest: Option<String>)
    requires
        chars@ == input@,
    ensures
        match rest {
            Some(text) => has_prefix(input@, word@) && text@ == input@.skip(word@.len() as int),
            None => !has_prefix(input@, word@),
        },
{
    let prefix = chars_of(word);
    if starts_with(chars, &prefix) {
        Some(input.substring_char(prefix.len(), chars.len()).to_owned())
    } else {
        None
    }
}

/// Reads a line as a command.
pub fn parse_command(line: &str) -> (command: Command)
    ensures
        command@ == command_of(line@),
{
    let input = trim(line);
    let chars = chars_of(input.as_str());
    proof {
        reveal_strlit("s ");
        reveal_strlit("show ");
        reveal_strlit("q ");
        reveal_strlit("query ");
        reveal_strlit("e ");
        reveal_strlit("edit ");
        reveal_strlit("d ");
        reveal_strlit("delete ");
    }
    if is_word(&chars, "quit") {
        return Command::Quit;
    }
    if is_word(&chars, "h") || is_word(&chars, "help") {
        return Command::Help;
    }
    if is_word(&chars, "c") || is_word(&chars, "create") {
        return Command::Create;
    }
    if is_word(&chars, "l") || is_word(&chars, "list") {
        return Command::List;
    }
    if let Some(rest) = rest_behind(input.as_str(), &chars, "s ") {
        return Command::Show(rest);
    }
    if let Some(rest) = rest_behind(input.as_str(), &chars, "show ") {
        return Command::Show(rest);
    }
    if let Some(rest) = rest_behind(input.as_str(), &chars, "q ") {
        return Command::Query(rest);
    }
    if let Some(rest) = rest_behind(input.as_str(), &chars, "query ") {
        return Command::Query(rest);
    }
    if let Some(rest) = rest_behind(input.as_str(), &chars, "e ") {
        return Command::Edit(rest);
    }
    if let Some(rest) = rest_behind(input.as_str(), &chars, "edit ") {
        return Command::Edit(rest);
    }
    if let Some(rest) = rest_behind(input.as_str(), &chars, "d ") {
        return Command::Delete(rest);
    }
    if let Some(rest) = rest_behind(input.as_str(), &chars, "delete ") {
        return Command::Delete(rest);
    }
    Command::Help
}

/// Tells whether an answer confirms a removal: a capital `Y`, white space at
/// its ends aside.
pub fn confirms(answer: &str) -> (yes: bool)
    ensures
        yes == (trimmed(answer@) == "Y"@),
{
    let input = trim(answer);
    is_word(&chars_of(input.as_str()), "Y")
}

/// `c` is an ASCII letter.
pub open spec fn is_ascii_letter(c: char) -> bool {
    0x41 <= c as u32 <= 0x5A || 0x61 <= c as u32 <= 0x7A
}

/// `c` is an ASCII digit.
pub open spec fn is_ascii_number(c: char) -> bool {
    0x30 <= c as u32 <= 0x39
}

/// A password of the given make-up: that many letters, symbols and digits
/// in some order, all of them printable ASCII characters other than space.
pub open spec fn is_made_of(pwd: Seq<char>, letters: nat, symbols: nat, digits: nat) -> bool {
    &&& pwd.len() == letters + symbols + digits
    &&& forall|i: int| 0 <= i < pwd.len() ==> 0x21 <= (#[trigger] pwd[i]) as u32 <= 0x7E
    &&& pwd.filter(|c: char| is_ascii_letter(c)).len() == letters
    &&& pwd.filter(|c: char| is_ascii_number(c)).len() == digits
}

/// `RandPwd::new`, `join` and `val`: a random password. Its characters are
/// drawn and shuffled at random, so only its make-up is stated. The crate
/// keeps one list entry for each character asked for, so the counts are
/// kept small.
#[verifier::external_body]
fn random_password(letters: usize, symbols: usize, digits: usize) -> (pwd: String)
    requires
        letters <= 0xFFFF,
        symbols <= 0xFFFF,
        digits <= 0xFFFF,
    ensures
        is_made_of(pwd@, letters as nat, symbols as nat, digits as nat),
{
    let mut made = RandPwd::new(letters, symbols, digits);
    made.join();
    made.val().to_string()
}

/// The secret to store for what was typed: the text without white space at
/// its ends, or `generated` where that leaves nothing.
pub fn chosen_secret(typed: &str, generated: String) -> (secret: String)
    ensures
        secret@ == if trimmed(typed@).len() == 0 {
            generated@
        } else {
            trimmed(typed@)
        },
{
    let input = trim(typed);
    if input.as_str().is_empty() {
        generated
    } else {
        input
    }
}

/// The secret to store for what was typed: the text without white space at
/// its ends, or, where that leaves nothing, a random password of eight
/// letters, five symbols and three digits.
pub fn secret_or_random(typed: &str) -> (secret: String)
    ensures
        if trimmed(typed@).len() == 0 {
            is_made_of(secret@, 8, 5, 3)
        } else {
            secret@ == trimmed(typed@)
        },
{
    let generated = if trim(typed).as_str().is_empty() {
        random_password(8, 5, 3)
    } else {
        String::new()
    };
    chosen_secret(typed, generated)
}

} // verus!
