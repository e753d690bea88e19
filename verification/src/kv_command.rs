//! The commands of the key-value store's prompt. A line is trimmed and cut at
//! its first two whitespace characters into a command word and up to two
//! arguments; the command word is compared in lower case.

use vstd::prelude::*;
use vstd::string::*;
use crate::text::{chars_of, is_ws, is_whitespace, lowercase, str_eq, to_lowercase, trim, trim_str};

verus! {

/// The index of the first whitespace character of `s` at or after `i`, or
/// the length of `s` when there is none.
pub open spec fn next_ws(s: Seq<char>, i: int) -> int
    decreases s.len() - i,
{
    if i >= s.len() {
        s.len() as int
    } else if is_ws(s[i]) {
        i
    } else {
        next_ws(s, i + 1)
    }
}

/// The pieces of `s` cut at its first two whitespace characters, as
/// `str::splitn(3, char::is_whitespace)` yields them; a missing piece is empty.
pub open spec fn split3(s: Seq<char>) -> (Seq<char>, Seq<char>, Seq<char>) {
    let a = next_ws(s, 0);
    if a >= s.len() {
        (s, seq![], seq![])
    } else {
        let b = next_ws(s, a + 1);
        if b >= s.len() {
            (s.take(a), s.subrange(a + 1, s.len() as int), seq![])
        } else {
            (s.take(a), s.subrange(a + 1, b), s.subrange(b + 1, s.len() as int))
        }
    }
}

/// A command typed at the prompt.
#[derive(Debug)]
pub enum Command {
    /// A blank line.
    Empty,
    /// Set a key to a value.
    SetEntry(String, String),
    /// Show the value of a key.
    Get(String),
    /// Remove a key.
    Remove(String),
    /// List all entries.
    List,
    /// Write the store to its file.
    Save,
    /// Show the help text.
    Help,
    /// Leave the prompt (`quit` or `exit`).
    Quit,
    /// A known command without the arguments it needs: the usage line to show.
    Usage(String),
    /// A command word that is not known, in lower case.
    Unknown(String),
}

/// The usage line of `set`.
pub open spec fn set_usage() -> Seq<char> {
    "用法: set <key> <value>"@
}

/// The usage line of `get`.
pub open spec fn get_usage() -> Seq<char> {
    "用法: get <key>"@
}

/// The usage line of `remove`.
pub open spec fn remove_usage() -> Seq<char> {
    "用法: remove <key>"@
}

/// `c` is the command that the line `line` asks for.
pub open spec fn is_command_of(c: Command, line: Seq<char>) -> bool {
    let t = trim(line);
    let (w, a1, a2) = split3(t);
    let cmd = lowercase(w);
    if t.len() == 0 {
        c is Empty
    } else if cmd == "set"@ {
        if a1.len() == 0 || a2.len() == 0 {
            c matches Command::Usage(u) && u@ == set_usage()
        } else {
            c matches Command::SetEntry(k, v) && k@ == a1 && v@ == a2
        }
    } else if cmd == "get"@ {
        if a1.len() == 0 {
            c matches Command::Usage(u) && u@ == get_usage()
        } else {
            c matches Command::Get(k) && k@ == a1
        }
    } else if cmd == "remove"@ {
        if a1.len() == 0 {
            c matches Command::Usage(u) && u@ == remove_usage()
        } else {
            c matches Command::Remove(k) && k@ == a1
        }
    } else if cmd == "list"@ {
        c is List
    } else if cmd == "save"@ {
        c is Save
    } else if cmd == "help"@ {
        c is Help
    } else if cmd == "quit"@ || cmd == "exit"@ {
        c is Quit
    } else {
        c matches Command::Unknown(u) && u@ == cmd
    }
}

/// The index of the first whitespace character of `cs` at or after `from`,
/// or the length of `cs`.
fn find_ws(cs: &Vec<char>, from: usize) -> (r: usize)
    requires
        from <= cs@.len(),
    ensures
        r == next_ws(cs@, from as int),
        from <= r <= cs@.len(),
{
    let mut i = from;
    while i < cs.len() && !is_whitespace(cs[i])
        invariant
            from <= i <= cs@.len(),
            next_ws(cs@, i as int) == next_ws(cs@, from as int),
        decreases cs@.len() - i,
    {
        i = i + 1;
    }
    i
}

/// The command that `line` asks for.
pub fn parse_command(line: &str) -> (c: Command)
    ensures
        is_command_of(c, line@),
{
    let t = trim_str(line);
    let cs = chars_of(t);
    let n = cs.len();
    if n == 0 {
        return Command::Empty;
    }
    let a = find_ws(&cs, 0);
    let (w, a1, a2) = if a >= n {
        (t, "", "")
    } else {
        let b = find_ws(&cs, a + 1);
        if b >= n {
            (t.substring_char(0, a), t.substring_char(a + 1, n), "")
        } else {
            (t.substring_char(0, a), t.substring_char(a + 1, b), t.substring_char(b + 1, n))
        }
    };
    proof {
        reveal_strlit("");
        assert(split3(t@) == (w@, a1@, a2@));
    }
    let cmd = to_lowercase(w);
    let c = cmd.as_str();
    if str_eq(c, "set") {
        if a1.unicode_len() == 0 || a2.unicode_len() == 0 {
            Command::Usage(String::from_str("用法: set <key> <value>"))
        } else {
            Command::SetEntry(String::from_str(a1), String::from_str(a2))
        }
    } else if str_eq(c, "get") {
        if a1.unicode_len() == 0 {
            Command::Usage(String::from_str("用法: get <key>"))
        } else {
            Command::Get(String::from_str(a1))
        }
    } else if str_eq(c, "remove") {
        if a1.unicode_len() == 0 {
            Command::Usage(String::from_str("用法: remove <key>"))
        } else {
            Command::Remove(String::from_str(a1))
        }
    } else if str_eq(c, "list") {
        Command::List
    } else if str_eq(c, "save") {
        Command::Save
    } else if str_eq(c, "help") {
        Command::Help
    } else if str_eq(c, "quit") || str_eq(c, "exit") {
        Command::Quit
    } else {
        Command::Unknown(cmd)
    }
}

} // verus!
