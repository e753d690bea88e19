//! Parsing task lines of the form `[High] title`, `[Medium] title` and
//! `[Low] title`.

use vstd::prelude::*;
use vstd::string::*;
use crate::packages_and_modules::models::Priority;
use crate::packages_and_modules::services::validator::{valid_title, validate_title};
use crate::text::{strip_prefix, trim, trim_str};

verus! {

/// `s` starts with `p`.
pub open spec fn starts_with(s: Seq<char>, p: Seq<char>) -> bool {
    p.len() <= s.len() && s.take(p.len() as int) == p
}

/// The title after a priority tag, trimmed, with the priority, when the
/// title is valid.
pub open spec fn tagged(rest: Seq<char>, p: Priority) -> Option<(Seq<char>, Priority)> {
    if valid_title(trim(rest)) {
        Some((trim(rest), p))
    } else {
        None
    }
}

/// What a task line holds: the line is trimmed; it must start with one of
/// the tags `[High]`, `[Medium]`, `[Low]` (tried in that order, case
/// sensitive); the rest, trimmed, is the title, which must be valid.
pub open spec fn parse_task(line: Seq<char>) -> Option<(Seq<char>, Priority)> {
    let t = trim(line);
    if t.len() == 0 {
        None
    } else if starts_with(t, "[High]"@) {
        tagged(t.skip(6), Priority::High)
    } else if starts_with(t, "[Medium]"@) {
        tagged(t.skip(8), Priority::Medium)
    } else if starts_with(t, "[Low]"@) {
        tagged(t.skip(5), Priority::Low)
    } else {
        None
    }
}

/// The title and priority of a task line, or `None` when it has no
/// priority tag or no valid title.
pub fn parse_task_line(line: &str) -> (r: Option<(String, Priority)>)
    ensures
        r is Some <==> parse_task(line@) is Some,
        r matches Some(tp) ==> parse_task(line@) == Some((tp.0@, tp.1)),
{
    proof {
        reveal_strlit("[High]");
        reveal_strlit("[Medium]");
        reveal_strlit("[Low]");
    }
    let trimmed = trim_input(line);
    if trimmed.as_str().is_empty() {
        return None;
    }
    if let Some(rest) = strip_prefix(trimmed.as_str(), "[High]") {
        let title = trim_input(rest);
        if validate_title(title.as_str()) {
            Some((title, Priority::High))
        } else {
            None
        }
    } else if let Some(rest) = strip_prefix(trimmed.as_str(), "[Medium]") {
        let title = trim_input(rest);
        if validate_title(title.as_str()) {
            Some((title, Priority::Medium))
        } else {
            None
        }
    } else if let Some(rest) = strip_prefix(trimmed.as_str(), "[Low]") {
        let title = trim_input(rest);
        if validate_title(title.as_str()) {
            Some((title, Priority::Low))
        } else {
            None
        }
    } else {
        None
    }
}

fn trim_input(s: &str) -> (t: String)
    ensures
        t@ == trim(s@),
{
    String::from_str(trim_str(s))
}

} // verus!
