//! Checks and clean-up of task titles.

use vstd::prelude::*;
use vstd::string::*;
use crate::text::{join_spaced, join_with_spaces, split_whitespace, words};

verus! {

/// A title is valid when it has between 1 and 200 characters.
pub open spec fn valid_title(t: Seq<char>) -> bool {
    0 < t.len() <= 200
}

/// Whether `title` is a valid title.
pub fn validate_title(title: &str) -> (b: bool)
    ensures
        b == valid_title(title@),
{
    let n = title.unicode_len();
    0 < n && n <= 200
}

/// The words of `input` joined by single spaces: leading, trailing and
/// repeated whitespace removed.
pub fn sanitize(input: &str) -> (s: String)
    ensures
        s@ == join_spaced(words(input@)),
{
    let ws = split_whitespace(input);
    assert(ws@.map_values(|w: &str| w@) =~= words(input@));
    join_with_spaces(&ws)
}

} // verus!
