//! Functions that hand back borrowed text: the longer of two strings, the
//! first word, an excerpt that borrows its text, and the longest string of a
//! slice.

use vstd::prelude::*;
use vstd::string::*;
use crate::text::{byte_len, chars_of, str_byte_len};

verus! {

/// The longer of `x` and `y` by byte length; `x` when they are equally long.
pub fn longest<'a>(x: &'a str, y: &'a str) -> (r: &'a str)
    ensures
        r@ == if byte_len(x@) >= byte_len(y@) { x@ } else { y@ },
{
    if str_byte_len(x) >= str_byte_len(y) {
        x
    } else {
        y
    }
}

/// Where the first `' '` of `s` is.
pub open spec fn first_space_at(s: Seq<char>, i: int) -> bool {
    0 <= i < s.len() && s[i] == ' ' && forall|j: int| 0 <= j < i ==> s[j] != ' '
}

/// The text of `s` before its first `' '`; all of `s` when it has none.
pub open spec fn first_word_of(s: Seq<char>) -> Seq<char> {
    if exists|i: int| first_space_at(s, i) {
        s.take(choose|i: int| first_space_at(s, i))
    } else {
        s
    }
}

/// The text of `s` before its first space.
pub fn first_word(s: &str) -> (w: &str)
    ensures
        w@ == first_word_of(s@),
{
    let cs = chars_of(s);
    let mut i: usize = 0;
    while i < cs.len()
        invariant
            i <= cs@.len(),
            cs@ == s@,
            forall|j: int| 0 <= j < i ==> s@[j] != ' ',
        decreases cs@.len() - i,
    {
        if cs[i] == ' ' {
            proof {
                let k = choose|k: int| first_space_at(s@, k);
                assert(first_space_at(s@, i as int));
                if k < i {
                    assert(s@[k] != ' ');
                } else if k > i {
                    assert(s@[i as int] != ' ');
                }
            }
            return s.substring_char(0, i);
        }
        i = i + 1;
    }
    s
}

/// A piece of text borrowed from a longer one.
pub struct Excerpt<'a> {
    /// The borrowed text.
    pub content: &'a str,
}

impl<'a> Excerpt<'a> {
    /// The borrowed text.
    pub fn get_content(&self) -> (c: &str)
        ensures
            c@ == self.content@,
    {
        self.content
    }

    /// The longer by byte length of the excerpt's text and `other`; the
    /// excerpt's text when they are equally long.
    pub fn longest_word(&self, other: &'a str) -> (r: &'a str)
        ensures
            r@ == if byte_len(self.content@) >= byte_len(other@) { self.content@ } else { other@ },
    {
        if str_byte_len(self.content) >= str_byte_len(other) {
            self.content
        } else {
            other
        }
    }
}

/// `x`, whatever `y` is: the result borrows from `x` alone.
pub fn combine_and_return<'a>(x: &'a str, y: &str) -> (r: &'a str)
    ensures
        r@ == x@,
{
    x
}

/// `i` is the position that `Iterator::max_by_key` picks by byte length: a
/// longest string, the last of them when several are equally long.
pub open spec fn is_last_longest(ss: Seq<&str>, i: int) -> bool {
    &&& 0 <= i < ss.len()
    &&& forall|j: int| 0 <= j < ss.len() ==> byte_len((#[trigger] ss[j])@) <= byte_len(ss[i]@)
    &&& forall|j: int| i < j < ss.len() ==> byte_len((#[trigger] ss[j])@) < byte_len(ss[i]@)
}

/// The longest string of `slice` by byte length, the last of them when
/// several are equally long; `None` for an empty slice.
pub fn longest_in_slice<'a, 'b>(slice: &'a [&'b str]) -> (r: Option<&'a &'b str>)
    ensures
        r is None <==> slice@.len() == 0,
        r matches Some(s) ==> exists|i: int| is_last_longest(slice@, i) && *s == slice@[i],
{
    if slice.len() == 0 {
        return None;
    }
    let mut best: usize = 0;
    let mut best_len: usize = str_byte_len(slice[0]);
    let mut i: usize = 1;
    while i < slice.len()
        invariant
            1 <= i <= slice@.len(),
            best < i,
            best_len == byte_len(slice@[best as int]@),
            forall|j: int| 0 <= j < i ==> byte_len((#[trigger] slice@[j])@) <= best_len,
            forall|j: int| best < j < i ==> byte_len((#[trigger] slice@[j])@) < best_len,
        decreases slice@.len() - i,
    {
        let n = str_byte_len(slice[i]);
        if n >= best_len {
            best = i;
            best_len = n;
        }
        i = i + 1;
    }
    assert(is_last_longest(slice@, best as int));
    Some(&slice[best])
}

/// A holder of borrowed text.
pub struct Holder<'a> {
    /// The borrowed text.
    pub data: &'a str,
}

impl<'a> Holder<'a> {
    /// A holder of `s`.
    pub fn new(s: &'a str) -> (h: Holder<'a>)
        ensures
            h.data@ == s@,
    {
        Holder { data: s }
    }

    /// The held text; the announcement is shown to the user by the caller,
    /// and the result does not borrow from it.
    pub fn announce_and_return<'b>(&self, announcement: &'b str) -> (r: &'a str)
        ensures
            r@ == self.data@,
    {
        self.data
    }
}

/// A new string that the caller owns.
pub fn generate_owned() -> (s: String)
    ensures
        s@ == "这条数据的生命周期由调用者管理"@,
{
    String::from_str("这条数据的生命周期由调用者管理")
}

/// `input` itself: the result borrows from the input.
pub fn process_existing<'a>(input: &'a str) -> (r: &'a str)
    ensures
        r@ == input@,
{
    input
}

} // verus!
