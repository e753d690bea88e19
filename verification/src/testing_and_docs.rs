//! Small, fully specified utilities: integer arithmetic, word counting and
//! palindromes.

use vstd::prelude::*;
use crate::text::{
    all_ws, chars_of, chars_equal, lemma_words_split, string_from_chars, word_spans_of, words,
};

verus! {

/// The sum of two integers.
pub fn add(a: i32, b: i32) -> (sum: i32)
    requires
        i32::MIN <= a + b <= i32::MAX,
    ensures
        sum == a + b,
{
    a + b
}

/// The product of two non-negative integers (negative arguments are rejected by
/// the caller's obligation; the product must fit in an `i32`).
pub fn multiply(a: i32, b: i32) -> (product: i32)
    requires
        a >= 0,
        b >= 0,
        a * b <= i32::MAX,
    ensures
        product == a * b,
{
    a * b
}

/// The number of whitespace-separated words of `text`.
pub fn word_count(text: &str) -> (n: usize)
    ensures
        n == words(text@).len(),
{
    let cs = chars_of(text);
    let spans = word_spans_of(&cs);
    spans.len()
}

/// Whether `s` reads the same forwards and backwards (case-sensitive).
pub fn is_palindrome(s: &str) -> (b: bool)
    ensures
        b == (s@.reverse() == s@),
{
    let reversed = reverse_string(s);
    let rc = chars_of(reversed.as_str());
    let sc = chars_of(s);
    chars_equal(rc.as_slice(), sc.as_slice())
}

/// The characters of `s` in reverse order.
pub fn reverse_string(s: &str) -> (r: String)
    ensures
        r@ == s@.reverse(),
{
    let cs = chars_of(s);
    let mut out: Vec<char> = Vec::new();
    let mut i: usize = cs.len();
    while i > 0
        invariant
            i <= cs@.len(),
            cs@ == s@,
            out@ == s@.subrange(i as int, s@.len() as int).reverse(),
        decreases i,
    {
        i = i - 1;
        out.push(cs[i]);
        assert(out@ =~= s@.subrange(i as int, s@.len() as int).reverse());
    }
    assert(s@.subrange(0, s@.len() as int) =~= s@);
    string_from_chars(out.as_slice())
}

/// Reversing twice gives back the original characters.
pub proof fn lemma_reverse_involutive(s: Seq<char>)
    ensures
        s.reverse().reverse() == s,
{
    assert(s.reverse().reverse() =~= s);
}

/// How `word_count` treats whitespace: a run of whitespace, however long,
/// separates the words on its two sides, and whitespace before the first or
/// after the last word adds no word.
pub proof fn lemma_word_count_whitespace(a: Seq<char>, w: Seq<char>, b: Seq<char>)
    requires
        w.len() > 0,
        all_ws(w),
    ensures
        words(a + w + b) == words(a) + words(b),
        words(a + w + b).len() == words(a).len() + words(b).len(),
        words(w + b) == words(b),
        words(a + w) == words(a),
{
    lemma_words_split(a, w, b);
    let e = Seq::<char>::empty();
    lemma_words_split(e, w, b);
    assert(e + w + b =~= w + b);
    assert(words(e) =~= seq![]);
    assert(words(e) + words(b) =~= words(b));
    lemma_words_split(a, w, e);
    assert(a + w + e =~= a + w);
    assert(words(a) + words(e) =~= words(a));
}

} // verus!
