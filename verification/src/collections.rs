//! Word statistics with collections: tokens of a text, a frequency table,
//! the most frequent words and the count of one word.

use vstd::prelude::*;
use vstd::string::*;
use crate::text::{
    alphanumeric, chars_of, is_alphanumeric, lowercase, split_whitespace, str_eq, str_views,
    string_from_chars, to_lowercase, words,
};
use crate::word_freq::{
    by_count, count_views, lemma_by_count_len, order_by_count, pair_views, tally, tally_words,
};

verus! {

/// The alphanumeric characters of `s`, in order.
pub open spec fn alnum_only(s: Seq<char>) -> Seq<char>
    decreases s.len(),
{
    if s.len() == 0 {
        seq![]
    } else {
        let p = alnum_only(s.drop_last());
        if alphanumeric(s.last()) {
            p.push(s.last())
        } else {
            p
        }
    }
}

/// The tokens of the words `ws`: each word lower-cased with its
/// non-alphanumeric characters removed; tokens left empty are dropped.
pub open spec fn tokens_of(ws: Seq<Seq<char>>) -> Seq<Seq<char>>
    decreases ws.len(),
{
    if ws.len() == 0 {
        seq![]
    } else {
        let p = tokens_of(ws.drop_last());
        let t = alnum_only(lowercase(ws.last()));
        if t.len() > 0 {
            p.push(t)
        } else {
            p
        }
    }
}

/// The views of a sequence of strings.
pub open spec fn string_views(v: Seq<String>) -> Seq<Seq<char>> {
    v.map_values(|s: String| s@)
}

fn alnum_chars(s: &str) -> (t: Vec<char>)
    ensures
        t@ == alnum_only(s@),
{
    let cs = chars_of(s);
    let mut t: Vec<char> = Vec::new();
    let mut i: usize = 0;
    assert(s@.take(0) =~= seq![]);
    while i < cs.len()
        invariant
            i <= cs@.len(),
            cs@ == s@,
            t@ == alnum_only(s@.take(i as int)),
        decreases cs@.len() - i,
    {
        assert(s@.take(i + 1).drop_last() =~= s@.take(i as int));
        assert(s@.take(i + 1).last() == cs[i as int]);
        if is_alphanumeric(cs[i]) {
            t.push(cs[i]);
        }
        i = i + 1;
    }
    assert(s@.take(i as int) =~= s@);
    t
}

/// The tokens of `text`: its words lower-cased, with non-alphanumeric
/// characters removed, empty tokens dropped.
pub fn tokenize(text: &str) -> (r: Vec<String>)
    ensures
        string_views(r@) == tokens_of(words(text@)),
{
    let ws = split_whitespace(text);
    let ghost wv = words(text@);
    let mut r: Vec<String> = Vec::new();
    let mut i: usize = 0;
    assert(wv.take(0) =~= seq![]);
    assert(string_views(r@) =~= seq![]);
    while i < ws.len()
        invariant
            i <= ws@.len(),
            wv == words(text@),
            ws@.len() == wv.len(),
            forall|k: int| 0 <= k < ws@.len() ==> (#[trigger] ws@[k])@ == wv[k],
            string_views(r@) == tokens_of(wv.take(i as int)),
        decreases ws@.len() - i,
    {
        assert(wv.take(i + 1).drop_last() =~= wv.take(i as int));
        assert(wv.take(i + 1).last() == ws[i as int]@);
        let lower = to_lowercase(ws[i]);
        let t = alnum_chars(lower.as_str());
        if t.len() > 0 {
            let ghost before = string_views(r@);
            r.push(string_from_chars(t.as_slice()));
            assert(string_views(r@) =~= before.push(t@));
        }
        i = i + 1;
    }
    assert(wv.take(i as int) =~= wv);
    r
}

/// Each distinct word of `words` with the number of times it occurs, in the
/// order the words first occur.
pub fn count_frequencies(words: &[String]) -> (r: Vec<(String, usize)>)
    ensures
        pair_views(r@) == tally(string_views(words@)),
{
    let mut refs: Vec<&str> = Vec::new();
    let mut i: usize = 0;
    while i < words.len()
        invariant
            i <= words@.len(),
            refs@.len() == i,
            forall|k: int| 0 <= k < i ==> (#[trigger] refs@[k])@ == words@[k]@,
        decreases words@.len() - i,
    {
        refs.push(words[i].as_str());
        i = i + 1;
    }
    assert(str_views(refs@) =~= string_views(words@));
    let t = tally_words(&refs);
    let mut r: Vec<(String, usize)> = Vec::new();
    let mut j: usize = 0;
    while j < t.len()
        invariant
            j <= t@.len(),
            r@.len() == j,
            forall|k: int| 0 <= k < j ==> (#[trigger] r@[k]).0@ == t@[k].0@ && r@[k].1 == t@[k].1,
        decreases t@.len() - j,
    {
        r.push((String::from_str(t[j].0), t[j].1));
        j = j + 1;
    }
    assert(pair_views(r@) =~= count_views(t@));
    r
}

/// The `n` most frequent entries of `freq`, the most frequent first; equal
/// counts keep their order in `freq`.
pub fn get_top_n(freq: &Vec<(String, usize)>, n: usize) -> (r: Vec<(String, usize)>)
    ensures
        pair_views(r@) == by_count(pair_views(freq@)).take(
            if n <= freq@.len() { n as int } else { freq@.len() as int },
        ),
{
    let mut entries: Vec<(String, usize)> = Vec::new();
    let mut i: usize = 0;
    while i < freq.len()
        invariant
            i <= freq@.len(),
            entries@.len() == i,
            forall|k: int|
                0 <= k < i ==> (#[trigger] entries@[k]).0@ == freq@[k].0@ && entries@[k].1
                    == freq@[k].1,
        decreases freq@.len() - i,
    {
        entries.push((freq[i].0.clone(), freq[i].1));
        i = i + 1;
    }
    assert(pair_views(entries@) =~= pair_views(freq@));
    let mut sorted = order_by_count(entries);
    proof {
        lemma_by_count_len(pair_views(freq@));
    }
    sorted.truncate(n);
    assert(pair_views(sorted@) =~= by_count(pair_views(freq@)).take(
        if n <= freq@.len() { n as int } else { freq@.len() as int },
    ));
    sorted
}

/// The count of `word` in `freq`: that of the first entry with that key.
pub fn search_word<'a>(freq: &'a Vec<(String, usize)>, word: &str) -> (r: Option<&'a usize>)
    ensures
        r is None <==> forall|i: int| 0 <= i < freq@.len() ==> (#[trigger] freq@[i]).0@ != word@,
        r matches Some(c) ==> exists|i: int|
            0 <= i < freq@.len() && (#[trigger] freq@[i]).0@ == word@ && freq@[i].1 == *c
                && forall|j: int| 0 <= j < i ==> (#[trigger] freq@[j]).0@ != word@,
{
    let mut i: usize = 0;
    while i < freq.len()
        invariant
            i <= freq@.len(),
            forall|j: int| 0 <= j < i ==> (#[trigger] freq@[j]).0@ != word@,
        decreases freq@.len() - i,
    {
        if str_eq(freq[i].0.as_str(), word) {
            return Some(&freq[i].1);
        }
        i = i + 1;
    }
    None
}

} // verus!
