//! A text analyzer: characters, words, the longest and the first word, a
//! keyword search, word frequencies and a summary report.

use vstd::prelude::*;
use crate::text::{
    chars_of, decimal, decimal_chars, pad_left, push_pad_left, push_str_chars, seq_contains,
    split_whitespace, str_contains, str_views, string_from_chars, words,
};
use crate::word_freq::{
    by_count_then_key, count_views, lemma_tally_distinct, order_by_count_then_key, tally,
    tally_words,
};

verus! {

/// The number of characters (Unicode scalar values) of `text`.
pub fn count_chars(text: &str) -> (n: usize)
    ensures
        n == text@.len(),
{
    chars_of(text).len()
}

/// The number of whitespace-separated words of `text`.
pub fn count_words(text: &str) -> (n: usize)
    ensures
        n == words(text@).len(),
{
    split_whitespace(text).len()
}

/// `i` is the word of `ws` that `Iterator::max_by_key` picks by number of
/// characters: a longest word, the last of them on a tie.
pub open spec fn is_last_longest_word(ws: Seq<Seq<char>>, i: int) -> bool {
    &&& 0 <= i < ws.len()
    &&& forall|j: int| 0 <= j < ws.len() ==> (#[trigger] ws[j]).len() <= ws[i].len()
    &&& forall|j: int| i < j < ws.len() ==> (#[trigger] ws[j]).len() < ws[i].len()
}

/// The longest word of `t` by characters, the last of them on a tie.
pub open spec fn longest_word_of(t: Seq<char>) -> Option<Seq<char>> {
    if words(t).len() == 0 {
        None
    } else {
        Some(words(t)[choose|i: int| is_last_longest_word(words(t), i)])
    }
}

/// There is one last longest word.
pub proof fn lemma_last_longest_unique(ws: Seq<Seq<char>>, i: int)
    requires
        is_last_longest_word(ws, i),
    ensures
        (choose|k: int| is_last_longest_word(ws, k)) == i,
{
    let k = choose|k: int| is_last_longest_word(ws, k);
    assert(is_last_longest_word(ws, k));
    if k < i {
        assert(ws[i].len() < ws[k].len());
    } else if i < k {
        assert(ws[k].len() < ws[i].len());
    }
}

/// A non-empty list of words has a last longest word.
proof fn last_longest_index(ws: Seq<Seq<char>>) -> (i: int)
    requires
        ws.len() > 0,
    ensures
        is_last_longest_word(ws, i),
    decreases ws.len(),
{
    if ws.len() == 1 {
        0
    } else {
        let p = ws.drop_last();
        let i0 = last_longest_index(p);
        let n = ws.len() - 1;
        assert(forall|j: int| 0 <= j < n ==> #[trigger] ws[j] == p[j]);
        if ws[n].len() >= ws[i0].len() {
            n
        } else {
            i0
        }
    }
}

/// What the longest word is: a word of the text with at least as many
/// characters (Unicode scalar values, not bytes) as every word of the text,
/// and more than every word after it; a text has none exactly when it has no
/// words.
pub proof fn lemma_longest_word_has_most_chars(t: Seq<char>)
    ensures
        longest_word_of(t) is None <==> words(t).len() == 0,
        longest_word_of(t) matches Some(w) ==> exists|i: int|
            0 <= i < words(t).len() && #[trigger] words(t)[i] == w && (forall|j: int|
                0 <= j < words(t).len() ==> words(t)[j].len() <= w.len()) && (forall|j: int|
                i < j < words(t).len() ==> words(t)[j].len() < w.len()),
{
    let ws = words(t);
    if ws.len() > 0 {
        let i = last_longest_index(ws);
        lemma_last_longest_unique(ws, i);
        assert(longest_word_of(t) == Some(ws[i]));
        assert(ws[i] == ws[i]);
    }
}

/// The longest word of `text` by number of characters, the last of them on
/// a tie; `None` when `text` has no words.
pub fn find_longest_word(text: &str) -> (r: Option<&str>)
    ensures
        r is None <==> longest_word_of(text@) is None,
        r matches Some(w) ==> longest_word_of(text@) == Some(w@),
{
    let ws = split_whitespace(text);
    if ws.len() == 0 {
        return None;
    }
    let ghost wv = words(text@);
    let mut best: usize = 0;
    let mut best_len: usize = chars_of(ws[0]).len();
    let mut i: usize = 1;
    while i < ws.len()
        invariant
            1 <= i <= ws@.len(),
            wv == words(text@),
            ws@.len() == wv.len(),
            forall|k: int| 0 <= k < ws@.len() ==> (#[trigger] ws@[k])@ == wv[k],
            best < i,
            best_len == wv[best as int].len(),
            forall|j: int| 0 <= j < i ==> (#[trigger] wv[j]).len() <= best_len,
            forall|j: int| best < j < i ==> (#[trigger] wv[j]).len() < best_len,
        decreases ws@.len() - i,
    {
        let n = chars_of(ws[i]).len();
        if n >= best_len {
            best = i;
            best_len = n;
        }
        i = i + 1;
    }
    proof {
        lemma_last_longest_unique(wv, best as int);
    }
    Some(ws[best])
}

/// The first word of `text`, if it has one.
pub fn first_word(text: &str) -> (r: Option<&str>)
    ensures
        r is None <==> words(text@).len() == 0,
        r matches Some(w) ==> w@ == words(text@)[0],
{
    let ws = split_whitespace(text);
    if ws.len() == 0 {
        None
    } else {
        Some(ws[0])
    }
}

/// Whether `keyword` occurs in `text`.
pub fn contains_keyword(text: &str, keyword: &str) -> (b: bool)
    ensures
        b == seq_contains(text@, keyword@),
{
    str_contains(text, keyword)
}

/// Each distinct word of `text` with the number of times it occurs, the
/// most frequent first and equally frequent words in key order.
pub fn count_word_frequency(text: &str) -> (r: Vec<(&str, usize)>)
    ensures
        count_views(r@) == by_count_then_key(tally(words(text@))),
{
    let ws = split_whitespace(text);
    assert(str_views(ws@) =~= words(text@));
    let t = tally_words(&ws);
    proof {
        lemma_tally_distinct(words(text@));
    }
    order_by_count_then_key(t)
}

/// The report's opening: the header and the character and word counts.
pub open spec fn summary_head(chars: nat, words_n: nat) -> Seq<char> {
    "╔══════════════════ 文本分析报告 ══════════════════╗\n║  字符总数（Unicode）: "@
        + pad_left(decimal(chars), 5) + "                       ║\n║  单词总数           : "@
        + pad_left(decimal(words_n), 5) + "                       ║\n"@
}

/// The report's line on the longest word.
pub open spec fn summary_longest(longest: Option<Seq<char>>) -> Seq<char> {
    match longest {
        Some(w) => "║  最长单词           : "@ + w + " ("@ + decimal(w.len()) + " 字符)        ║\n"@,
        None => "║  最长单词           : (无)                       ║\n"@,
    }
}

/// The report's line on the first word.
pub open spec fn summary_first(first: Option<Seq<char>>) -> Seq<char> {
    match first {
        Some(w) => "║  第一个单词         : "@ + w + "                           ║\n"@,
        None => "║  第一个单词         : (无)                       ║\n"@,
    }
}

/// The first word of `t`, if it has one.
pub open spec fn first_word_of(t: Seq<char>) -> Option<Seq<char>> {
    if words(t).len() == 0 {
        None
    } else {
        Some(words(t)[0])
    }
}

/// The summary report of `t`.
pub open spec fn summary_text(t: Seq<char>) -> Seq<char> {
    summary_head(t.len(), words(t).len()) + summary_longest(longest_word_of(t)) + summary_first(
        first_word_of(t),
    ) + "╚══════════════════════════════════════════════════╝\n"@
}

/// The summary report of `text`: its character and word counts, its longest
/// and its first word.
pub fn summarize_text(text: &str) -> (s: String)
    ensures
        s@ == summary_text(text@),
{
    let char_count = count_chars(text);
    let word_count = count_words(text);
    let longest = find_longest_word(text);
    let first = first_word(text);
    let mut out: Vec<char> = Vec::new();
    push_str_chars(&mut out, "╔══════════════════ 文本分析报告 ══════════════════╗\n║  字符总数（Unicode）: ");
    push_pad_left(&mut out, &decimal_chars(char_count as u64), 5);
    push_str_chars(&mut out, "                       ║\n║  单词总数           : ");
    push_pad_left(&mut out, &decimal_chars(word_count as u64), 5);
    push_str_chars(&mut out, "                       ║\n");
    assert(out@ =~= summary_head(text@.len(), words(text@).len()));
    let ghost head = out@;
    match longest {
        Some(w) => {
            push_str_chars(&mut out, "║  最长单词           : ");
            push_str_chars(&mut out, w);
            push_str_chars(&mut out, " (");
            let n = chars_of(w).len();
            push_str_chars(&mut out, string_from_chars(decimal_chars(n as u64).as_slice()).as_str());
            push_str_chars(&mut out, " 字符)        ║\n");
        },
        None => {
            push_str_chars(&mut out, "║  最长单词           : (无)                       ║\n");
        },
    }
    assert(out@ =~= head + summary_longest(longest_word_of(text@)));
    let ghost mid = out@;
    match first {
        Some(w) => {
            push_str_chars(&mut out, "║  第一个单词         : ");
            push_str_chars(&mut out, w);
            push_str_chars(&mut out, "                           ║\n");
        },
        None => {
            push_str_chars(&mut out, "║  第一个单词         : (无)                       ║\n");
        },
    }
    assert(out@ =~= mid + summary_first(first_word_of(text@)));
    push_str_chars(&mut out, "╚══════════════════════════════════════════════════╝\n");
    string_from_chars(out.as_slice())
}

} // verus!
