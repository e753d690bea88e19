//! Words of a text handled through closures and iterator-style helpers:
//! word statistics computed twice (with a plain loop and in iterator style),
//! mapping, filtering and consuming the words, word frequencies, and the words
//! that contain a given text.

use vstd::prelude::*;
use crate::text::{
    chars_of, join_spaced, join_with_spaces, lemma_word_spans_wf, seq_contains, split_whitespace,
    str_contains, str_views, word_spans, word_spans_of, words,
};
use crate::word_freq::{by_count, count_views, order_by_count, pair_views, tally, tally_words};

verus! {

/// The number of characters in all of `ws` together.
pub open spec fn total_len(ws: Seq<Seq<char>>) -> nat
    decreases ws.len(),
{
    if ws.len() == 0 {
        0
    } else {
        total_len(ws.drop_last()) + ws.last().len()
    }
}

/// The number of characters of the longest of `ws`; 0 when `ws` is empty.
pub open spec fn longest_len(ws: Seq<Seq<char>>) -> nat
    decreases ws.len(),
{
    if ws.len() == 0 {
        0
    } else if ws.last().len() > longest_len(ws.drop_last()) {
        ws.last().len()
    } else {
        longest_len(ws.drop_last())
    }
}

/// Word statistics of a text. The average word length is
/// `total_word_len / word_count`, or 0 for a text without words.
#[derive(Debug, Clone, Copy, PartialEq, Eq, Structural)]
pub struct Stats {
    /// How many words the text has.
    pub word_count: usize,
    /// How many characters its words have, whitespace not counted.
    pub char_count: usize,
    /// How many characters its longest word has.
    pub longest_word_len: usize,
    /// The sum of the word lengths, from which the average is taken.
    pub total_word_len: usize,
}

/// `st` holds the word statistics of the text `t`.
pub open spec fn is_stats_of(st: Stats, t: Seq<char>) -> bool {
    &&& st.word_count == words(t).len()
    &&& st.char_count == total_len(words(t))
    &&& st.longest_word_len == longest_len(words(t))
    &&& st.total_word_len == total_len(words(t))
}

/// The first `k` words of `s` have no more characters together than reach up
/// to the end of the `k`-th word.
proof fn lemma_prefix_total_len(s: Seq<char>, k: int)
    requires
        0 <= k <= word_spans(s).len(),
    ensures
        k == 0 ==> total_len(words(s).take(k)) == 0,
        k > 0 ==> total_len(words(s).take(k)) <= word_spans(s)[k - 1].1,
        total_len(words(s).take(k)) <= s.len(),
    decreases k,
{
    lemma_word_spans_wf(s);
    let ws = words(s);
    if k > 0 {
        lemma_prefix_total_len(s, k - 1);
        assert(ws.take(k).drop_last() =~= ws.take(k - 1));
        let sp = word_spans(s)[k - 1];
        assert(ws[k - 1] == s.subrange(sp.0, sp.1));
        if k > 1 {
            assert(word_spans(s)[k - 2].1 < word_spans(s)[k - 1].0);
        }
    }
}

/// The word statistics of `text`, counted in one loop over its words.
pub fn text_stats_imperative(text: &str) -> (st: Stats)
    ensures
        is_stats_of(st, text@),
{
    let cs = chars_of(text);
    let spans = word_spans_of(&cs);
    let ghost ws = words(text@);
    proof {
        lemma_word_spans_wf(text@);
    }
    let mut word_count: usize = 0;
    let mut char_count: usize = 0;
    let mut longest_word_len: usize = 0;
    let mut total_word_len: usize = 0;
    let mut i: usize = 0;
    while i < spans.len()
        invariant
            i <= spans@.len(),
            cs@ == text@,
            ws == words(text@),
            spans@.len() == word_spans(text@).len(),
            forall|m: int|
                0 <= m < spans@.len() ==> (#[trigger] spans@[m]).0 == word_spans(text@)[m].0
                    && spans@[m].1 == word_spans(text@)[m].1,
            forall|m: int|
                0 <= m < word_spans(text@).len() ==> 0 <= #[trigger] word_spans(text@)[m].0
                    < word_spans(text@)[m].1 <= text@.len(),
            word_count == i,
            char_count == total_len(ws.take(i as int)),
            total_word_len == total_len(ws.take(i as int)),
            longest_word_len == longest_len(ws.take(i as int)),
        decreases spans@.len() - i,
    {
        let (b, e) = spans[i];
        let len = e - b;
        proof {
            lemma_prefix_total_len(text@, i + 1);
            assert(ws.take(i + 1).drop_last() =~= ws.take(i as int));
            assert(ws[i as int] == text@.subrange(b as int, e as int));
        }
        word_count = word_count + 1;
        char_count = char_count + len;
        total_word_len = total_word_len + len;
        if len > longest_word_len {
            longest_word_len = len;
        }
        i = i + 1;
    }
    assert(ws.take(i as int) =~= ws);
    Stats { word_count, char_count, longest_word_len, total_word_len }
}

/// The word statistics of `text`, taken word by word over the list of its
/// words: the same statistics as `text_stats_imperative`.
pub fn text_stats_iterator(text: &str) -> (st: Stats)
    ensures
        is_stats_of(st, text@),
{
    let ghost ws = words(text@);
    let words_of = split_whitespace(text);
    let _text_len = text.unicode_len();
    let word_count = words_of.len();
    let mut char_count: usize = 0;
    let mut longest_word_len: usize = 0;
    let mut i: usize = 0;
    proof {
        lemma_word_spans_wf(text@);
    }
    while i < words_of.len()
        invariant
            i <= words_of@.len(),
            ws == words(text@),
            words_of@.len() == ws.len(),
            ws.len() == word_spans(text@).len(),
            _text_len == text@.len(),
            forall|k: int| 0 <= k < words_of@.len() ==> (#[trigger] words_of@[k])@ == ws[k],
            char_count == total_len(ws.take(i as int)),
            longest_word_len == longest_len(ws.take(i as int)),
        decreases words_of@.len() - i,
    {
        let len = words_of[i].unicode_len();
        proof {
            lemma_prefix_total_len(text@, i + 1);
            assert(ws.take(i + 1).drop_last() =~= ws.take(i as int));
            assert(ws.take(i + 1).last() == ws[i as int]);
        }
        char_count = char_count + len;
        longest_word_len = if len > longest_word_len {
            len
        } else {
            longest_word_len
        };
        i = i + 1;
    }
    assert(ws.take(i as int) =~= ws);
    Stats { word_count, char_count, longest_word_len, total_word_len: char_count }
}

/// `rs` are results that `f` can give on the slices `ws`, one by one.
pub open spec fn applied<F: Fn(&str) -> String>(f: F, ws: Seq<&str>, rs: Seq<String>) -> bool {
    &&& rs.len() == ws.len()
    &&& forall|i: int| 0 <= i < rs.len() ==> f.ensures((ws[i],), #[trigger] rs[i])
}

/// `f` applied to each word of `text`, in order.
pub fn apply_to_words<F>(text: &str, f: F) -> (r: Vec<String>)
    where
        F: Fn(&str) -> String,
    requires
        forall|w: &str| f.requires((w,)),
    ensures
        exists|ws: Seq<&str>| #[trigger] str_views(ws) == words(text@) && applied(f, ws, r@),
{
    let ws = split_whitespace(text);
    let mut r: Vec<String> = Vec::new();
    let mut i: usize = 0;
    while i < ws.len()
        invariant
            i <= ws@.len(),
            ws@.len() == words(text@).len(),
            forall|k: int| 0 <= k < ws@.len() ==> (#[trigger] ws@[k])@ == words(text@)[k],
            forall|w: &str| f.requires((w,)),
            r@.len() == i,
            forall|k: int| 0 <= k < i ==> f.ensures((ws@[k],), #[trigger] r@[k]),
        decreases ws@.len() - i,
    {
        let w = ws[i];
        let out = f(w);
        r.push(out);
        i = i + 1;
    }
    assert(str_views(ws@) =~= words(text@));
    assert(applied(f, ws@, r@));
    r
}

/// The words of `ws` whose outcome in `outs` is `true`, in order.
pub open spec fn kept(ws: Seq<Seq<char>>, outs: Seq<bool>) -> Seq<Seq<char>>
    decreases ws.len(),
{
    if ws.len() == 0 || outs.len() != ws.len() {
        seq![]
    } else {
        let p = kept(ws.drop_last(), outs.drop_last());
        if outs.last() {
            p.push(ws.last())
        } else {
            p
        }
    }
}

/// `outs` are answers that `predicate` can give on the words `items`, one by
/// one.
pub open spec fn answered<F: FnMut(&&str) -> bool>(
    predicate: F,
    items: Seq<&str>,
    outs: Seq<bool>,
) -> bool {
    &&& outs.len() == items.len()
    &&& forall|i: int| 0 <= i < items.len() ==> predicate.ensures((&items[i],), #[trigger] outs[i])
}

/// The words of `text` for which `predicate` answers `true`, in order.  The
/// predicate may change its own state from call to call; it is asked about
/// each word once, in order.
pub fn filter_words<'a, F>(text: &'a str, mut predicate: F) -> (r: Vec<&'a str>)
    where
        F: FnMut(&&str) -> bool,
    requires
        forall|w: &&str| predicate.requires((w,)),
    ensures
        exists|items: Seq<&str>, outs: Seq<bool>|
            #![trigger answered(predicate, items, outs)]
            str_views(items) == words(text@) && answered(predicate, items, outs) && str_views(r@)
                == kept(words(text@), outs),
{
    let ghost p0 = predicate;
    let ws = split_whitespace(text);
    let ghost wv = words(text@);
    let mut r: Vec<&'a str> = Vec::new();
    let ghost mut outs: Seq<bool> = seq![];
    let mut i: usize = 0;
    assert(wv.take(0) =~= seq![]);
    assert(str_views(r@) =~= seq![]);
    while i < ws.len()
        invariant
            i <= ws@.len(),
            wv == words(text@),
            ws@.len() == wv.len(),
            forall|k: int| 0 <= k < ws@.len() ==> (#[trigger] ws@[k])@ == wv[k],
            forall|w: &&str| predicate.requires((w,)),
            predicate == p0,
            outs.len() == i,
            forall|k: int| 0 <= k < i ==> predicate.ensures((&ws@[k],), #[trigger] outs[k]),
            str_views(r@) == kept(wv.take(i as int), outs),
        decreases ws@.len() - i,
    {
        let w = ws[i];
        let keep = predicate(&w);
        let ghost before = str_views(r@);
        let ghost old_outs = outs;
        if keep {
            r.push(w);
        }
        proof {
            outs = outs.push(keep);
            assert(wv.take(i + 1).drop_last() =~= wv.take(i as int));
            assert(outs.drop_last() =~= old_outs);
            assert(wv.take(i + 1).last() == w@);
            if keep {
                assert(str_views(r@) =~= before.push(w@));
            } else {
                assert(str_views(r@) =~= before);
            }
        }
        i = i + 1;
    }
    assert(wv.take(i as int) =~= wv);
    assert(str_views(ws@) =~= wv);
    assert(answered(predicate, ws@, outs));
    r
}

/// Hands `consumer` the words of `text` joined by single spaces.
pub fn consume_words<F>(text: &str, consumer: F)
    where
        F: FnOnce(String),
    requires
        forall|s: String| consumer.requires((s,)),
    ensures
        exists|s: String| s@ == join_spaced(words(text@)) && consumer.ensures((s,), ()),
{
    let ws = split_whitespace(text);
    assert(ws@.map_values(|w: &str| w@) =~= words(text@));
    let all = join_with_spaces(&ws);
    consumer(all);
}

/// Each distinct word of `text` with the number of times it occurs, the
/// most frequent first; equally frequent words in the order they first occur.
pub fn word_frequency(text: &str) -> (r: Vec<(&str, usize)>)
    ensures
        count_views(r@) == by_count(tally(words(text@))),
{
    let ws = split_whitespace(text);
    assert(str_views(ws@) =~= words(text@));
    let t = tally_words(&ws);
    assert(pair_views(t@) =~= count_views(t@));
    let r = order_by_count(t);
    assert(pair_views(r@) =~= count_views(r@));
    r
}

/// The words of `ws` that contain `sub`, in order.
pub open spec fn containing(ws: Seq<Seq<char>>, sub: Seq<char>) -> Seq<Seq<char>>
    decreases ws.len(),
{
    if ws.len() == 0 {
        seq![]
    } else {
        let p = containing(ws.drop_last(), sub);
        if seq_contains(ws.last(), sub) {
            p.push(ws.last())
        } else {
            p
        }
    }
}

/// The words of `text` that contain `substr`, in order.
pub fn find_words_containing<'a>(text: &'a str, substr: &str) -> (r: Vec<&'a str>)
    ensures
        str_views(r@) == containing(words(text@), substr@),
{
    let ws = split_whitespace(text);
    let ghost wv = words(text@);
    let mut r: Vec<&'a str> = Vec::new();
    let mut i: usize = 0;
    assert(wv.take(0) =~= seq![]);
    assert(str_views(r@) =~= seq![]);
    while i < ws.len()
        invariant
            i <= ws@.len(),
            wv == words(text@),
            ws@.len() == wv.len(),
            forall|k: int| 0 <= k < ws@.len() ==> (#[trigger] ws@[k])@ == wv[k],
            str_views(r@) == containing(wv.take(i as int), substr@),
        decreases ws@.len() - i,
    {
        assert(wv.take(i + 1).drop_last() =~= wv.take(i as int));
        assert(wv.take(i + 1).last() == ws[i as int]@);
        if str_contains(ws[i], substr) {
            let ghost before = str_views(r@);
            r.push(ws[i]);
            assert(str_views(r@) =~= before.push(ws[i as int]@));
        }
        i = i + 1;
    }
    assert(wv.take(i as int) =~= wv);
    r
}

} // verus!
