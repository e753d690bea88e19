//! Statistics of texts analysed in parallel: the per-text statistics, the
//! decision a worker takes on one text, the totals over the texts, and the
//! merging of word counts into a shared table.  Spawning the workers and the
//! channel or lock between them belong to the program around it.

use vstd::prelude::*;
use vstd::string::*;
use crate::collections::{count_frequencies, get_top_n, string_views};
use crate::text::{
    alphanumeric, chars_of, is_alphanumeric, lowercase, split_whitespace, str_eq, string_from_chars,
    to_lowercase, trim, trim_str, words,
};
use crate::word_freq::{
    by_count, count_in, distinct_keys, distinct_words, lemma_distinct_words, lemma_total_count_bump,
    pair_views, tally, total_count,
};

verus! {

/// The statistics of one text.
#[derive(Debug)]
pub struct FileStats {
    /// The text's name.
    pub path: String,
    /// Its number of characters.
    pub chars: usize,
    /// Its number of whitespace-separated words.
    pub words: usize,
    /// Its number of lines: the pieces between `'\n'`s, a last empty one
    /// included.
    pub lines: usize,
    /// Its five most frequent tokens (words lower-cased, punctuation stripped
    /// at both ends) with their counts.
    pub top_words: Vec<(String, usize)>,
}

/// At most the first five entries of `es`.
pub open spec fn first_five(es: Seq<(Seq<char>, nat)>) -> Seq<(Seq<char>, nat)> {
    if es.len() <= 5 {
        es
    } else {
        es.take(5)
    }
}

/// The number of `'\n'` characters of `s`.
pub open spec fn newline_count(s: Seq<char>) -> nat
    decreases s.len(),
{
    if s.len() == 0 {
        0
    } else if s.last() == '\n' {
        newline_count(s.drop_last()) + 1
    } else {
        newline_count(s.drop_last())
    }
}

/// The number of lines of `s`: the pieces that splitting it at each `'\n'`
/// gives, a last empty piece included.
pub open spec fn line_count(s: Seq<char>) -> nat {
    newline_count(s) + 1
}

/// `s` without the non-alphanumeric characters at its start.
pub open spec fn trim_non_alnum_start(s: Seq<char>) -> Seq<char>
    decreases s.len(),
{
    if s.len() > 0 && !alphanumeric(s[0]) {
        trim_non_alnum_start(s.drop_first())
    } else {
        s
    }
}

/// `s` without the non-alphanumeric characters at its end.
pub open spec fn trim_non_alnum_end(s: Seq<char>) -> Seq<char>
    decreases s.len(),
{
    if s.len() > 0 && !alphanumeric(s.last()) {
        trim_non_alnum_end(s.drop_last())
    } else {
        s
    }
}

/// The token that a word counts as in the statistics: lower-cased, with the
/// punctuation at its start and end stripped; inner characters stay.
pub open spec fn stat_token(w: Seq<char>) -> Seq<char> {
    trim_non_alnum_end(trim_non_alnum_start(lowercase(w)))
}

/// The tokens of the words `ws` (`stat_token`), empty ones dropped.
pub open spec fn stat_tokens(ws: Seq<Seq<char>>) -> Seq<Seq<char>>
    decreases ws.len(),
{
    if ws.len() == 0 {
        seq![]
    } else {
        let p = stat_tokens(ws.drop_last());
        let t = stat_token(ws.last());
        if t.len() > 0 {
            p.push(t)
        } else {
            p
        }
    }
}

/// Trimming the start drops exactly the non-alphanumeric characters before
/// the first alphanumeric one: the result is `s` from position `i` on, every
/// character before `i` is not alphanumeric, and the one at `i` is.
pub proof fn lemma_trim_start_drops_leading_punctuation(s: Seq<char>) -> (i: int)
    ensures
        0 <= i <= s.len(),
        trim_non_alnum_start(s) == s.subrange(i, s.len() as int),
        forall|k: int| 0 <= k < i ==> !alphanumeric(#[trigger] s[k]),
        i < s.len() ==> alphanumeric(s[i]),
    decreases s.len(),
{
    if s.len() > 0 && !alphanumeric(s[0]) {
        let d = s.drop_first();
        let i0 = lemma_trim_start_drops_leading_punctuation(d);
        assert(d.subrange(i0, d.len() as int) =~= s.subrange(i0 + 1, s.len() as int));
        assert forall|k: int| 0 <= k < i0 + 1 implies !alphanumeric(#[trigger] s[k]) by {
            if k > 0 {
                assert(s[k] == d[k - 1]);
            }
        }
        i0 + 1
    } else {
        assert(s.subrange(0, s.len() as int) =~= s);
        0
    }
}

/// Trimming the end drops exactly the non-alphanumeric characters after the
/// last alphanumeric one: the result is the first `j` characters of `s`,
/// every character from `j` on is not alphanumeric, and the one before `j` is.
pub proof fn lemma_trim_end_drops_trailing_punctuation(s: Seq<char>) -> (j: int)
    ensures
        0 <= j <= s.len(),
        trim_non_alnum_end(s) == s.take(j),
        forall|k: int| j <= k < s.len() ==> !alphanumeric(#[trigger] s[k]),
        j > 0 ==> alphanumeric(s[j - 1]),
    decreases s.len(),
{
    if s.len() > 0 && !alphanumeric(s.last()) {
        let d = s.drop_last();
        let j0 = lemma_trim_end_drops_trailing_punctuation(d);
        assert(d.take(j0) =~= s.take(j0));
        assert forall|k: int| j0 <= k < s.len() implies !alphanumeric(#[trigger] s[k]) by {
            if k < d.len() {
                assert(s[k] == d[k]);
            }
        }
        j0
    } else {
        assert(s.take(s.len() as int) =~= s);
        s.len() as int
    }
}

/// The token of a word is the stretch of its lower-cased form from its first
/// to its last alphanumeric character: nothing alphanumeric is dropped, and
/// what is kept starts and ends with an alphanumeric character.
pub proof fn lemma_stat_token_is_alnum_stretch(w: Seq<char>)
    ensures
        exists|i: int, j: int|
            #![trigger lowercase(w).subrange(i, j)]
            0 <= i <= j <= lowercase(w).len() && stat_token(w) == lowercase(w).subrange(i, j)
                && (forall|k: int| 0 <= k < i ==> !alphanumeric(#[trigger] lowercase(w)[k]))
                && (forall|k: int| j <= k < lowercase(w).len() ==> !alphanumeric(
                #[trigger] lowercase(w)[k],
            )) && (i < j ==> alphanumeric(lowercase(w)[i]) && alphanumeric(lowercase(w)[j - 1])),
{
    let l = lowercase(w);
    let i = lemma_trim_start_drops_leading_punctuation(l);
    let m = l.subrange(i, l.len() as int);
    let j0 = lemma_trim_end_drops_trailing_punctuation(m);
    assert(m.take(j0) =~= l.subrange(i, i + j0));
    assert forall|k: int| i + j0 <= k < l.len() implies !alphanumeric(#[trigger] l[k]) by {
        assert(l[k] == m[k - i]);
    }
    if j0 > 0 {
        assert(l[i + j0 - 1] == m[j0 - 1]);
    }
    assert(stat_token(w) == l.subrange(i, i + j0));
}

/// Every counted token is non-empty and begins and ends with an
/// alphanumeric character: punctuation around a word is never counted.
pub proof fn lemma_stat_tokens_trimmed(ws: Seq<Seq<char>>)
    ensures
        forall|k: int|
            0 <= k < stat_tokens(ws).len() ==> (#[trigger] stat_tokens(ws)[k]).len() > 0
                && alphanumeric(stat_tokens(ws)[k][0]) && alphanumeric(stat_tokens(ws)[k].last()),
    decreases ws.len(),
{
    if ws.len() > 0 {
        let p = ws.drop_last();
        lemma_stat_tokens_trimmed(p);
        lemma_stat_token_is_alnum_stretch(ws.last());
        let ts = stat_tokens(ws);
        let tp = stat_tokens(p);
        assert forall|k: int| 0 <= k < ts.len() implies (#[trigger] ts[k]).len() > 0
            && alphanumeric(ts[k][0]) && alphanumeric(ts[k].last()) by {
            if k < tp.len() {
                assert(ts[k] == tp[k]);
            } else {
                let l = lowercase(ws.last());
                let (i, j) = choose|i: int, j: int|
                    #![trigger l.subrange(i, j)]
                    0 <= i <= j <= l.len() && stat_token(ws.last()) == l.subrange(i, j)
                        && (forall|k: int| 0 <= k < i ==> !alphanumeric(#[trigger] l[k]))
                        && (forall|k: int| j <= k < l.len() ==> !alphanumeric(#[trigger] l[k]))
                        && (i < j ==> alphanumeric(l[i]) && alphanumeric(l[j - 1]));
                assert(ts[k] == stat_token(ws.last()));
                assert(ts[k][0] == l[i]);
                assert(ts[k].last() == l[j - 1]);
            }
        }
    }
}

/// The start of every line of `cs`: 0 and the index after each `'\n'`.
fn line_starts(cs: &Vec<char>) -> (starts: Vec<usize>)
    ensures
        starts@.len() == line_count(cs@),
{
    let mut starts: Vec<usize> = Vec::new();
    starts.push(0);
    let mut i: usize = 0;
    assert(cs@.take(0) =~= Seq::<char>::empty());
    while i < cs.len()
        invariant
            i <= cs@.len(),
            starts@.len() == newline_count(cs@.take(i as int)) + 1,
        decreases cs@.len() - i,
    {
        assert(cs@.take(i + 1).drop_last() =~= cs@.take(i as int));
        if cs[i] == '\n' {
            starts.push(i + 1);
        }
        i = i + 1;
    }
    assert(cs@.take(i as int) =~= cs@);
    starts
}

/// The token of the word `w`: `stat_token`.
fn word_token(w: &str) -> (t: Vec<char>)
    ensures
        t@ == stat_token(w@),
{
    let lower = to_lowercase(w);
    let cs = chars_of(lower.as_str());
    let ghost s = cs@;
    let n = cs.len();
    let mut i: usize = 0;
    assert(s.subrange(0, n as int) =~= s);
    while i < n && !is_alphanumeric(cs[i])
        invariant
            i <= n,
            n == s.len(),
            cs@ == s,
            trim_non_alnum_start(s) == trim_non_alnum_start(s.subrange(i as int, n as int)),
        decreases n - i,
    {
        assert(s.subrange(i as int, n as int).drop_first() =~= s.subrange(i + 1, n as int));
        i = i + 1;
    }
    assert(trim_non_alnum_start(s.subrange(i as int, n as int)) == s.subrange(i as int, n as int));
    let mut j: usize = n;
    while j > i && !is_alphanumeric(cs[j - 1])
        invariant
            i <= j <= n,
            n == s.len(),
            cs@ == s,
            trim_non_alnum_end(s.subrange(i as int, n as int)) == trim_non_alnum_end(
                s.subrange(i as int, j as int),
            ),
        decreases j - i,
    {
        assert(s.subrange(i as int, j as int).drop_last() =~= s.subrange(i as int, j - 1));
        j = j - 1;
    }
    assert(trim_non_alnum_end(s.subrange(i as int, j as int)) == s.subrange(i as int, j as int));
    let mut t: Vec<char> = Vec::new();
    let mut k: usize = i;
    while k < j
        invariant
            i <= k <= j <= n,
            n == s.len(),
            cs@ == s,
            t@ == s.subrange(i as int, k as int),
        decreases j - k,
    {
        t.push(cs[k]);
        k = k + 1;
        assert(t@ =~= s.subrange(i as int, k as int));
    }
    t
}

/// The statistics tokens of `text`: `stat_tokens` of its words.
fn stat_tokenize(text: &str) -> (r: Vec<String>)
    ensures
        string_views(r@) == stat_tokens(words(text@)),
{
    let ws = split_whitespace(text);
    let ghost wv = words(text@);
    let mut r: Vec<String> = Vec::new();
    let mut i: usize = 0;
    assert(wv.take(0) =~= seq![]);
    assert(string_views(r@) =~= seq![]);
    while i < ws.len()
        invariant
            i <= ws@.len(),
            wv == words(text@),
            ws@.len() == wv.len(),
            forall|k: int| 0 <= k < ws@.len() ==> (#[trigger] ws@[k])@ == wv[k],
            string_views(r@) == stat_tokens(wv.take(i as int)),
        decreases ws@.len() - i,
    {
        assert(wv.take(i + 1).drop_last() =~= wv.take(i as int));
        assert(wv.take(i + 1).last() == ws[i as int]@);
        let t = word_token(ws[i]);
        if t.len() > 0 {
            let ghost before = string_views(r@);
            r.push(string_from_chars(t.as_slice()));
            assert(string_views(r@) =~= before.push(t@));
        }
        i = i + 1;
    }
    assert(wv.take(i as int) =~= wv);
    r
}

/// The statistics of `content`, named `path`: characters, words, lines (the
/// pieces between `'\n'`s, a last empty one included) and the five most
/// frequent tokens (words lower-cased, punctuation stripped at both ends),
/// the most frequent first, equal counts in the order the tokens first occur.
pub fn count_stats(path: &str, content: &str) -> (s: FileStats)
    ensures
        s.path@ == path@,
        s.chars == content@.len(),
        s.words == words(content@).len(),
        s.lines == line_count(content@),
        pair_views(s.top_words@) == first_five(by_count(tally(stat_tokens(words(content@))))),
{
    let cs = chars_of(content);
    let chars = cs.len();
    let word_count = split_whitespace(content).len();
    let line_count = line_starts(&cs).len();
    let tokens = stat_tokenize(content);
    let freq = count_frequencies(tokens.as_slice());
    let top = get_top_n(&freq, 5);
    proof {
        crate::word_freq::lemma_by_count_len(pair_views(freq@));
    }
    FileStats {
        path: String::from_str(path),
        chars,
        words: word_count,
        lines: line_count,
        top_words: top,
    }
}

/// The message for a text with nothing but whitespace.
pub open spec fn empty_text_message(name: Seq<char>) -> Seq<char> {
    "["@ + name + "]: 文本为空，无法统计"@
}

/// What a worker reports for the text `text` named `name`: an error for a
/// blank text, its statistics otherwise.
pub fn worker_result(name: String, text: String) -> (r: Result<FileStats, String>)
    ensures
        trim(text@).len() == 0 ==> (r matches Err(m) && m@ == empty_text_message(name@)),
        trim(text@).len() > 0 ==> (r matches Ok(s) && s.path@ == name@ && s.chars == text@.len()
            && s.words == words(text@).len() && s.lines == line_count(text@) && pair_views(
            s.top_words@,
        ) == first_five(by_count(tally(stat_tokens(words(text@)))))),
{
    if trim_str(text.as_str()).is_empty() {
        let mut m = String::from_str("[");
        m.append(name.as_str());
        m.append("]: 文本为空，无法统计");
        return Err(m);
    }
    Ok(count_stats(name.as_str(), text.as_str()))
}

/// Running totals of characters, words and lines over several texts.
pub struct Totals {
    pub chars: usize,
    pub words: usize,
    pub lines: usize,
}

impl Totals {
    /// All totals zero.
    pub fn new() -> (t: Totals)
        ensures
            t.chars == 0 && t.words == 0 && t.lines == 0,
    {
        Totals { chars: 0, words: 0, lines: 0 }
    }

    /// Adds the counts of one text.
    pub fn add(&mut self, s: &FileStats)
        requires
            old(self).chars + s.chars <= usize::MAX,
            old(self).words + s.words <= usize::MAX,
            old(self).lines + s.lines <= usize::MAX,
        ensures
            final(self).chars == old(self).chars + s.chars,
            final(self).words == old(self).words + s.words,
            final(self).lines == old(self).lines + s.lines,
    {
        self.chars = self.chars + s.chars;
        self.words = self.words + s.words;
        self.lines = self.lines + s.lines;
    }
}

/// A position in `t` of an entry with the key `w`.
pub open spec fn key_pos(t: Seq<(Seq<char>, nat)>, w: Seq<char>) -> int {
    choose|i: int| 0 <= i < t.len() && #[trigger] t[i].0 == w
}

/// The counts `t` with one more occurrence of `w`: its count goes up by one,
/// or it is added at the end with count one.
pub open spec fn count_step(t: Seq<(Seq<char>, nat)>, w: Seq<char>) -> Seq<(Seq<char>, nat)> {
    if exists|i: int| 0 <= i < t.len() && #[trigger] t[i].0 == w {
        let i = key_pos(t, w);
        t.update(i, (w, t[i].1 + 1))
    } else {
        t.push((w, 1))
    }
}

/// The counts `t` with the words `ws` added one by one.
pub open spec fn add_counts(t: Seq<(Seq<char>, nat)>, ws: Seq<Seq<char>>) -> Seq<
    (Seq<char>, nat),
>
    decreases ws.len(),
{
    if ws.len() == 0 {
        t
    } else {
        count_step(add_counts(t, ws.drop_last()), ws.last())
    }
}

/// Counting one more word keeps the keys distinct.
pub proof fn lemma_count_step_distinct(t: Seq<(Seq<char>, nat)>, w: Seq<char>)
    requires
        distinct_keys(t),
    ensures
        distinct_keys(count_step(t, w)),
{
    let r = count_step(t, w);
    if exists|i: int| 0 <= i < t.len() && #[trigger] t[i].0 == w {
        let i = key_pos(t, w);
        assert forall|a: int, b: int| 0 <= a < b < r.len() implies (#[trigger] r[a]).0 != (
        #[trigger] r[b]).0 by {
            assert(t[a].0 != t[b].0);
        }
    } else {
        assert forall|a: int, b: int| 0 <= a < b < r.len() implies (#[trigger] r[a]).0 != (
        #[trigger] r[b]).0 by {
            if b == t.len() {
                assert(t[a].0 != w);
            } else {
                assert(t[a].0 != t[b].0);
            }
        }
    }
}

/// The tally of one more word is one counting step on the tally.
pub proof fn lemma_tally_step(ws: Seq<Seq<char>>, x: Seq<char>)
    ensures
        tally(ws.push(x)) == count_step(tally(ws), x),
{
    let v = ws.push(x);
    assert(v.drop_last() =~= ws);
    lemma_distinct_words(ws);
    let d = distinct_words(ws);
    let t = tally(ws);
    assert(forall|w: Seq<char>| #[trigger] count_in(v, w) == count_in(ws, w) + if w == x {
        1nat
    } else {
        0nat
    });
    if d.contains(x) {
        let k = choose|k: int| 0 <= k < d.len() && d[k] == x;
        assert(t[k].0 == x);
        let i = key_pos(t, x);
        assert(t[i].0 == x);
        assert(d[i] == x);
        if i != k {
            assert(d[i] != d[k]);
        }
        assert(distinct_words(v) == d);
        assert forall|m: int| 0 <= m < d.len() implies #[trigger] tally(v)[m] == count_step(
            t,
            x,
        )[m] by {
            if m != i {
                assert(d[m] != d[i]);
            }
        }
        assert(tally(v) =~= count_step(t, x));
    } else {
        assert(!ws.contains(x));
        assert(count_in(ws, x) == 0);
        assert(distinct_words(v) == d.push(x));
        assert(!(exists|i: int| 0 <= i < t.len() && #[trigger] t[i].0 == x)) by {
            if exists|i: int| 0 <= i < t.len() && #[trigger] t[i].0 == x {
                let i = choose|i: int| 0 <= i < t.len() && #[trigger] t[i].0 == x;
                assert(d[i] == x);
            }
        }
        assert forall|m: int| 0 <= m < d.len() + 1 implies #[trigger] tally(v)[m] == count_step(
            t,
            x,
        )[m] by {
            if m < d.len() {
                assert(d[m] != x) by {
                    assert(d.contains(d[m]));
                }
            }
        }
        assert(tally(v) =~= count_step(t, x));
    }
}

/// Adding words to the tally of some words gives the tally of all of them:
/// merging counts from several texts, in any grouping, counts every word.
pub proof fn lemma_add_counts_tally(a: Seq<Seq<char>>, b: Seq<Seq<char>>)
    ensures
        add_counts(tally(a), b) == tally(a + b),
    decreases b.len(),
{
    if b.len() == 0 {
        assert(a + b =~= a);
    } else {
        lemma_add_counts_tally(a, b.drop_last());
        lemma_tally_step(a + b.drop_last(), b.last());
        assert((a + b.drop_last()).push(b.last()) =~= a + b);
    }
}

/// Adds the words `tokens` to the counts `table`: a known word's count goes
/// up by one, a new word is added at the end with count one.
pub fn add_tokens(table: &mut Vec<(String, usize)>, tokens: &[String])
    requires
        distinct_keys(pair_views(old(table)@)),
        forall|j: int| 0 <= j < old(table)@.len() ==> (#[trigger] old(table)@[j]).1 + tokens@.len()
            <= usize::MAX,
    ensures
        pair_views(final(table)@) == add_counts(pair_views(old(table)@), string_views(tokens@)),
        distinct_keys(pair_views(final(table)@)),
{
    let ghost start = pair_views(table@);
    let ghost ws = string_views(tokens@);
    let n = tokens.len();
    let mut i: usize = 0;
    assert(ws.take(0) =~= seq![]);
    while i < n
        invariant
            i <= n,
            n == tokens@.len(),
            ws == string_views(tokens@),
            start == pair_views(old(table)@),
            pair_views(table@) == add_counts(start, ws.take(i as int)),
            distinct_keys(pair_views(table@)),
            forall|j: int| 0 <= j < table@.len() ==> (#[trigger] table@[j]).1 + (n - i) <= usize::MAX,
        decreases n - i,
    {
        let w = tokens[i].as_str();
        let ghost tv = pair_views(table@);
        assert(ws.take(i + 1).drop_last() =~= ws.take(i as int));
        assert(ws.take(i + 1).last() == w@);
        let mut j: usize = 0;
        let mut found = false;
        while j < table.len() && !found
            invariant
                j <= table@.len(),
                tv == pair_views(table@),
                !found ==> forall|k: int| 0 <= k < j ==> (#[trigger] table@[k]).0@ != w@,
                found ==> j < table@.len() && table@[j as int].0@ == w@,
            decreases table@.len() - j + if found { 0int } else { 1int },
        {
            if str_eq(table[j].0.as_str(), w) {
                found = true;
            } else {
                j = j + 1;
            }
        }
        proof {
            lemma_count_step_distinct(tv, w@);
        }
        if found {
            proof {
                assert(tv[j as int].0 == w@);
                let k = key_pos(tv, w@);
                assert(tv[k].0 == w@);
                if k != j {
                    assert(tv[k].0 != tv[j as int].0);
                }
            }
            let c = table[j].1;
            let ghost old_table = table@;
            table.set(j, (String::from_str(w), c + 1));
            assert(pair_views(table@) =~= count_step(tv, w@));
            assert forall|m: int| 0 <= m < table@.len() implies (#[trigger] table@[m]).1 + (n - (i
                + 1)) <= usize::MAX by {
                assert(old_table[m].1 + (n - i) <= usize::MAX);
            }
        } else {
            assert(!(exists|k: int| 0 <= k < tv.len() && #[trigger] tv[k].0 == w@)) by {
                if exists|k: int| 0 <= k < tv.len() && #[trigger] tv[k].0 == w@ {
                    let k = choose|k: int| 0 <= k < tv.len() && #[trigger] tv[k].0 == w@;
                    assert(table@[k].0@ != w@);
                }
            }
            let ghost old_table = table@;
            table.push((String::from_str(w), 1));
            assert(pair_views(table@) =~= count_step(tv, w@));
            assert forall|m: int| 0 <= m < table@.len() implies (#[trigger] table@[m]).1 + (n - (i
                + 1)) <= usize::MAX by {
                if m < old_table.len() {
                    assert(old_table[m].1 + (n - i) <= usize::MAX);
                }
            }
        }
        i = i + 1;
    }
    assert(ws.take(n as int) =~= ws);
}

/// Every word is counted once: the counts of a tally add up to the number
/// of words.
pub proof fn lemma_tally_total(ws: Seq<Seq<char>>)
    ensures
        total_count(tally(ws)) == ws.len(),
    decreases ws.len(),
{
    if ws.len() == 0 {
        assert(tally(ws) =~= seq![]);
    } else {
        let p = ws.drop_last();
        let x = ws.last();
        lemma_tally_total(p);
        lemma_tally_step(p, x);
        assert(p.push(x) =~= ws);
        let t = tally(p);
        if exists|i: int| 0 <= i < t.len() && #[trigger] t[i].0 == x {
            let i = key_pos(t, x);
            lemma_total_count_bump(t, i, x);
        } else {
            assert(t.push((x, 1nat)).drop_last() =~= t);
        }
    }
}

} // verus!
