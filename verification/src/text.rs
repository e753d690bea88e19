//! Character and string primitives shared by the rest of the library:
//! Unicode whitespace, word splitting, trimming and line splitting.

use vstd::prelude::*;
use vstd::string::*;
use vstd::utf8::encode_utf8;

verus! {

/// The Unicode `White_Space` property, which is what `char::is_whitespace` tests.
pub open spec fn is_ws(c: char) -> bool {
    let u = c as u32;
    ||| 0x09 <= u <= 0x0D
    ||| u == 0x20
    ||| u == 0x85
    ||| u == 0xA0
    ||| u == 0x1680
    ||| 0x2000 <= u <= 0x200A
    ||| u == 0x2028
    ||| u == 0x2029
    ||| u == 0x202F
    ||| u == 0x205F
    ||| u == 0x3000
}

/// Whether `c` is Unicode whitespace.
pub fn is_whitespace(c: char) -> (b: bool)
    ensures
        b == is_ws(c),
{
    let u = c as u32;
    (0x09 <= u && u <= 0x0D) || u == 0x20 || u == 0x85 || u == 0xA0 || u == 0x1680 || (0x2000
        <= u && u <= 0x200A) || u == 0x2028 || u == 0x2029 || u == 0x202F || u == 0x205F || u
        == 0x3000
}

/// The characters of `s`, in order.
pub fn chars_of(s: &str) -> (v: Vec<char>)
    ensures
        v@ == s@,
{
    let mut v: Vec<char> = Vec::new();
    for c in it: s.chars()
        invariant
            v@ == it.seq().take(it.index() as int),
            it.seq() == s@,
    {
        v.push(c);
    }
    v
}


/// The `[start, end)` character spans of the maximal runs of non-whitespace
/// characters of `s`, from left to right: the words that `str::split_whitespace`
/// yields.
pub open spec fn word_spans(s: Seq<char>) -> Seq<(int, int)>
    decreases s.len(),
{
    if s.len() == 0 {
        seq![]
    } else {
        let prev = word_spans(s.drop_last());
        let n = s.len() - 1;
        if is_ws(s[n]) {
            prev
        } else if n > 0 && !is_ws(s[n - 1]) {
            prev.update(prev.len() - 1, (prev.last().0, s.len() as int))
        } else {
            prev.push((n, s.len() as int))
        }
    }
}

/// The words of `s`, as `str::split_whitespace` yields them.
pub open spec fn words(s: Seq<char>) -> Seq<Seq<char>> {
    word_spans(s).map_values(|p: (int, int)| s.subrange(p.0, p.1))
}

/// The spans of `word_spans` are ordered, non-empty, separated, lie within `s`
/// and hold no whitespace; a word that reaches the end of `s` is the last span.
pub proof fn lemma_word_spans_wf(s: Seq<char>)
    ensures
        forall|k: int|
            0 <= k < word_spans(s).len() ==> 0 <= #[trigger] word_spans(s)[k].0 < word_spans(
                s,
            )[k].1 <= s.len(),
        forall|k: int, j: int|
            0 <= k < j < word_spans(s).len() ==> #[trigger] word_spans(s)[k].1 < #[trigger] word_spans(
                s,
            )[j].0,
        forall|k: int, i: int|
            #![trigger word_spans(s)[k], s[i]]
            0 <= k < word_spans(s).len() && word_spans(s)[k].0 <= i < word_spans(s)[k].1
                ==> 0 <= i < s.len() && !is_ws(s[i]),
        s.len() > 0 && !is_ws(s.last()) ==> word_spans(s).len() > 0 && word_spans(s).last().1
            == s.len(),
        s.len() > 0 && is_ws(s.last()) ==> forall|k: int|
            0 <= k < word_spans(s).len() ==> #[trigger] word_spans(s)[k].1 < s.len(),
    decreases s.len(),
{
    if s.len() > 0 {
        let t = s.drop_last();
        lemma_word_spans_wf(t);
        let prev = word_spans(t);
        let sp = word_spans(s);
        let n = s.len() - 1;
        assert forall|i: int| 0 <= i < n implies s[i] == t[i] by {}
        if is_ws(s[n]) {
            assert(sp == prev);
        } else if n > 0 && !is_ws(s[n - 1]) {
            assert(sp == prev.update(prev.len() - 1, (prev.last().0, s.len() as int)));
            assert forall|k: int, j: int| 0 <= k < j < sp.len() implies #[trigger] sp[k].1
                < #[trigger] sp[j].0 by {
                assert(sp[k] == prev[k]);
                assert(sp[j].0 == prev[j].0);
            }
        } else {
            assert(sp == prev.push((n, s.len() as int)));
            assert forall|k: int, j: int| 0 <= k < j < sp.len() implies #[trigger] sp[k].1
                < #[trigger] sp[j].0 by {
                assert(sp[k] == prev[k]);
                if j < prev.len() {
                    assert(sp[j] == prev[j]);
                }
            }
        }
    }
}

/// `u` is all whitespace.
pub open spec fn all_ws(u: Seq<char>) -> bool {
    forall|i: int| 0 <= i < u.len() ==> is_ws(#[trigger] u[i])
}

/// The spans `sp` moved right by `d`.
pub open spec fn shift_spans(sp: Seq<(int, int)>, d: int) -> Seq<(int, int)> {
    sp.map_values(|p: (int, int)| (p.0 + d, p.1 + d))
}

/// Trailing whitespace adds no word.
pub proof fn lemma_word_spans_trailing_ws(s: Seq<char>, u: Seq<char>)
    requires
        all_ws(u),
    ensures
        word_spans(s + u) == word_spans(s),
    decreases u.len(),
{
    if u.len() == 0 {
        assert(s + u =~= s);
    } else {
        lemma_word_spans_trailing_ws(s, u.drop_last());
        assert((s + u).drop_last() =~= s + u.drop_last());
        assert((s + u).last() == u.last());
        assert(is_ws(u[u.len() - 1]));
    }
}

/// A run of whitespace splits the spans: those of the text before it, then
/// those of the text after it, moved right.
pub proof fn lemma_word_spans_split(a: Seq<char>, w: Seq<char>, b: Seq<char>)
    requires
        w.len() > 0,
        all_ws(w),
    ensures
        word_spans(a + w + b) == word_spans(a) + shift_spans(word_spans(b), (a.len() + w.len()) as int),
    decreases b.len(),
{
    let off: int = (a.len() + w.len()) as int;
    if b.len() == 0 {
        lemma_word_spans_trailing_ws(a, w);
        assert(a + w + b =~= a + w);
        assert(shift_spans(word_spans(b), off) =~= seq![]);
        assert(word_spans(a) + shift_spans(word_spans(b), off) =~= word_spans(a));
    } else {
        let t = a + w + b;
        let bp = b.drop_last();
        lemma_word_spans_split(a, w, bp);
        assert(t.drop_last() =~= a + w + bp);
        let n = t.len() - 1;
        let nb = b.len() - 1;
        assert(t[n] == b[nb]);
        let pa = word_spans(a);
        let q = word_spans(bp);
        let p = word_spans(t.drop_last());
        assert(p == pa + shift_spans(q, off));
        if is_ws(b[nb]) {
            assert(word_spans(t) == p);
            assert(word_spans(b) == q);
        } else {
            if nb > 0 {
                assert(t[n - 1] == b[nb - 1]);
            } else {
                assert(t[n - 1] == w[w.len() - 1]);
            }
            if nb > 0 && !is_ws(b[nb - 1]) {
                lemma_word_spans_wf(bp);
                assert(bp.last() == b[nb - 1]);
                assert(q.len() > 0);
                let qu = q.update(q.len() - 1, (q.last().0, b.len() as int));
                assert(word_spans(b) == qu);
                assert(word_spans(t) == p.update(p.len() - 1, (p.last().0, t.len() as int)));
                assert(p.last() == (q.last().0 + off, q.last().1 + off));
                assert(word_spans(t) =~= pa + shift_spans(qu, off));
            } else {
                assert(word_spans(b) == q.push((nb as int, b.len() as int)));
                assert(word_spans(t) == p.push((n as int, t.len() as int)));
                assert(word_spans(t) =~= pa + shift_spans(q.push((nb as int, b.len() as int)), off));
            }
        }
    }
}

/// A run of whitespace splits the words: those of the text before it, then
/// those of the text after it.
pub proof fn lemma_words_split(a: Seq<char>, w: Seq<char>, b: Seq<char>)
    requires
        w.len() > 0,
        all_ws(w),
    ensures
        words(a + w + b) == words(a) + words(b),
{
    let t = a + w + b;
    let off: int = (a.len() + w.len()) as int;
    lemma_word_spans_split(a, w, b);
    lemma_word_spans_wf(a);
    lemma_word_spans_wf(b);
    let pa = word_spans(a);
    let qb = word_spans(b);
    assert(word_spans(t) == pa + shift_spans(qb, off));
    assert forall|k: int| 0 <= k < words(t).len() implies #[trigger] words(t)[k] == (words(a)
        + words(b))[k] by {
        if k < pa.len() {
            assert(word_spans(t)[k] == pa[k]);
            assert(t.subrange(pa[k].0, pa[k].1) =~= a.subrange(pa[k].0, pa[k].1));
        } else {
            let j = k - pa.len();
            assert(word_spans(t)[k] == (qb[j].0 + off, qb[j].1 + off));
            assert(t.subrange(qb[j].0 + off, qb[j].1 + off) =~= b.subrange(qb[j].0, qb[j].1));
        }
    }
    assert(words(t) =~= words(a) + words(b));
}

/// The word spans of the characters `cs`.
pub fn word_spans_of(cs: &Vec<char>) -> (spans: Vec<(usize, usize)>)
    ensures
        spans@.len() == word_spans(cs@).len(),
        forall|k: int|
            0 <= k < spans@.len() ==> (#[trigger] spans@[k]).0 == word_spans(cs@)[k].0
                && spans@[k].1 == word_spans(cs@)[k].1,
{
    let mut spans: Vec<(usize, usize)> = Vec::new();
    let mut i: usize = 0;
    while i < cs.len()
        invariant
            i <= cs.len(),
            spans@.len() == word_spans(cs@.take(i as int)).len(),
            forall|k: int|
                0 <= k < spans@.len() ==> (#[trigger] spans@[k]).0 == word_spans(
                    cs@.take(i as int),
                )[k].0 && spans@[k].1 == word_spans(cs@.take(i as int))[k].1,
        decreases cs.len() - i,
    {
        let ghost t = cs@.take(i as int);
        let ghost t1 = cs@.take(i + 1);
        assert(t1.drop_last() =~= t);
        proof {
            lemma_word_spans_wf(t);
        }
        let c = cs[i];
        if is_whitespace(c) {
        } else if i > 0 && !is_whitespace(cs[i - 1]) {
            let last = spans.len() - 1;
            let start = spans[last].0;
            spans.set(last, (start, i + 1));
        } else {
            spans.push((i, i + 1));
        }
        i = i + 1;
    }
    assert(cs@.take(cs.len() as int) =~= cs@);
    spans
}


/// The words of `s`, as slices of `s`, in order: `str::split_whitespace`.
pub fn split_whitespace<'a>(s: &'a str) -> (ws: Vec<&'a str>)
    ensures
        ws@.len() == words(s@).len(),
        forall|k: int| 0 <= k < ws@.len() ==> (#[trigger] ws@[k])@ == words(s@)[k],
{
    let cs = chars_of(s);
    let spans = word_spans_of(&cs);
    proof {
        lemma_word_spans_wf(s@);
    }
    let mut ws: Vec<&'a str> = Vec::new();
    let mut k: usize = 0;
    while k < spans.len()
        invariant
            k <= spans@.len(),
            cs@ == s@,
            spans@.len() == word_spans(s@).len(),
            forall|m: int|
                0 <= m < spans@.len() ==> (#[trigger] spans@[m]).0 == word_spans(s@)[m].0
                    && spans@[m].1 == word_spans(s@)[m].1,
            forall|m: int|
                0 <= m < word_spans(s@).len() ==> 0 <= #[trigger] word_spans(s@)[m].0
                    < word_spans(s@)[m].1 <= s@.len(),
            ws@.len() == k,
            forall|m: int| 0 <= m < k ==> (#[trigger] ws@[m])@ == words(s@)[m],
        decreases spans@.len() - k,
    {
        let (a, b) = spans[k];
        assert(word_spans(s@)[k as int].0 < word_spans(s@)[k as int].1);
        ws.push(s.substring_char(a, b));
        k = k + 1;
    }
    ws
}


/// A `String` made of the characters `cs`, in order.
///
/// Trusted: it calls `FromIterator<&char>` for `String` (`Iterator::collect`),
/// which std documents as appending each character in turn; the contract claims
/// exactly that the result holds the characters of `cs`.
#[verifier::external_body]
pub(crate) fn string_from_chars(cs: &[char]) -> (s: String)
    ensures
        s@ == cs@,
{
    cs.iter().collect()
}

/// Whether two character sequences are equal.
pub fn chars_equal(a: &[char], b: &[char]) -> (eq: bool)
    ensures
        eq == (a@ == b@),
{
    if a.len() != b.len() {
        return false;
    }
    let mut i: usize = 0;
    while i < a.len()
        invariant
            i <= a@.len(),
            a@.len() == b@.len(),
            forall|j: int| 0 <= j < i ==> a@[j] == b@[j],
        decreases a@.len() - i,
    {
        if a[i] != b[i] {
            return false;
        }
        i = i + 1;
    }
    assert(a@ =~= b@);
    true
}


/// The views of a sequence of string slices.
pub open spec fn str_views(v: Seq<&str>) -> Seq<Seq<char>> {
    v.map_values(|s: &str| s@)
}

/// Whether two strings are equal.
pub fn str_eq(a: &str, b: &str) -> (r: bool)
    ensures
        r == (a@ == b@),
{
    let ac = chars_of(a);
    let bc = chars_of(b);
    chars_equal(ac.as_slice(), bc.as_slice())
}

/// Whether `needle` occurs in `hay` as a contiguous run of characters
/// (`str::contains` with a string pattern; the empty needle occurs everywhere).
pub open spec fn seq_contains(hay: Seq<char>, needle: Seq<char>) -> bool {
    exists|i: int| #[trigger] occurs_at(hay, needle, i)
}

/// Whether `needle` occurs in `hay` at position `i`.
pub open spec fn occurs_at(hay: Seq<char>, needle: Seq<char>, i: int) -> bool {
    0 <= i <= hay.len() - needle.len() && hay.subrange(i, i + needle.len()) == needle
}

/// Whether `needle` occurs in `hay` at position `i` (characters compared one by one).
fn matches_at(hay: &[char], needle: &[char], i: usize) -> (b: bool)
    requires
        i + needle@.len() <= hay@.len(),
    ensures
        b == (hay@.subrange(i as int, i + needle@.len()) == needle@),
{
    let hay_len = hay.len();
    let mut j: usize = 0;
    while j < needle.len()
        invariant
            hay_len == hay@.len(),
            i + needle@.len() <= hay@.len(),
            j <= needle@.len(),
            forall|k: int| 0 <= k < j ==> hay@[i + k] == needle@[k],
        decreases needle@.len() - j,
    {
        if hay[i + j] != needle[j] {
            assert(hay@.subrange(i as int, i + needle@.len())[j as int] != needle@[j as int]);
            return false;
        }
        j = j + 1;
    }
    assert(hay@.subrange(i as int, i + needle@.len()) =~= needle@);
    true
}

/// Whether `needle` occurs in `hay`.
pub fn chars_contain(hay: &[char], needle: &[char]) -> (b: bool)
    ensures
        b == seq_contains(hay@, needle@),
{
    if needle.len() > hay.len() {
        return false;
    }
    let last = hay.len() - needle.len();
    let mut i: usize = 0;
    while i <= last
        invariant
            last == hay@.len() - needle@.len(),
            forall|k: int| 0 <= k < i ==> !#[trigger] occurs_at(hay@, needle@, k),
        decreases last + 1 - i,
    {
        if matches_at(hay, needle, i) {
            assert(occurs_at(hay@, needle@, i as int));
            return true;
        }
        if i == last {
            assert forall|k: int| !#[trigger] occurs_at(hay@, needle@, k) by {
                if 0 <= k <= last {
                }
            }
            return false;
        }
        i = i + 1;
    }
    false
}

/// Whether the text `hay` contains the text `needle`: `str::contains`.
pub fn str_contains(hay: &str, needle: &str) -> (b: bool)
    ensures
        b == seq_contains(hay@, needle@),
{
    let h = chars_of(hay);
    let n = chars_of(needle);
    chars_contain(h.as_slice(), n.as_slice())
}

/// Where the line that is still open at the end of `s` starts: just after the
/// last `'\n'`, or at 0.
pub open spec fn open_line_start(s: Seq<char>) -> int
    decreases s.len(),
{
    if s.len() == 0 {
        0
    } else if s.last() == '\n' {
        s.len() as int
    } else {
        open_line_start(s.drop_last())
    }
}

/// The content spans of the lines of `s` that a `'\n'` ends; the terminator,
/// and a `'\r'` just before it, are not part of the content.
pub open spec fn closed_line_spans(s: Seq<char>) -> Seq<(int, int)>
    decreases s.len(),
{
    if s.len() == 0 {
        seq![]
    } else {
        let t = s.drop_last();
        let prev = closed_line_spans(t);
        let n = s.len() - 1;
        if s[n] == '\n' {
            let st = open_line_start(t);
            prev.push((st, if n > st && s[n - 1] == '\r' { n - 1 } else { n }))
        } else {
            prev
        }
    }
}

/// The content spans of the lines of `s`, as `str::lines` yields them: every
/// `'\n'` ends a line (dropping a `'\r'` just before it), and a final line
/// without a terminator is kept when it is not empty.
pub open spec fn line_spans(s: Seq<char>) -> Seq<(int, int)> {
    let st = open_line_start(s);
    if st < s.len() {
        closed_line_spans(s).push((st, s.len() as int))
    } else {
        closed_line_spans(s)
    }
}

/// The lines of `s`: `str::lines`.
pub open spec fn lines(s: Seq<char>) -> Seq<Seq<char>> {
    line_spans(s).map_values(|p: (int, int)| s.subrange(p.0, p.1))
}

/// Line spans lie within `s`, and the open line starts within `s`.
pub proof fn lemma_line_spans_wf(s: Seq<char>)
    ensures
        0 <= open_line_start(s) <= s.len(),
        forall|k: int|
            0 <= k < closed_line_spans(s).len() ==> 0 <= #[trigger] closed_line_spans(s)[k].0
                <= closed_line_spans(s)[k].1 <= open_line_start(s),
        forall|k: int|
            0 <= k < line_spans(s).len() ==> 0 <= #[trigger] line_spans(s)[k].0
                <= line_spans(s)[k].1 <= s.len(),
    decreases s.len(),
{
    if s.len() > 0 {
        let t = s.drop_last();
        lemma_line_spans_wf(t);
        let n = s.len() - 1;
        let prev = closed_line_spans(t);
        if s[n] == '\n' {
            let st = open_line_start(t);
            let e = if n > st && s[n - 1] == '\r' {
                n - 1
            } else {
                n
            };
            assert(closed_line_spans(s) == prev.push((st, e)));
            assert(open_line_start(s) == s.len());
            assert forall|k: int| 0 <= k < closed_line_spans(s).len() implies 0
                <= #[trigger] closed_line_spans(s)[k].0 <= closed_line_spans(s)[k].1
                <= open_line_start(s) by {
                if k < prev.len() {
                    assert(closed_line_spans(s)[k] == prev[k]);
                }
            }
        } else {
            assert(closed_line_spans(s) == prev);
            assert(open_line_start(s) == open_line_start(t));
        }
    }
}

/// The content spans of the lines of the characters `cs`.
pub fn line_spans_of(cs: &Vec<char>) -> (spans: Vec<(usize, usize)>)
    ensures
        spans@.len() == line_spans(cs@).len(),
        forall|k: int|
            0 <= k < spans@.len() ==> (#[trigger] spans@[k]).0 == line_spans(cs@)[k].0
                && spans@[k].1 == line_spans(cs@)[k].1,
{
    let mut spans: Vec<(usize, usize)> = Vec::new();
    let mut start: usize = 0;
    let mut i: usize = 0;
    while i < cs.len()
        invariant
            i <= cs.len(),
            start == open_line_start(cs@.take(i as int)),
            spans@.len() == closed_line_spans(cs@.take(i as int)).len(),
            forall|k: int|
                0 <= k < spans@.len() ==> (#[trigger] spans@[k]).0 == closed_line_spans(
                    cs@.take(i as int),
                )[k].0 && spans@[k].1 == closed_line_spans(cs@.take(i as int))[k].1,
        decreases cs.len() - i,
    {
        let ghost t = cs@.take(i as int);
        let ghost t1 = cs@.take(i + 1);
        assert(t1.drop_last() =~= t);
        proof {
            lemma_line_spans_wf(t);
        }
        if cs[i] == '\n' {
            let end = if i > start && cs[i - 1] == '\r' {
                i - 1
            } else {
                i
            };
            spans.push((start, end));
            start = i + 1;
        }
        i = i + 1;
    }
    assert(cs@.take(cs.len() as int) =~= cs@);
    proof {
        lemma_line_spans_wf(cs@);
    }
    if start < cs.len() {
        spans.push((start, cs.len()));
    }
    spans
}

/// The lines of `s`, as slices of `s`, in order: `str::lines`.
pub fn split_lines<'a>(s: &'a str) -> (ls: Vec<&'a str>)
    ensures
        ls@.len() == lines(s@).len(),
        forall|k: int| 0 <= k < ls@.len() ==> (#[trigger] ls@[k])@ == lines(s@)[k],
{
    let cs = chars_of(s);
    let spans = line_spans_of(&cs);
    proof {
        lemma_line_spans_wf(s@);
    }
    let mut ls: Vec<&'a str> = Vec::new();
    let mut k: usize = 0;
    while k < spans.len()
        invariant
            k <= spans@.len(),
            cs@ == s@,
            spans@.len() == line_spans(s@).len(),
            forall|m: int|
                0 <= m < spans@.len() ==> (#[trigger] spans@[m]).0 == line_spans(s@)[m].0
                    && spans@[m].1 == line_spans(s@)[m].1,
            forall|m: int|
                0 <= m < line_spans(s@).len() ==> 0 <= #[trigger] line_spans(s@)[m].0
                    <= line_spans(s@)[m].1 <= s@.len(),
            ls@.len() == k,
            forall|m: int| 0 <= m < k ==> (#[trigger] ls@[m])@ == lines(s@)[m],
        decreases spans@.len() - k,
    {
        let (a, b) = spans[k];
        assert(line_spans(s@)[k as int].0 <= line_spans(s@)[k as int].1);
        ls.push(s.substring_char(a, b));
        k = k + 1;
    }
    ls
}

/// The result of `str::to_lowercase` on the characters `s`: Unicode lower-case
/// mapping of each character, with the context rule for final sigma.
pub uninterp spec fn lowercase(s: Seq<char>) -> Seq<char>;

/// `str::to_lowercase`.
///
/// Trusted: the contract names the result (`lowercase`) and claims only that it
/// depends on the characters of `s` alone; the Unicode case tables are not stated.
#[verifier::external_body]
pub(crate) fn to_lowercase(s: &str) -> (r: String)
    ensures
        r@ == lowercase(s@),
{
    s.to_lowercase()
}


/// Whether `c` has the Unicode `Alphabetic` or `Numeric` property: what
/// `char::is_alphanumeric` tests.
pub uninterp spec fn alphanumeric(c: char) -> bool;

/// `char::is_alphanumeric`.
///
/// Trusted: the contract names the result (`alphanumeric`), a function of the
/// character alone; the Unicode property tables are not stated.
#[verifier::external_body]
pub(crate) fn is_alphanumeric(c: char) -> (b: bool)
    ensures
        b == alphanumeric(c),
{
    c.is_alphanumeric()
}

/// The character of the decimal digit `d` (`d < 10`).
pub open spec fn digit_char(d: int) -> char {
    (48 + d) as char
}

/// The decimal representation of `n`, without sign or leading zeros: what
/// `Display` prints for an unsigned integer.
pub open spec fn decimal(n: nat) -> Seq<char>
    decreases n,
{
    if n < 10 {
        seq![digit_char(n as int)]
    } else {
        decimal(n / 10).push(digit_char((n % 10) as int))
    }
}

/// Appends the decimal representation of `n` to `out`.
pub fn push_decimal(out: &mut Vec<char>, n: u64)
    ensures
        final(out)@ == old(out)@ + decimal(n as nat),
    decreases n,
{
    if n >= 10 {
        push_decimal(out, n / 10);
    }
    let d = (n % 10) as u8;
    let c = (48u8 + d) as char;
    out.push(c);
    assert(out@ =~= old(out)@ + decimal(n as nat));
}

/// Appends the characters of `s` to `out`.
pub fn push_str_chars(out: &mut Vec<char>, s: &str)
    ensures
        final(out)@ == old(out)@ + s@,
{
    let cs = chars_of(s);
    let mut i: usize = 0;
    while i < cs.len()
        invariant
            i <= cs@.len(),
            cs@ == s@,
            out@ == old(out)@ + s@.take(i as int),
        decreases cs@.len() - i,
    {
        out.push(cs[i]);
        i = i + 1;
        assert(out@ =~= old(out)@ + s@.take(i as int));
    }
    assert(s@.take(s@.len() as int) =~= s@);
}

/// The decimal representation of `n` as a `String`.
pub fn decimal_string(n: u64) -> (s: String)
    ensures
        s@ == decimal(n as nat),
{
    let mut out: Vec<char> = Vec::new();
    push_decimal(&mut out, n);
    assert(out@ =~= decimal(n as nat));
    string_from_chars(out.as_slice())
}


/// `s` without its leading whitespace.
pub open spec fn trim_start(s: Seq<char>) -> Seq<char>
    decreases s.len(),
{
    if s.len() > 0 && is_ws(s[0]) {
        trim_start(s.drop_first())
    } else {
        s
    }
}

/// `s` without its trailing whitespace.
pub open spec fn trim_end(s: Seq<char>) -> Seq<char>
    decreases s.len(),
{
    if s.len() > 0 && is_ws(s.last()) {
        trim_end(s.drop_last())
    } else {
        s
    }
}

/// `s` without leading and trailing whitespace: `str::trim`.
pub open spec fn trim(s: Seq<char>) -> Seq<char> {
    trim_end(trim_start(s))
}

/// `s` without leading and trailing whitespace, as a slice of `s`: `str::trim`.
pub fn trim_str<'a>(s: &'a str) -> (t: &'a str)
    ensures
        t@ == trim(s@),
{
    let cs = chars_of(s);
    let n = cs.len();
    let mut a: usize = 0;
    assert(s@.skip(0) =~= s@);
    while a < n && is_whitespace(cs[a])
        invariant
            a <= n,
            n == cs@.len(),
            cs@ == s@,
            trim_start(s@) == trim_start(s@.skip(a as int)),
        decreases n - a,
    {
        assert(s@.skip(a as int).drop_first() =~= s@.skip(a + 1));
        a = a + 1;
    }
    assert(trim_start(s@) == s@.subrange(a as int, n as int)) by {
        assert(s@.skip(a as int) =~= s@.subrange(a as int, n as int));
    }
    let mut b: usize = n;
    while b > a && is_whitespace(cs[b - 1])
        invariant
            a <= b <= n,
            n == cs@.len(),
            cs@ == s@,
            trim(s@) == trim_end(s@.subrange(a as int, b as int)),
        decreases b - a,
    {
        assert(s@.subrange(a as int, b as int).drop_last() =~= s@.subrange(a as int, b - 1));
        b = b - 1;
    }
    s.substring_char(a, b)
}

/// The characters of a word are not whitespace, so it is its own trim.
pub proof fn lemma_trim_of_non_ws_ends(s: Seq<char>)
    requires
        s.len() == 0 || (!is_ws(s[0]) && !is_ws(s.last())),
    ensures
        trim(s) == s,
{
}

/// `s` without the prefix `p`, when `s` starts with `p`: `str::strip_prefix`
/// with a string pattern.
pub fn strip_prefix<'a>(s: &'a str, p: &str) -> (r: Option<&'a str>)
    ensures
        r is Some <==> (p@.len() <= s@.len() && s@.take(p@.len() as int) == p@),
        r matches Some(rest) ==> rest@ == s@.skip(p@.len() as int),
{
    let sc = chars_of(s);
    let pc = chars_of(p);
    if pc.len() > sc.len() {
        return None;
    }
    let mut i: usize = 0;
    while i < pc.len()
        invariant
            i <= pc@.len() <= sc@.len(),
            sc@ == s@,
            pc@ == p@,
            forall|j: int| 0 <= j < i ==> sc@[j] == pc@[j],
        decreases pc@.len() - i,
    {
        if sc[i] != pc[i] {
            assert(s@.take(p@.len() as int)[i as int] != p@[i as int]);
            return None;
        }
        i = i + 1;
    }
    assert(s@.take(p@.len() as int) =~= p@);
    Some(s.substring_char(pc.len(), sc.len()))
}

/// The words `ws` joined by single spaces.
pub open spec fn join_spaced(ws: Seq<Seq<char>>) -> Seq<char>
    decreases ws.len(),
{
    if ws.len() == 0 {
        seq![]
    } else if ws.len() == 1 {
        ws[0]
    } else {
        join_spaced(ws.drop_last()) + seq![' '] + ws.last()
    }
}

/// The words `ws` joined by single spaces: `[&str]::join(" ")`.
pub fn join_with_spaces(ws: &Vec<&str>) -> (r: String)
    ensures
        r@ == join_spaced(ws@.map_values(|w: &str| w@)),
{
    let ghost views = ws@.map_values(|w: &str| w@);
    let mut out: Vec<char> = Vec::new();
    let mut i: usize = 0;
    while i < ws.len()
        invariant
            i <= ws@.len(),
            views == ws@.map_values(|w: &str| w@),
            out@ == join_spaced(views.take(i as int)),
        decreases ws@.len() - i,
    {
        assert(views.take(i + 1).drop_last() =~= views.take(i as int));
        if i > 0 {
            out.push(' ');
        }
        push_str_chars(&mut out, ws[i]);
        i = i + 1;
        assert(out@ =~= join_spaced(views.take(i as int)));
    }
    assert(views.take(i as int) =~= views);
    string_from_chars(out.as_slice())
}

/// `c` is an ASCII decimal digit.
pub open spec fn is_digit(c: char) -> bool {
    '0' <= c <= '9'
}

/// The number that the decimal digits `s` spell.
pub open spec fn digits_value(s: Seq<char>) -> nat
    decreases s.len(),
{
    if s.len() == 0 {
        0
    } else {
        digits_value(s.drop_last()) * 10 + ((s.last() as int) - 48) as nat
    }
}

/// The digits of a number text: after one optional `'+'`.
pub open spec fn unsigned_digits(s: Seq<char>) -> Seq<char> {
    if s.len() > 0 && s[0] == '+' {
        s.skip(1)
    } else {
        s
    }
}

/// What `str::parse::<u32>` gives: an optional `'+'`, then at least one
/// ASCII digit and nothing else, for a value that fits in `u32`.
pub open spec fn parse_u32_spec(s: Seq<char>) -> Option<u32> {
    let d = unsigned_digits(s);
    if d.len() > 0 && (forall|i: int| 0 <= i < d.len() ==> is_digit(#[trigger] d[i]))
        && digits_value(d) <= u32::MAX {
        Some(digits_value(d) as u32)
    } else {
        None
    }
}

/// More digits never spell a smaller number.
pub proof fn lemma_digits_value_grows(s: Seq<char>, k: int)
    requires
        0 <= k <= s.len(),
        forall|i: int| 0 <= i < s.len() ==> is_digit(#[trigger] s[i]),
    ensures
        digits_value(s.take(k)) <= digits_value(s),
    decreases s.len() - k,
{
    if k < s.len() {
        lemma_digits_value_grows(s, k + 1);
        assert(s.take(k + 1).drop_last() =~= s.take(k));
        assert(is_digit(s[k]));
    } else {
        assert(s.take(k) =~= s);
    }
}

/// `s` read as a `u32`: `str::parse::<u32>`, with the error left out.
pub fn parse_u32(s: &str) -> (r: Option<u32>)
    ensures
        r == parse_u32_spec(s@),
{
    let cs = chars_of(s);
    let start: usize = if cs.len() > 0 && cs[0] == '+' { 1 } else { 0 };
    let ghost d = unsigned_digits(s@);
    assert(d =~= s@.skip(start as int));
    if start >= cs.len() {
        return None;
    }
    let mut acc: u64 = 0;
    let mut i: usize = start;
    while i < cs.len()
        invariant
            start <= i <= cs@.len(),
            start < cs@.len(),
            cs@ == s@,
            d == s@.skip(start as int),
            d == unsigned_digits(s@),
            forall|j: int| 0 <= j < i - start ==> is_digit(#[trigger] d[j]),
            acc == digits_value(d.take(i - start)),
            acc <= u32::MAX,
        decreases cs@.len() - i,
    {
        let c = cs[i];
        assert(d[i - start] == c);
        if c < '0' || c > '9' {
            assert(!is_digit(d[i - start]));
            assert(!(forall|j: int| 0 <= j < d.len() ==> is_digit(#[trigger] d[j])));
            return None;
        }
        let digit = (c as u32 - '0' as u32) as u64;
        assert(d.take(i - start + 1).drop_last() =~= d.take(i - start));
        assert(d.take(i - start + 1).last() == c);
        acc = acc * 10 + digit;
        i = i + 1;
        assert(acc == digits_value(d.take(i - start)));
        if acc > 4294967295u64 {
            proof {
                if forall|j: int| 0 <= j < d.len() ==> is_digit(#[trigger] d[j]) {
                    lemma_digits_value_grows(d, i - start);
                    assert(digits_value(d) > u32::MAX);
                }
            }
            return None;
        }
    }
    assert(d.take(i - start) =~= d);
    Some(acc as u32)
}

/// The length of `s` in bytes when encoded in UTF-8: `str::len`.
pub open spec fn byte_len(s: Seq<char>) -> nat {
    encode_utf8(s).len()
}

/// The length of `s` in bytes: `str::len`.
pub fn str_byte_len(s: &str) -> (n: usize)
    ensures
        n == byte_len(s@),
{
    s.as_bytes().len()
}

/// `n` spaces.
pub open spec fn spaces(n: nat) -> Seq<char> {
    Seq::new(n, |i: int| ' ')
}

/// `s` right-aligned in a field of `w` characters: `{:>w}`.
pub open spec fn pad_left(s: Seq<char>, w: nat) -> Seq<char> {
    if s.len() >= w {
        s
    } else {
        spaces((w - s.len()) as nat) + s
    }
}

/// `s` left-aligned in a field of `w` characters: `{:<w}`.
pub open spec fn pad_right(s: Seq<char>, w: nat) -> Seq<char> {
    if s.len() >= w {
        s
    } else {
        s + spaces((w - s.len()) as nat)
    }
}

/// Appends `n` spaces to `out`.
pub fn push_spaces(out: &mut Vec<char>, n: usize)
    ensures
        final(out)@ == old(out)@ + spaces(n as nat),
{
    let mut i: usize = 0;
    while i < n
        invariant
            i <= n,
            out@ == old(out)@ + spaces(i as nat),
        decreases n - i,
    {
        out.push(' ');
        i = i + 1;
        assert(out@ =~= old(out)@ + spaces(i as nat));
    }
}

/// Appends `s` to `out`, right-aligned in a field of `width` characters.
pub fn push_pad_left(out: &mut Vec<char>, s: &Vec<char>, width: usize)
    ensures
        final(out)@ == old(out)@ + pad_left(s@, width as nat),
{
    if s.len() < width {
        push_spaces(out, width - s.len());
    }
    let mut i: usize = 0;
    let ghost mid = out@;
    while i < s.len()
        invariant
            i <= s@.len(),
            out@ == mid + s@.take(i as int),
        decreases s@.len() - i,
    {
        out.push(s[i]);
        i = i + 1;
        assert(out@ =~= mid + s@.take(i as int));
    }
    assert(s@.take(s@.len() as int) =~= s@);
    assert(out@ =~= old(out)@ + pad_left(s@, width as nat));
}

/// Appends `s` to `out`, left-aligned in a field of `width` characters.
pub fn push_pad_right(out: &mut Vec<char>, s: &Vec<char>, width: usize)
    ensures
        final(out)@ == old(out)@ + pad_right(s@, width as nat),
{
    let mut i: usize = 0;
    while i < s.len()
        invariant
            i <= s@.len(),
            out@ == old(out)@ + s@.take(i as int),
        decreases s@.len() - i,
    {
        out.push(s[i]);
        i = i + 1;
        assert(out@ =~= old(out)@ + s@.take(i as int));
    }
    assert(s@.take(s@.len() as int) =~= s@);
    if s.len() < width {
        push_spaces(out, width - s.len());
    }
    assert(out@ =~= old(out)@ + pad_right(s@, width as nat));
}

/// The decimal representation of `n` as characters.
pub fn decimal_chars(n: u64) -> (cs: Vec<char>)
    ensures
        cs@ == decimal(n as nat),
{
    let mut cs: Vec<char> = Vec::new();
    push_decimal(&mut cs, n);
    assert(cs@ =~= decimal(n as nat));
    cs
}

/// The digits of a signed number text: after one optional `'+'` or `'-'`.
pub open spec fn signed_digits(s: Seq<char>) -> Seq<char> {
    if s.len() > 0 && (s[0] == '+' || s[0] == '-') {
        s.skip(1)
    } else {
        s
    }
}

/// What `str::parse::<i32>` gives: an optional `'+'` or `'-'`, then at
/// least one ASCII digit and nothing else, for a value that fits in `i32`.
pub open spec fn parse_i32_spec(s: Seq<char>) -> Option<i32> {
    let neg = s.len() > 0 && s[0] == '-';
    let d = signed_digits(s);
    if d.len() > 0 && (forall|i: int| 0 <= i < d.len() ==> is_digit(#[trigger] d[i])) && (if neg {
        digits_value(d) <= 0x8000_0000
    } else {
        digits_value(d) <= 0x7fff_ffff
    }) {
        Some(
            if neg {
                (0 - digits_value(d)) as i32
            } else {
                digits_value(d) as i32
            },
        )
    } else {
        None
    }
}

/// `s` read as an `i32`: `str::parse::<i32>`, with the error left out.
pub fn parse_i32(s: &str) -> (r: Option<i32>)
    ensures
        r == parse_i32_spec(s@),
{
    let cs = chars_of(s);
    let signed = cs.len() > 0 && (cs[0] == '+' || cs[0] == '-');
    let neg = cs.len() > 0 && cs[0] == '-';
    let start: usize = if signed { 1 } else { 0 };
    let ghost d = signed_digits(s@);
    assert(d =~= s@.skip(start as int));
    if start >= cs.len() {
        return None;
    }
    let limit: u64 = if neg { 0x8000_0000 } else { 0x7fff_ffff };
    let mut acc: u64 = 0;
    let mut i: usize = start;
    while i < cs.len()
        invariant
            start <= i <= cs@.len(),
            start < cs@.len(),
            cs@ == s@,
            d == s@.skip(start as int),
            limit == if neg { 0x8000_0000u64 } else { 0x7fff_ffffu64 },
            d == signed_digits(s@),
            neg == (s@.len() > 0 && s@[0] == '-'),
            forall|j: int| 0 <= j < i - start ==> is_digit(#[trigger] d[j]),
            acc == digits_value(d.take(i - start)),
            acc <= limit,
        decreases cs@.len() - i,
    {
        let c = cs[i];
        assert(d[i - start] == c);
        if c < '0' || c > '9' {
            assert(!is_digit(d[i - start]));
            assert(!(forall|j: int| 0 <= j < d.len() ==> is_digit(#[trigger] d[j])));
            return None;
        }
        let digit = (c as u32 - '0' as u32) as u64;
        assert(d.take(i - start + 1).drop_last() =~= d.take(i - start));
        assert(d.take(i - start + 1).last() == c);
        acc = acc * 10 + digit;
        i = i + 1;
        assert(acc == digits_value(d.take(i - start)));
        if acc > limit {
            proof {
                if forall|j: int| 0 <= j < d.len() ==> is_digit(#[trigger] d[j]) {
                    lemma_digits_value_grows(d, i - start);
                    assert(digits_value(d) > limit);
                }
            }
            return None;
        }
    }
    assert(d.take(i - start) =~= d);
    if neg {
        Some((0 - (acc as i64)) as i32)
    } else {
        Some(acc as i32)
    }
}

} // verus!
