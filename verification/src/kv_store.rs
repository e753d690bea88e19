//! A small key-value store: string keys and values kept sorted by key, and the
//! line format `key|value` it is saved in and loaded from.  Reading and writing
//! the file is done by the program around it.

use vstd::prelude::*;
use crate::text::{
    chars_of, is_ws, lemma_line_spans_wf, lemma_trim_of_non_ws_ends, line_spans, closed_line_spans,
    open_line_start, lines, split_lines, string_from_chars, push_str_chars, trim, trim_str,
};
use vstd::string::*;

verus! {

/// `a` sorts before `b`: lexicographic order of their characters by code
/// point, the order of `str`'s `Ord`.
pub open spec fn key_less(a: Seq<char>, b: Seq<char>) -> bool
    decreases a.len(),
{
    if a.len() == 0 {
        b.len() > 0
    } else if b.len() == 0 {
        false
    } else if a[0] != b[0] {
        a[0] < b[0]
    } else {
        key_less(a.drop_first(), b.drop_first())
    }
}

/// No key sorts before itself.
pub proof fn lemma_key_less_irreflexive(a: Seq<char>)
    ensures
        !key_less(a, a),
    decreases a.len(),
{
    if a.len() > 0 {
        lemma_key_less_irreflexive(a.drop_first());
    }
}

/// Two different keys are ordered one way or the other, and not both.
pub proof fn lemma_key_less_total(a: Seq<char>, b: Seq<char>)
    ensures
        a != b ==> (key_less(a, b) || key_less(b, a)),
        !(key_less(a, b) && key_less(b, a)),
    decreases a.len(),
{
    if a.len() > 0 && b.len() > 0 {
        lemma_key_less_total(a.drop_first(), b.drop_first());
        if a[0] == b[0] && a.drop_first() == b.drop_first() {
            assert(a =~= seq![a[0]] + a.drop_first());
            assert(b =~= seq![b[0]] + b.drop_first());
        }
    } else if a.len() == 0 && b.len() == 0 {
        assert(a =~= b);
    }
}

/// The key order is transitive.
pub proof fn lemma_key_less_transitive(a: Seq<char>, b: Seq<char>, c: Seq<char>)
    requires
        key_less(a, b),
        key_less(b, c),
    ensures
        key_less(a, c),
    decreases a.len(),
{
    if a.len() > 0 && b.len() > 0 && c.len() > 0 {
        if a[0] == b[0] && b[0] == c[0] {
            lemma_key_less_transitive(a.drop_first(), b.drop_first(), c.drop_first());
        }
    }
}

/// A key sorts before every longer key that starts with it: `str`'s order
/// puts a proper prefix first.
pub proof fn lemma_prefix_sorts_first(a: Seq<char>, s: Seq<char>)
    requires
        s.len() > 0,
    ensures
        key_less(a, a + s),
        !key_less(a + s, a),
    decreases a.len(),
{
    if a.len() > 0 {
        assert((a + s).drop_first() =~= a.drop_first() + s);
        assert((a + s)[0] == a[0]);
        lemma_prefix_sorts_first(a.drop_first(), s);
    } else {
        assert(a + s =~= s);
    }
}

/// Two keys that agree up to a position and differ there are ordered by the
/// characters at that position, whatever follows: `str`'s lexicographic order.
pub proof fn lemma_first_difference_decides(
    p: Seq<char>,
    x: char,
    y: char,
    u: Seq<char>,
    w: Seq<char>,
)
    requires
        x < y,
    ensures
        key_less(p + seq![x] + u, p + seq![y] + w),
        !key_less(p + seq![y] + w, p + seq![x] + u),
    decreases p.len(),
{
    let a = p + seq![x] + u;
    let b = p + seq![y] + w;
    if p.len() > 0 {
        let q = p.drop_first();
        assert(a.drop_first() =~= q + seq![x] + u);
        assert(b.drop_first() =~= q + seq![y] + w);
        assert(a[0] == p[0]);
        assert(b[0] == p[0]);
        lemma_first_difference_decides(q, x, y, u, w);
    } else {
        assert(a[0] == x);
        assert(b[0] == y);
    }
}

/// How two keys compare.
pub enum KeyOrder {
    Before,
    Same,
    After,
}

/// Compares two keys in the order of `key_less`.
pub fn compare_keys(a: &str, b: &str) -> (o: KeyOrder)
    ensures
        o is Before <==> key_less(a@, b@),
        o is Same <==> a@ == b@,
        o is After <==> key_less(b@, a@),
{
    proof {
        lemma_key_less_total(a@, b@);
        lemma_key_less_irreflexive(a@);
    }
    let ac = chars_of(a);
    let bc = chars_of(b);
    let mut k: usize = 0;
    assert(a@.skip(0) =~= a@);
    assert(b@.skip(0) =~= b@);
    while k < ac.len() && k < bc.len()
        invariant
            k <= ac@.len(),
            k <= bc@.len(),
            ac@ == a@,
            bc@ == b@,
            a@.take(k as int) == b@.take(k as int),
            key_less(a@, b@) == key_less(a@.skip(k as int), b@.skip(k as int)),
            key_less(b@, a@) == key_less(b@.skip(k as int), a@.skip(k as int)),
        decreases ac@.len() - k,
    {
        let x = ac[k];
        let y = bc[k];
        assert(a@.skip(k as int)[0] == x);
        assert(b@.skip(k as int)[0] == y);
        if x < y {
            return KeyOrder::Before;
        }
        if x > y {
            return KeyOrder::After;
        }
        assert(x == y);
        assert(a@.skip(k as int).drop_first() =~= a@.skip(k + 1));
        assert(b@.skip(k as int).drop_first() =~= b@.skip(k + 1));
        assert(a@.take(k + 1) =~= a@.take(k as int).push(x));
        assert(b@.take(k + 1) =~= b@.take(k as int).push(y));
        k = k + 1;
    }
    if k < bc.len() {
        assert(a@.skip(k as int).len() == 0);
        KeyOrder::Before
    } else if k < ac.len() {
        assert(b@.skip(k as int).len() == 0);
        KeyOrder::After
    } else {
        assert(a@ =~= a@.take(k as int));
        assert(b@ =~= b@.take(k as int));
        KeyOrder::Same
    }
}

/// A key-value store kept in memory, with the file it is saved to.
#[derive(Debug)]
pub struct KvStore {
    data: Vec<(String, String)>,
    file_path: String,
}

/// The key-value pairs of `d`, as character sequences.
pub open spec fn pair_views(d: Seq<(String, String)>) -> Seq<(Seq<char>, Seq<char>)> {
    d.map_values(|p: (String, String)| (p.0@, p.1@))
}

/// Some pair of `ps` has the key `k`.
pub open spec fn has_key(ps: Seq<(Seq<char>, Seq<char>)>, k: Seq<char>) -> bool {
    exists|i: int| 0 <= i < ps.len() && #[trigger] ps[i].0 == k
}

/// A position of a pair of `ps` with the key `k`.
pub open spec fn key_index(ps: Seq<(Seq<char>, Seq<char>)>, k: Seq<char>) -> int {
    choose|i: int| 0 <= i < ps.len() && #[trigger] ps[i].0 == k
}

/// The value paired with `k` in `ps`.
pub open spec fn value_of(ps: Seq<(Seq<char>, Seq<char>)>, k: Seq<char>) -> Seq<char> {
    ps[key_index(ps, k)].1
}

/// The map that the pairs `ps` describe.
pub open spec fn pairs_map(ps: Seq<(Seq<char>, Seq<char>)>) -> Map<Seq<char>, Seq<char>> {
    Map::new(|k: Seq<char>| has_key(ps, k), |k: Seq<char>| value_of(ps, k))
}

/// The keys of `ps` are in strictly increasing order.
pub open spec fn keys_sorted(ps: Seq<(Seq<char>, Seq<char>)>) -> bool {
    forall|i: int, j: int| 0 <= i < j < ps.len() ==> key_less(#[trigger] ps[i].0, #[trigger] ps[j].0)
}

/// In sorted pairs, the value of a key is the one paired with it.
pub proof fn lemma_value_at(ps: Seq<(Seq<char>, Seq<char>)>, i: int)
    requires
        keys_sorted(ps),
        0 <= i < ps.len(),
    ensures
        has_key(ps, ps[i].0),
        value_of(ps, ps[i].0) == ps[i].1,
        pairs_map(ps).contains_key(ps[i].0),
        pairs_map(ps)[ps[i].0] == ps[i].1,
{
    let k = ps[i].0;
    assert(has_key(ps, k));
    let j = key_index(ps, k);
    if j != i {
        if j < i {
            assert(key_less(ps[j].0, ps[i].0));
        } else {
            assert(key_less(ps[i].0, ps[j].0));
        }
        lemma_key_less_irreflexive(k);
    }
}

/// The first `'|'` of `s` is at `i`.
pub open spec fn first_bar_at(s: Seq<char>, i: int) -> bool {
    &&& 0 <= i < s.len()
    &&& s[i] == '|'
    &&& forall|j: int| 0 <= j < i ==> s[j] != '|'
}

/// `s` holds a `'|'`.
pub open spec fn has_bar(s: Seq<char>) -> bool {
    exists|i: int| 0 <= i < s.len() && s[i] == '|'
}

/// Where the first `'|'` of `s` is.
pub open spec fn first_bar(s: Seq<char>) -> int {
    choose|i: int| first_bar_at(s, i)
}

/// The first `'|'` is unique.
pub proof fn lemma_first_bar(s: Seq<char>, i: int)
    requires
        first_bar_at(s, i),
    ensures
        first_bar(s) == i,
        has_bar(s),
{
    let j = first_bar(s);
    assert(first_bar_at(s, j));
    if j < i {
        assert(s[j] != '|');
    } else if i < j {
        assert(s[i] != '|');
    }
}

/// What one line of a saved file holds: the line is trimmed, and split at its
/// first `'|'` into key and value; a line without `'|'` holds nothing.
pub open spec fn parse_record(line: Seq<char>) -> Option<(Seq<char>, Seq<char>)> {
    let t = trim(line);
    if has_bar(t) {
        let i = first_bar(t);
        Some((t.take(i), t.skip(i + 1)))
    } else {
        None
    }
}

/// The map that the lines `ls` load to: each record in turn, a later record
/// of a key replacing an earlier one.
pub open spec fn load_lines(ls: Seq<Seq<char>>) -> Map<Seq<char>, Seq<char>>
    decreases ls.len(),
{
    if ls.len() == 0 {
        Map::empty()
    } else {
        let m = load_lines(ls.drop_last());
        match parse_record(ls.last()) {
            Some(kv) => m.insert(kv.0, kv.1),
            None => m,
        }
    }
}

/// The 1-based numbers of the lines of `ls` that are not blank and hold no
/// `'|'`, in order: the lines that loading skips with a warning.
pub open spec fn skipped_in(ls: Seq<Seq<char>>) -> Seq<int>
    decreases ls.len(),
{
    if ls.len() == 0 {
        seq![]
    } else {
        let prev = skipped_in(ls.drop_last());
        let t = trim(ls.last());
        if t.len() > 0 && !has_bar(t) {
            prev.push(ls.len() as int)
        } else {
            prev
        }
    }
}

/// The map that the text of a saved file loads to.
pub open spec fn parsed_map(text: Seq<char>) -> Map<Seq<char>, Seq<char>> {
    load_lines(lines(text))
}

/// The lines of a saved file that loading skips.
pub open spec fn skipped_lines(text: Seq<char>) -> Seq<int> {
    skipped_in(lines(text))
}

/// The line that saves the pair `k`, `v`: `key|value`.
pub open spec fn record_line(k: Seq<char>, v: Seq<char>) -> Seq<char> {
    k + seq!['|'] + v
}

/// The text that saves the pairs `ps`: one record line per pair, each ended by
/// `'\n'`.
pub open spec fn entries_text(ps: Seq<(Seq<char>, Seq<char>)>) -> Seq<char>
    decreases ps.len(),
{
    if ps.len() == 0 {
        seq![]
    } else {
        entries_text(ps.drop_last()) + record_line(ps.last().0, ps.last().1) + seq!['\n']
    }
}

/// Where the first `'|'` of `cs` is, if it has one.
fn find_bar(cs: &Vec<char>) -> (r: Option<usize>)
    ensures
        r is None <==> !has_bar(cs@),
        r matches Some(i) ==> first_bar_at(cs@, i as int),
{
    let mut i: usize = 0;
    while i < cs.len()
        invariant
            i <= cs@.len(),
            forall|j: int| 0 <= j < i ==> cs@[j] != '|',
        decreases cs@.len() - i,
    {
        if cs[i] == '|' {
            return Some(i);
        }
        i = i + 1;
    }
    None
}

impl KvStore {
    /// The pairs of the store, as character sequences, sorted by key.
    pub closed spec fn pairs(&self) -> Seq<(Seq<char>, Seq<char>)> {
        pair_views(self.data@)
    }

    /// The store's contents.
    pub open spec fn view(&self) -> Map<Seq<char>, Seq<char>> {
        pairs_map(self.pairs())
    }

    /// The store's internal order holds: keys strictly increasing.
    pub open spec fn wf(&self) -> bool {
        keys_sorted(self.pairs())
    }

    /// The file the store is saved to.
    pub closed spec fn path(&self) -> Seq<char> {
        self.file_path@
    }

    /// The store kept in `path`: with the file's contents when the file exists
    /// (`existing`), read as by `load`; empty otherwise.  The line numbers of
    /// lines skipped for want of a `'|'` are returned alongside.
    pub fn open(path: &str, existing: Option<&str>) -> (r: (KvStore, Vec<usize>))
        ensures
            r.0.wf(),
            r.0.path() == path@,
            existing is None ==> r.0.view() == Map::<Seq<char>, Seq<char>>::empty() && r.1@.len()
                == 0,
            existing matches Some(text) ==> r.0.view() == parsed_map(text@) && r.1@.map_values(
                |n: usize| n as int,
            ) == skipped_lines(text@),
    {
        let mut store = KvStore { data: Vec::new(), file_path: String::from_str(path) };
        assert(store.pairs() =~= seq![]);
        assert(store.view() =~= Map::<Seq<char>, Seq<char>>::empty());
        match existing {
            Some(text) => {
                let skipped = store.load(text);
                (store, skipped)
            },
            None => (store, Vec::new()),
        }
    }

    /// Replaces the contents with what the saved text `text` holds: each
    /// line is trimmed; blank lines are skipped; a line is split at its first
    /// `'|'` into key and value, a later line of a key replacing an earlier
    /// one.  The 1-based numbers of the non-blank lines without a `'|'`, which
    /// are skipped, are returned in order.
    pub fn load(&mut self, text: &str) -> (skipped: Vec<usize>)
        ensures
            final(self).wf(),
            final(self).path() == old(self).path(),
            final(self).view() == parsed_map(text@),
            skipped@.map_values(|n: usize| n as int) == skipped_lines(text@),
    {
        self.data = Vec::new();
        let ghost ls = lines(text@);
        let ls_v = split_lines(text);
        let mut skipped: Vec<usize> = Vec::new();
        let mut k: usize = 0;
        assert(self.pairs() =~= seq![]);
        assert(self.view() =~= Map::<Seq<char>, Seq<char>>::empty());
        assert(ls.take(0) =~= seq![]);
        assert(skipped@.map_values(|n: usize| n as int) =~= seq![]);
        while k < ls_v.len()
            invariant
                k <= ls_v@.len(),
                ls_v@.len() == ls.len(),
                forall|m: int| 0 <= m < ls_v@.len() ==> (#[trigger] ls_v@[m])@ == ls[m],
                self.wf(),
                self.path() == old(self).path(),
                self.view() == load_lines(ls.take(k as int)),
                skipped@.map_values(|n: usize| n as int) == skipped_in(ls.take(k as int)),
            decreases ls_v@.len() - k,
        {
            let line = ls_v[k];
            assert(ls.take(k + 1).drop_last() =~= ls.take(k as int));
            assert(ls.take(k + 1).last() == line@);
            let t = trim_str(line);
            let tc = chars_of(t);
            match find_bar(&tc) {
                Some(i) => {
                    proof {
                        lemma_first_bar(t@, i as int);
                    }
                    assert(i < tc.len());
                    let key = String::from_str(t.substring_char(0, i));
                    let value = String::from_str(t.substring_char(i + 1, tc.len()));
                    assert(key@ =~= t@.take(i as int));
                    assert(value@ =~= t@.skip(i + 1));
                    let _ = self.set(key, value);
                },
                None => {
                    if tc.len() > 0 {
                        skipped.push(k + 1);
                    }
                },
            }
            k = k + 1;
            assert(skipped@.map_values(|n: usize| n as int) =~= skipped_in(ls.take(k as int)));
        }
        assert(ls.take(k as int) =~= ls);
        skipped
    }

    /// The saved text of the store: a line `key|value` for each pair, in key
    /// order, each ended by `'\n'`.
    pub fn to_text(&self) -> (t: String)
        ensures
            t@ == entries_text(self.pairs()),
    {
        let mut out: Vec<char> = Vec::new();
        let mut i: usize = 0;
        while i < self.data.len()
            invariant
                i <= self.data@.len(),
                out@ == entries_text(self.pairs().take(i as int)),
            decreases self.data@.len() - i,
        {
            assert(self.pairs().take(i + 1).drop_last() =~= self.pairs().take(i as int));
            push_str_chars(&mut out, self.data[i].0.as_str());
            out.push('|');
            push_str_chars(&mut out, self.data[i].1.as_str());
            out.push('\n');
            i = i + 1;
            assert(out@ =~= entries_text(self.pairs().take(i as int)));
        }
        assert(self.pairs().take(i as int) =~= self.pairs());
        string_from_chars(out.as_slice())
    }

    /// Position of `key`: the first pair whose key does not sort before it,
    /// and whether that pair has the key.
    fn find(&self, key: &str) -> (r: (usize, bool))
        requires
            self.wf(),
        ensures
            r.0 <= self.pairs().len(),
            forall|j: int| 0 <= j < r.0 ==> key_less(#[trigger] self.pairs()[j].0, key@),
            r.0 < self.pairs().len() ==> !key_less(self.pairs()[r.0 as int].0, key@),
            r.1 == (r.0 < self.pairs().len() && self.pairs()[r.0 as int].0 == key@),
    {
        let mut i: usize = 0;
        while i < self.data.len()
            invariant
                i <= self.data@.len(),
                self.wf(),
                forall|j: int| 0 <= j < i ==> key_less(#[trigger] self.pairs()[j].0, key@),
            decreases self.data@.len() - i,
        {
            match compare_keys(self.data[i].0.as_str(), key) {
                KeyOrder::Before => {
                    i = i + 1;
                },
                KeyOrder::Same => {
                    return (i, true);
                },
                KeyOrder::After => {
                    proof {
                        lemma_key_less_total(self.pairs()[i as int].0, key@);
                    }
                    return (i, false);
                },
            }
        }
        (i, false)
    }

    /// Inserts `key` with `value`, replacing an existing value.  It never fails.
    pub fn set(&mut self, key: String, value: String) -> (r: Result<(), String>)
        requires
            old(self).wf(),
        ensures
            r is Ok,
            final(self).wf(),
            final(self).path() == old(self).path(),
            final(self).view() == old(self).view().insert(key@, value@),
    {
        let (pos, found) = self.find(key.as_str());
        let ghost old_ps = self.pairs();
        let ghost kv = (key@, value@);
        if found {
            self.data.set(pos, (key, value));
            assert(self.pairs() =~= old_ps.update(pos as int, kv));
        } else {
            self.data.insert(pos, (key, value));
            assert(self.pairs() =~= old_ps.insert(pos as int, kv));
            proof {
                if pos < old_ps.len() {
                    lemma_key_less_total(old_ps[pos as int].0, kv.0);
                }
            }
        }
        let ghost ps = self.pairs();
        proof {
            assert forall|i: int, j: int| 0 <= i < j < ps.len() implies key_less(
                #[trigger] ps[i].0,
                #[trigger] ps[j].0,
            ) by {
                if !found {
                    if j == pos && i < pos {
                    } else if i == pos && j > pos {
                        if j - 1 > pos {
                            lemma_key_less_transitive(kv.0, old_ps[pos as int].0, old_ps[j - 1].0);
                        }
                    } else if i > pos {
                        assert(ps[i] == old_ps[i - 1]);
                        assert(ps[j] == old_ps[j - 1]);
                    } else if j > pos {
                        assert(ps[j] == old_ps[j - 1]);
                    }
                }
            }
            assert forall|k: Seq<char>| #[trigger] self.view().contains_key(k) <==> old(
                self,
            ).view().insert(key@, value@).contains_key(k) by {
                if has_key(ps, k) {
                    let i = choose|i: int| 0 <= i < ps.len() && #[trigger] ps[i].0 == k;
                    if k != kv.0 {
                        let oi = if !found && i > pos { i - 1 } else { i };
                        assert(old_ps[oi].0 == k);
                    }
                }
                if has_key(old_ps, k) {
                    let oi = choose|i: int| 0 <= i < old_ps.len() && #[trigger] old_ps[i].0 == k;
                    let i = if !found && oi >= pos { oi + 1 } else { oi };
                    assert(ps[i].0 == k);
                }
                if k == kv.0 {
                    assert(ps[pos as int].0 == k);
                }
            }
            assert forall|k: Seq<char>| #[trigger] self.view().contains_key(k) implies self.view()[k]
                == old(self).view().insert(key@, value@)[k] by {
                let i = choose|i: int| 0 <= i < ps.len() && #[trigger] ps[i].0 == k;
                lemma_value_at(ps, i);
                if k != kv.0 {
                    let oi = if !found && i > pos { i - 1 } else { i };
                    assert(old_ps[oi] == ps[i]);
                    lemma_value_at(old_ps, oi);
                } else {
                    assert(ps[pos as int] == kv);
                    lemma_value_at(ps, pos as int);
                }
            }
            assert(self.view() =~= old(self).view().insert(key@, value@));
        }
        Ok(())
    }

    /// The value of `key`, if the store has it.
    pub fn get(&self, key: &str) -> (r: Option<&String>)
        requires
            self.wf(),
        ensures
            r is Some <==> self.view().contains_key(key@),
            r matches Some(v) ==> v@ == self.view()[key@],
    {
        let (pos, found) = self.find(key);
        if found {
            proof {
                lemma_value_at(self.pairs(), pos as int);
            }
            Some(&self.data[pos].1)
        } else {
            proof {
                if has_key(self.pairs(), key@) {
                    let i = choose|i: int| 0 <= i < self.pairs().len() && #[trigger] self.pairs()[i].0 == key@;
                    if i >= pos {
                        if i > pos {
                            assert(key_less(self.pairs()[pos as int].0, self.pairs()[i].0));
                        }
                        lemma_key_less_total(self.pairs()[pos as int].0, key@);
                    } else {
                        lemma_key_less_irreflexive(key@);
                    }
                }
            }
            None
        }
    }

    /// Removes `key`, returning its value if the store had it.  It never fails.
    pub fn remove(&mut self, key: &str) -> (r: Result<Option<String>, String>)
        requires
            old(self).wf(),
        ensures
            final(self).wf(),
            final(self).path() == old(self).path(),
            final(self).view() == old(self).view().remove(key@),
            r matches Ok(o) && (o is Some <==> old(self).view().contains_key(key@)),
            r matches Ok(Some(v)) ==> v@ == old(self).view()[key@],
    {
        let (pos, found) = self.find(key);
        let ghost old_ps = self.pairs();
        proof {
            if !found && has_key(old_ps, key@) {
                let i = choose|i: int| 0 <= i < old_ps.len() && #[trigger] old_ps[i].0 == key@;
                if i >= pos {
                    if i > pos {
                        assert(key_less(old_ps[pos as int].0, old_ps[i].0));
                    }
                    lemma_key_less_total(old_ps[pos as int].0, key@);
                } else {
                    lemma_key_less_irreflexive(key@);
                }
            }
        }
        if found {
            proof {
                lemma_value_at(old_ps, pos as int);
            }
            let (_k, v) = self.data.remove(pos);
            let ghost ps = self.pairs();
            assert(ps =~= old_ps.remove(pos as int));
            proof {
                assert forall|i: int, j: int| 0 <= i < j < ps.len() implies key_less(
                    #[trigger] ps[i].0,
                    #[trigger] ps[j].0,
                ) by {
                    let oi = if i >= pos { i + 1 } else { i };
                    let oj = if j >= pos { j + 1 } else { j };
                    assert(ps[i] == old_ps[oi]);
                    assert(ps[j] == old_ps[oj]);
                }
                assert forall|k: Seq<char>| #[trigger] self.view().contains_key(k) <==> old(
                    self,
                ).view().remove(key@).contains_key(k) by {
                    if has_key(ps, k) {
                        let i = choose|i: int| 0 <= i < ps.len() && #[trigger] ps[i].0 == k;
                        let oi = if i >= pos { i + 1 } else { i };
                        assert(old_ps[oi].0 == k);
                        if k == key@ {
                            if oi < pos {
                                assert(key_less(old_ps[oi].0, old_ps[pos as int].0));
                            } else {
                                assert(key_less(old_ps[pos as int].0, old_ps[oi].0));
                            }
                            lemma_key_less_irreflexive(k);
                        }
                    }
                    if has_key(old_ps, k) && k != key@ {
                        let oi = choose|i: int| 0 <= i < old_ps.len() && #[trigger] old_ps[i].0 == k;
                        assert(oi != pos);
                        let i = if oi > pos { oi - 1 } else { oi };
                        assert(ps[i].0 == k);
                    }
                }
                assert forall|k: Seq<char>| #[trigger] self.view().contains_key(k) implies self.view()[k]
                    == old(self).view().remove(key@)[k] by {
                    let i = choose|i: int| 0 <= i < ps.len() && #[trigger] ps[i].0 == k;
                    lemma_value_at(ps, i);
                    let oi = if i >= pos { i + 1 } else { i };
                    assert(old_ps[oi] == ps[i]);
                    lemma_value_at(old_ps, oi);
                }
                assert(self.view() =~= old(self).view().remove(key@));
            }
            Ok(Some(v))
        } else {
            assert(self.view() =~= old(self).view().remove(key@));
            Ok(None)
        }
    }

    /// All pairs, sorted by key.
    pub fn list(&self) -> (r: Vec<(&String, &String)>)
        requires
            self.wf(),
        ensures
            r@.len() == self.view().len(),
            forall|i: int, j: int|
                0 <= i < j < r@.len() ==> key_less((#[trigger] r@[i]).0@, (#[trigger] r@[j]).0@),
            forall|i: int|
                0 <= i < r@.len() ==> self.view().contains_key((#[trigger] r@[i]).0@)
                    && self.view()[r@[i].0@] == r@[i].1@,
            forall|k: Seq<char>|
                #[trigger] self.view().contains_key(k) ==> exists|i: int|
                    0 <= i < r@.len() && (#[trigger] r@[i]).0@ == k,
    {
        let mut r: Vec<(&String, &String)> = Vec::new();
        let mut i: usize = 0;
        while i < self.data.len()
            invariant
                i <= self.data@.len(),
                self.wf(),
                r@.len() == i,
                forall|m: int|
                    0 <= m < i ==> (#[trigger] r@[m]).0@ == self.pairs()[m].0 && r@[m].1@
                        == self.pairs()[m].1,
            decreases self.data@.len() - i,
        {
            r.push((&self.data[i].0, &self.data[i].1));
            i = i + 1;
        }
        proof {
            let ps = self.pairs();
            assert forall|m: int| 0 <= m < r@.len() implies self.view().contains_key(
                (#[trigger] r@[m]).0@,
            ) && self.view()[r@[m].0@] == r@[m].1@ by {
                lemma_value_at(ps, m);
            }
            assert forall|k: Seq<char>| #[trigger] self.view().contains_key(k) implies exists|m: int|
                0 <= m < r@.len() && (#[trigger] r@[m]).0@ == k by {
                let m = choose|m: int| 0 <= m < ps.len() && #[trigger] ps[m].0 == k;
                assert(r@[m].0@ == k);
            }
            lemma_sorted_map_len(ps);
        }
        r
    }

    /// The number of pairs.
    pub fn len(&self) -> (n: usize)
        requires
            self.wf(),
        ensures
            n == self.view().len(),
    {
        proof {
            lemma_sorted_map_len(self.pairs());
        }
        self.data.len()
    }

    /// Whether the store has no pairs.
    pub fn is_empty(&self) -> (b: bool)
        requires
            self.wf(),
        ensures
            b == (self.view().len() == 0),
    {
        proof {
            lemma_sorted_map_len(self.pairs());
        }
        self.data.len() == 0
    }
}

/// Sorted pairs describe a map with one key per pair.
pub proof fn lemma_sorted_map_len(ps: Seq<(Seq<char>, Seq<char>)>)
    requires
        keys_sorted(ps),
    ensures
        pairs_map(ps).dom().finite(),
        pairs_map(ps).len() == ps.len(),
    decreases ps.len(),
{
    if ps.len() == 0 {
        assert(pairs_map(ps).dom() =~= Set::<Seq<char>>::empty());
    } else {
        let qs = ps.drop_last();
        assert(keys_sorted(qs));
        lemma_sorted_map_len(qs);
        let last = ps.last().0;
        assert forall|i: int| 0 <= i < qs.len() implies #[trigger] qs[i].0 != last by {
            assert(key_less(ps[i].0, ps[ps.len() - 1].0));
            lemma_key_less_irreflexive(last);
        }
        assert(pairs_map(ps).dom() =~= pairs_map(qs).dom().insert(last)) by {
            assert forall|k: Seq<char>| pairs_map(ps).dom().contains(k) implies #[trigger] pairs_map(qs).dom().insert(last).contains(k) by {
                let i = choose|i: int| 0 <= i < ps.len() && #[trigger] ps[i].0 == k;
                if i < qs.len() {
                    assert(qs[i].0 == k);
                }
            }
            assert forall|k: Seq<char>| #[trigger] pairs_map(qs).dom().insert(last).contains(k) implies pairs_map(ps).dom().contains(k) by {
                if k == last {
                    assert(ps[ps.len() - 1].0 == k);
                } else {
                    let i = choose|i: int| 0 <= i < qs.len() && #[trigger] qs[i].0 == k;
                    assert(ps[i].0 == k);
                }
            }
        }
        assert(!pairs_map(qs).dom().contains(last));
    }
}

/// The pair `k`, `v` is saved as a line that loads back as the same pair:
/// the key holds no `'|'`, neither holds a `'\n'`, the key does not start and
/// the value does not end with whitespace.
pub open spec fn saves_cleanly(k: Seq<char>, v: Seq<char>) -> bool {
    &&& forall|i: int| 0 <= i < k.len() ==> k[i] != '|' && k[i] != '\n'
    &&& forall|i: int| 0 <= i < v.len() ==> v[i] != '\n'
    &&& (k.len() == 0 || !is_ws(k[0]))
    &&& (v.len() == 0 || !is_ws(v.last()))
}

/// Characters without a `'\n'` leave the lines found so far as they are.
proof fn lemma_lines_extend(s: Seq<char>, l: Seq<char>)
    requires
        forall|i: int| 0 <= i < l.len() ==> l[i] != '\n',
    ensures
        open_line_start(s + l) == open_line_start(s),
        closed_line_spans(s + l) == closed_line_spans(s),
    decreases l.len(),
{
    if l.len() == 0 {
        assert(s + l =~= s);
    } else {
        lemma_lines_extend(s, l.drop_last());
        assert((s + l).drop_last() =~= s + l.drop_last());
        assert((s + l).last() == l.last());
    }
}

/// The lines of the saved text of `ps` are the record lines of its pairs.
proof fn lemma_entries_lines(ps: Seq<(Seq<char>, Seq<char>)>)
    requires
        forall|i: int| 0 <= i < ps.len() ==> #[trigger] saves_cleanly(ps[i].0, ps[i].1),
    ensures
        open_line_start(entries_text(ps)) == entries_text(ps).len(),
        lines(entries_text(ps)) == ps.map_values(
            |p: (Seq<char>, Seq<char>)| record_line(p.0, p.1),
        ),
    decreases ps.len(),
{
    let t = entries_text(ps);
    if ps.len() == 0 {
        assert(lines(t) =~= ps.map_values(|p: (Seq<char>, Seq<char>)| record_line(p.0, p.1)));
    } else {
        let qs = ps.drop_last();
        assert forall|i: int| 0 <= i < qs.len() implies #[trigger] saves_cleanly(
            qs[i].0,
            qs[i].1,
        ) by {
            assert(qs[i] == ps[i]);
        }
        lemma_entries_lines(qs);
        let tq = entries_text(qs);
        let (k, v) = ps.last();
        assert(saves_cleanly(ps[ps.len() - 1].0, ps[ps.len() - 1].1));
        let r = record_line(k, v);
        let u = tq + r;
        assert forall|i: int| 0 <= i < r.len() implies r[i] != '\n' by {
            if i < k.len() {
                assert(r[i] == k[i]);
            } else if i > k.len() {
                assert(r[i] == v[i - k.len() - 1]);
            }
        }
        lemma_lines_extend(tq, r);
        assert(t.drop_last() =~= u);
        assert(t.last() == '\n');
        let n = u.len() as int;
        assert(t[n - 1] == r.last());
        assert(r.last() != '\r') by {
            if v.len() > 0 {
                assert(r.last() == v.last());
            }
        }
        assert(closed_line_spans(t) == closed_line_spans(tq).push((tq.len() as int, n)));
        lemma_line_spans_wf(tq);
        let ls = lines(t);
        let want = ps.map_values(|p: (Seq<char>, Seq<char>)| record_line(p.0, p.1));
        assert(line_spans(tq) == closed_line_spans(tq));
        assert(line_spans(t) == closed_line_spans(t));
        assert(lines(tq).len() == line_spans(tq).len());
        assert(closed_line_spans(tq).len() == qs.len());
        assert(ls.len() == want.len());
        assert forall|i: int| 0 <= i < ls.len() implies #[trigger] ls[i] == want[i] by {
            if i < qs.len() {
                let sp = closed_line_spans(tq)[i];
                assert(line_spans(t)[i] == sp);
                assert(t.subrange(sp.0, sp.1) =~= tq.subrange(sp.0, sp.1));
                assert(lines(tq)[i] == tq.subrange(sp.0, sp.1));
                assert(want[i] == record_line(qs[i].0, qs[i].1));
            } else {
                assert(t.subrange(tq.len() as int, n) =~= r);
            }
        }
        assert(ls =~= want);
    }
}

/// Sorted pairs: the map of all of them is the map of all but the last, with
/// the last added.
proof fn lemma_pairs_map_push(ps: Seq<(Seq<char>, Seq<char>)>)
    requires
        keys_sorted(ps),
        ps.len() > 0,
    ensures
        pairs_map(ps) == pairs_map(ps.drop_last()).insert(ps.last().0, ps.last().1),
{
    let qs = ps.drop_last();
    let n = ps.len() - 1;
    let m = pairs_map(qs).insert(ps.last().0, ps.last().1);
    assert(keys_sorted(qs));
    assert forall|k: Seq<char>| #[trigger] pairs_map(ps).contains_key(k) <==> m.contains_key(k) by {
        if has_key(ps, k) {
            let i = choose|i: int| 0 <= i < ps.len() && #[trigger] ps[i].0 == k;
            if i < n {
                assert(qs[i].0 == k);
            }
        }
        if has_key(qs, k) {
            let i = choose|i: int| 0 <= i < qs.len() && #[trigger] qs[i].0 == k;
            assert(ps[i].0 == k);
        }
        if k == ps.last().0 {
            assert(ps[n].0 == k);
        }
    }
    assert forall|k: Seq<char>| #[trigger] pairs_map(ps).contains_key(k) implies pairs_map(ps)[k]
        == m[k] by {
        let i = choose|i: int| 0 <= i < ps.len() && #[trigger] ps[i].0 == k;
        lemma_value_at(ps, i);
        if i < n {
            assert(qs[i] == ps[i]);
            lemma_value_at(qs, i);
            assert(key_less(ps[i].0, ps[n].0));
            lemma_key_less_irreflexive(k);
        }
    }
    assert(pairs_map(ps) =~= m);
}

/// The record lines of sorted pairs that save cleanly load back to the map of
/// the pairs, and none is skipped.
proof fn lemma_load_records(ps: Seq<(Seq<char>, Seq<char>)>)
    requires
        keys_sorted(ps),
        forall|i: int| 0 <= i < ps.len() ==> #[trigger] saves_cleanly(ps[i].0, ps[i].1),
    ensures
        load_lines(ps.map_values(|p: (Seq<char>, Seq<char>)| record_line(p.0, p.1)))
            == pairs_map(ps),
        skipped_in(ps.map_values(|p: (Seq<char>, Seq<char>)| record_line(p.0, p.1)))
            == Seq::<int>::empty(),
    decreases ps.len(),
{
    let ls = ps.map_values(|p: (Seq<char>, Seq<char>)| record_line(p.0, p.1));
    if ps.len() == 0 {
        assert(pairs_map(ps) =~= Map::<Seq<char>, Seq<char>>::empty());
    } else {
        let qs = ps.drop_last();
        assert(keys_sorted(qs));
        assert forall|i: int| 0 <= i < qs.len() implies #[trigger] saves_cleanly(
            qs[i].0,
            qs[i].1,
        ) by {
            assert(qs[i] == ps[i]);
        }
        lemma_load_records(qs);
        assert(ls.drop_last() =~= qs.map_values(
            |p: (Seq<char>, Seq<char>)| record_line(p.0, p.1),
        ));
        let (k, v) = ps.last();
        assert(saves_cleanly(ps[ps.len() - 1].0, ps[ps.len() - 1].1));
        let r = record_line(k, v);
        assert(ls.last() == r);
        assert(r[0] == if k.len() > 0 { k[0] } else { '|' });
        assert(r.last() == if v.len() > 0 { v.last() } else { '|' });
        lemma_trim_of_non_ws_ends(r);
        assert forall|j: int| 0 <= j < k.len() implies r[j] != '|' by {
            assert(r[j] == k[j]);
        }
        lemma_first_bar(r, k.len() as int);
        assert(r.take(k.len() as int) =~= k);
        assert(r.skip(k.len() + 1int) =~= v);
        assert(parse_record(r) == Some((k, v)));
        lemma_pairs_map_push(ps);
        assert(skipped_in(ls) =~= Seq::<int>::empty());
    }
}

/// A store saved to text (`to_text`) and loaded back (`load`) has the same
/// contents, when each of its pairs saves cleanly; no line is skipped.
pub proof fn lemma_save_then_load(store: KvStore)
    requires
        store.wf(),
        forall|k: Seq<char>|
            #[trigger] store.view().contains_key(k) ==> saves_cleanly(k, store.view()[k]),
    ensures
        parsed_map(entries_text(store.pairs())) == store.view(),
        skipped_lines(entries_text(store.pairs())) == Seq::<int>::empty(),
{
    let ps = store.pairs();
    assert forall|i: int| 0 <= i < ps.len() implies #[trigger] saves_cleanly(ps[i].0, ps[i].1) by {
        lemma_value_at(ps, i);
        assert(store.view().contains_key(ps[i].0));
    }
    lemma_entries_lines(ps);
    lemma_load_records(ps);
}

/// What a read gives back after a write, on the contents that `set`,
/// `remove` and `get` are stated over: after `set(k, v)`, `get(k)` gives `v`
/// and every other key keeps its value; after `remove(k)`, `get(k)` gives
/// nothing and every other key keeps its value.
pub proof fn lemma_read_after_write(
    m: Map<Seq<char>, Seq<char>>,
    k: Seq<char>,
    v: Seq<char>,
    other: Seq<char>,
)
    requires
        other != k,
    ensures
        m.insert(k, v).contains_key(k),
        m.insert(k, v)[k] == v,
        m.insert(k, v).contains_key(other) == m.contains_key(other),
        m.contains_key(other) ==> m.insert(k, v)[other] == m[other],
        !m.remove(k).contains_key(k),
        m.remove(k).contains_key(other) == m.contains_key(other),
        m.contains_key(other) ==> m.remove(k)[other] == m[other],
{
}

/// A saved text, with every line ended, and one more record line `k|v`
/// appended loads to the map of the text with `k` set to `v`: a later line of
/// a key replaces what earlier lines gave it (a read after a later write of
/// the same key returns the later value).
pub proof fn lemma_load_later_record_wins(t: Seq<char>, k: Seq<char>, v: Seq<char>)
    requires
        t.len() == 0 || t.last() == '\n',
        saves_cleanly(k, v),
    ensures
        parsed_map(t + record_line(k, v) + seq!['\n']) == parsed_map(t).insert(k, v),
{
    let r = record_line(k, v);
    let u = t + r;
    let big = u + seq!['\n'];
    assert(open_line_start(t) == t.len());
    assert forall|i: int| 0 <= i < r.len() implies r[i] != '\n' by {
        if i < k.len() {
            assert(r[i] == k[i]);
        } else if i > k.len() {
            assert(r[i] == v[i - k.len() - 1]);
        }
    }
    lemma_lines_extend(t, r);
    assert(big.drop_last() =~= u);
    assert(big.last() == '\n');
    let n = u.len() as int;
    assert(big[n - 1] == r.last());
    assert(r.last() != '\r') by {
        if v.len() > 0 {
            assert(r.last() == v.last());
        }
    }
    assert(closed_line_spans(big) == closed_line_spans(t).push((t.len() as int, n)));
    lemma_line_spans_wf(t);
    assert(line_spans(t) == closed_line_spans(t));
    assert(line_spans(big) == closed_line_spans(big));
    let want = lines(t).push(r);
    let ls = lines(big);
    assert(ls.len() == want.len());
    assert forall|i: int| 0 <= i < ls.len() implies #[trigger] ls[i] == want[i] by {
        if i < lines(t).len() {
            let sp = closed_line_spans(t)[i];
            assert(line_spans(big)[i] == sp);
            assert(big.subrange(sp.0, sp.1) =~= t.subrange(sp.0, sp.1));
        } else {
            assert(big.subrange(t.len() as int, n) =~= r);
        }
    }
    assert(ls =~= want);
    assert(ls.drop_last() =~= lines(t));
    assert(r[0] == if k.len() > 0 { k[0] } else { '|' });
    assert(r.last() == if v.len() > 0 { v.last() } else { '|' });
    lemma_trim_of_non_ws_ends(r);
    assert forall|j: int| 0 <= j < k.len() implies r[j] != '|' by {
        assert(r[j] == k[j]);
    }
    lemma_first_bar(r, k.len() as int);
    assert(r.take(k.len() as int) =~= k);
    assert(r.skip(k.len() + 1int) =~= v);
    assert(parse_record(r) == Some((k, v)));
}

} // verus!
