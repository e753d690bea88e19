//! Counting words: each distinct word with the number of times it occurs, in
//! the order the words first occur, and two rankings of such counts.

use vstd::prelude::*;
use crate::kv_store::{
    compare_keys, key_less, lemma_key_less_total, lemma_key_less_transitive, KeyOrder,
};
use crate::text::{str_eq, str_views};

verus! {

/// The number of times `w` occurs in `ws`.
pub open spec fn count_in(ws: Seq<Seq<char>>, w: Seq<char>) -> nat
    decreases ws.len(),
{
    if ws.len() == 0 {
        0
    } else {
        count_in(ws.drop_last(), w) + if ws.last() == w {
            1nat
        } else {
            0nat
        }
    }
}

/// The distinct words of `ws`, in the order they first occur.
pub open spec fn distinct_words(ws: Seq<Seq<char>>) -> Seq<Seq<char>>
    decreases ws.len(),
{
    if ws.len() == 0 {
        seq![]
    } else {
        let d = distinct_words(ws.drop_last());
        if d.contains(ws.last()) {
            d
        } else {
            d.push(ws.last())
        }
    }
}

/// Each distinct word of `ws` with the number of times it occurs, in the
/// order the words first occur.
pub open spec fn tally(ws: Seq<Seq<char>>) -> Seq<(Seq<char>, nat)> {
    distinct_words(ws).map_values(|w: Seq<char>| (w, count_in(ws, w)))
}

/// The distinct words are distinct, are the words that occur, and a word
/// that does not occur is counted zero times.
pub proof fn lemma_distinct_words(ws: Seq<Seq<char>>)
    ensures
        forall|i: int, j: int|
            0 <= i < j < distinct_words(ws).len() ==> #[trigger] distinct_words(ws)[i]
                != #[trigger] distinct_words(ws)[j],
        forall|w: Seq<char>| #[trigger] distinct_words(ws).contains(w) <==> ws.contains(w),
        forall|w: Seq<char>| !ws.contains(w) ==> #[trigger] count_in(ws, w) == 0,
        distinct_words(ws).len() <= ws.len(),
    decreases ws.len(),
{
    if ws.len() > 0 {
        let p = ws.drop_last();
        lemma_distinct_words(p);
        let d = distinct_words(p);
        let last = ws.last();
        assert forall|w: Seq<char>| ws.contains(w) <==> (p.contains(w) || w == last) by {
            if ws.contains(w) {
                let i = choose|i: int| 0 <= i < ws.len() && ws[i] == w;
                if i < p.len() {
                    assert(p[i] == w);
                }
            }
            if p.contains(w) {
                let i = choose|i: int| 0 <= i < p.len() && p[i] == w;
                assert(ws[i] == w);
            }
            if w == last {
                assert(ws[ws.len() - 1] == w);
            }
        }
        assert forall|w: Seq<char>| !ws.contains(w) implies #[trigger] count_in(ws, w) == 0 by {
            assert(!p.contains(w));
            assert(w != last);
            assert(count_in(p, w) == 0);
            assert(count_in(ws, w) == count_in(p, w));
        }
        if !d.contains(last) {
            let e = d.push(last);
            assert forall|w: Seq<char>| e.contains(w) <==> (d.contains(w) || w == last) by {
                if e.contains(w) {
                    let i = choose|i: int| 0 <= i < e.len() && e[i] == w;
                    if i < d.len() {
                        assert(d[i] == w);
                    }
                }
                if d.contains(w) {
                    let i = choose|i: int| 0 <= i < d.len() && d[i] == w;
                    assert(e[i] == w);
                }
                if w == last {
                    assert(e[e.len() - 1] == w);
                }
            }
            assert forall|i: int, j: int| 0 <= i < j < e.len() implies #[trigger] e[i]
                != #[trigger] e[j] by {
                if j == e.len() - 1 {
                    assert(d[i] == e[i]);
                    assert(d.contains(e[i]));
                } else {
                    assert(d[i] == e[i] && d[j] == e[j]);
                }
            }
        }
    }
}

/// The views of count pairs whose keys are string slices.
pub open spec fn count_views(t: Seq<(&str, usize)>) -> Seq<(Seq<char>, nat)> {
    t.map_values(|p: (&str, usize)| (p.0@, p.1 as nat))
}

/// The first position of a pair with the key `w`.
fn find_key(t: &Vec<(&str, usize)>, w: &str) -> (r: Option<usize>)
    ensures
        r matches Some(j) ==> j < t@.len() && t@[j as int].0@ == w@,
        r is None ==> forall|k: int| 0 <= k < t@.len() ==> (#[trigger] t@[k]).0@ != w@,
{
    let mut j: usize = 0;
    while j < t.len()
        invariant
            j <= t@.len(),
            forall|k: int| 0 <= k < j ==> (#[trigger] t@[k]).0@ != w@,
        decreases t@.len() - j,
    {
        if str_eq(t[j].0, w) {
            return Some(j);
        }
        j = j + 1;
    }
    None
}

/// Each distinct word of `ws` with the number of times it occurs, in the
/// order the words first occur.
pub fn tally_words<'a>(ws: &Vec<&'a str>) -> (t: Vec<(&'a str, usize)>)
    ensures
        count_views(t@) == tally(str_views(ws@)),
{
    let ghost all = str_views(ws@);
    let mut t: Vec<(&'a str, usize)> = Vec::new();
    let mut i: usize = 0;
    assert(all.take(0) =~= seq![]);
    assert(count_views(t@) =~= tally(all.take(0)));
    while i < ws.len()
        invariant
            i <= ws@.len(),
            all == str_views(ws@),
            count_views(t@) == tally(all.take(i as int)),
            forall|j: int| 0 <= j < t@.len() ==> (#[trigger] t@[j]).1 <= i,
        decreases ws@.len() - i,
    {
        let w = ws[i];
        let ghost p = all.take(i as int);
        let ghost q = all.take(i + 1);
        assert(q.drop_last() =~= p);
        assert(q.last() == w@);
        proof {
            lemma_distinct_words(p);
        }
        let ghost d = distinct_words(p);
        proof {
            assert(count_views(t@).len() == t@.len());
        }
        let pos = find_key(&t, w);
        if let Some(j) = pos {
            assert(count_views(t@)[j as int] == tally(p)[j as int]);
            assert(d[j as int] == w@);
            assert(d.contains(w@));
            assert(distinct_words(q) == d);
            let (k, c) = t[j];
            let ghost old_t = t@;
            t.set(j, (k, c + 1));
            assert forall|m: int| 0 <= m < d.len() implies #[trigger] count_views(t@)[m] == tally(
                q,
            )[m] by {
                assert(count_views(old_t)[m] == tally(p)[m]);
                if m != j {
                    assert(d[m] != d[j as int]);
                }
            }
            assert(count_views(t@) =~= tally(q));
        } else {
            assert(!d.contains(w@)) by {
                if d.contains(w@) {
                    let k = choose|k: int| 0 <= k < d.len() && d[k] == w@;
                    assert(count_views(t@)[k] == tally(p)[k]);
                    assert(t@[k].0@ == w@);
                }
            }
            assert(distinct_words(q) == d.push(w@));
            assert(!p.contains(w@));
            assert(count_in(p, w@) == 0);
            let ghost old_t = t@;
            t.push((w, 1));
            assert forall|m: int| 0 <= m < d.len() + 1 implies #[trigger] count_views(t@)[m]
                == tally(q)[m] by {
                if m < d.len() {
                    assert(count_views(old_t)[m] == tally(p)[m]);
                    assert(d[m] != w@) by {
                        assert(d.contains(d[m]));
                    }
                }
            }
            assert(count_views(t@) =~= tally(q));
        }
        i = i + 1;
    }
    assert(all.take(i as int) =~= all);
    t
}

/// `i` is the first position of a largest count in `es`.
pub open spec fn is_first_max(es: Seq<(Seq<char>, nat)>, i: int) -> bool {
    &&& 0 <= i < es.len()
    &&& forall|j: int| 0 <= j < es.len() ==> (#[trigger] es[j]).1 <= es[i].1
    &&& forall|j: int| 0 <= j < i ==> (#[trigger] es[j]).1 < es[i].1
}

/// The first position of a largest count in `es`.
pub open spec fn first_max(es: Seq<(Seq<char>, nat)>) -> int {
    choose|i: int| is_first_max(es, i)
}

/// `es` ordered by count, largest first, equal counts keeping their order:
/// what a stable sort by descending count gives.
pub open spec fn by_count(es: Seq<(Seq<char>, nat)>) -> Seq<(Seq<char>, nat)>
    decreases es.len(),
{
    let i = first_max(es);
    if 0 <= i < es.len() {
        seq![es[i]] + by_count(es.remove(i))
    } else {
        seq![]
    }
}

/// There is one first position of a largest count.
pub proof fn lemma_first_max(es: Seq<(Seq<char>, nat)>, i: int)
    requires
        is_first_max(es, i),
    ensures
        first_max(es) == i,
{
    let k = first_max(es);
    assert(is_first_max(es, k));
    if k < i {
        assert(es[k].1 < es[i].1);
    } else if i < k {
        assert(es[i].1 < es[k].1);
    }
}

/// A non-empty sequence has a first position of a largest count.
pub proof fn lemma_first_max_exists(es: Seq<(Seq<char>, nat)>)
    requires
        es.len() > 0,
    ensures
        is_first_max(es, first_max(es)),
    decreases es.len(),
{
    let n = es.len() - 1;
    if n == 0 {
        assert(is_first_max(es, 0));
    } else {
        let p = es.drop_last();
        lemma_first_max_exists(p);
        let i = first_max(p);
        assert(forall|j: int| 0 <= j < p.len() ==> p[j] == es[j]);
        if es[n].1 > p[i].1 {
            assert(is_first_max(es, n));
        } else {
            assert(is_first_max(es, i));
        }
    }
}

/// Ranking by count keeps the number of entries.
pub proof fn lemma_by_count_len(es: Seq<(Seq<char>, nat)>)
    ensures
        by_count(es).len() == es.len(),
    decreases es.len(),
{
    if es.len() > 0 {
        lemma_first_max_exists(es);
        let i = first_max(es);
        lemma_by_count_len(es.remove(i));
    }
}

/// The position of the first largest count of `es`.
fn first_max_position<T: View<V = Seq<char>>>(es: &Vec<(T, usize)>) -> (i: usize)
    requires
        es@.len() > 0,
    ensures
        is_first_max(pair_views(es@), i as int),
{
    let ghost v = pair_views(es@);
    let mut best: usize = 0;
    let mut j: usize = 1;
    while j < es.len()
        invariant
            1 <= j <= es@.len(),
            v == pair_views(es@),
            best < j,
            forall|k: int| 0 <= k < j ==> (#[trigger] v[k]).1 <= v[best as int].1,
            forall|k: int| 0 <= k < best ==> (#[trigger] v[k]).1 < v[best as int].1,
        decreases es@.len() - j,
    {
        assert(v[j as int].1 == es@[j as int].1);
        assert(v[best as int].1 == es@[best as int].1);
        if es[j].1 > es[best].1 {
            best = j;
        }
        j = j + 1;
    }
    best
}

/// The views of count pairs.
pub open spec fn pair_views<T: View<V = Seq<char>>>(t: Seq<(T, usize)>) -> Seq<(Seq<char>, nat)> {
    t.map_values(|p: (T, usize)| (p.0@, p.1 as nat))
}

/// `es` ordered by count, largest first, equal counts keeping their order.
pub fn order_by_count<T: View<V = Seq<char>>>(es: Vec<(T, usize)>) -> (r: Vec<(T, usize)>)
    ensures
        pair_views(r@) == by_count(pair_views(es@)),
{
    let ghost whole = pair_views(es@);
    let mut rest = es;
    let mut out: Vec<(T, usize)> = Vec::new();
    assert(pair_views(out@) + by_count(pair_views(rest@)) =~= by_count(whole));
    while rest.len() > 0
        invariant
            pair_views(out@) + by_count(pair_views(rest@)) == by_count(whole),
        decreases rest@.len(),
    {
        let i = first_max_position(&rest);
        let ghost rv = pair_views(rest@);
        proof {
            lemma_first_max(rv, i as int);
        }
        let e = rest.remove(i);
        assert(pair_views(rest@) =~= rv.remove(i as int));
        assert(by_count(rv) == seq![rv[i as int]] + by_count(rv.remove(i as int)));
        let ghost before = out@;
        out.push(e);
        assert(pair_views(out@) =~= pair_views(before).push(rv[i as int]));
        assert(pair_views(out@) + by_count(pair_views(rest@)) =~= pair_views(before) + by_count(
            rv,
        ));
    }
    assert(pair_views(rest@).len() == 0);
    assert(by_count(pair_views(rest@)) =~= seq![]);
    assert(pair_views(out@) =~= pair_views(out@) + by_count(pair_views(rest@)));
    out
}

/// `a` ranks before `b`: a larger count, or an equal count and a key that
/// sorts first.
pub open spec fn ranks_before(a: (Seq<char>, nat), b: (Seq<char>, nat)) -> bool {
    a.1 > b.1 || (a.1 == b.1 && key_less(a.0, b.0))
}

/// The keys of `es` are distinct.
pub open spec fn distinct_keys(es: Seq<(Seq<char>, nat)>) -> bool {
    forall|i: int, j: int| 0 <= i < j < es.len() ==> (#[trigger] es[i]).0 != (#[trigger] es[j]).0
}

/// `i` is the position in `es` of the pair that ranks before all others.
pub open spec fn is_top(es: Seq<(Seq<char>, nat)>, i: int) -> bool {
    &&& 0 <= i < es.len()
    &&& forall|j: int| 0 <= j < es.len() && j != i ==> ranks_before(es[i], #[trigger] es[j])
}

/// The position of the pair that ranks before all others.
pub open spec fn top(es: Seq<(Seq<char>, nat)>) -> int {
    choose|i: int| is_top(es, i)
}

/// `es` ordered by count, largest first, and equal counts by key.
pub open spec fn by_count_then_key(es: Seq<(Seq<char>, nat)>) -> Seq<(Seq<char>, nat)>
    decreases es.len(),
{
    let i = top(es);
    if 0 <= i < es.len() {
        seq![es[i]] + by_count_then_key(es.remove(i))
    } else {
        seq![]
    }
}

/// Ranking is transitive.
pub proof fn lemma_ranks_before_transitive(
    a: (Seq<char>, nat),
    b: (Seq<char>, nat),
    c: (Seq<char>, nat),
)
    requires
        ranks_before(a, b),
        ranks_before(b, c),
    ensures
        ranks_before(a, c),
{
    if a.1 == b.1 && b.1 == c.1 {
        lemma_key_less_transitive(a.0, b.0, c.0);
    }
}

/// There is one top position.
pub proof fn lemma_top(es: Seq<(Seq<char>, nat)>, i: int)
    requires
        is_top(es, i),
    ensures
        top(es) == i,
{
    let k = top(es);
    assert(is_top(es, k));
    if k != i {
        assert(ranks_before(es[i], es[k]));
        assert(ranks_before(es[k], es[i]));
        lemma_key_less_total(es[i].0, es[k].0);
    }
}

/// The position of the pair of `es` that ranks before all others.
fn top_position(es: &Vec<(&str, usize)>) -> (i: usize)
    requires
        es@.len() > 0,
        distinct_keys(count_views(es@)),
    ensures
        is_top(count_views(es@), i as int),
{
    let ghost v = count_views(es@);
    let mut best: usize = 0;
    let mut j: usize = 1;
    while j < es.len()
        invariant
            1 <= j <= es@.len(),
            v == count_views(es@),
            distinct_keys(v),
            best < j,
            forall|k: int| 0 <= k < j && k != best ==> ranks_before(v[best as int], #[trigger] v[k]),
        decreases es@.len() - j,
    {
        assert(v[j as int] == (es@[j as int].0@, es@[j as int].1 as nat));
        assert(v[best as int] == (es@[best as int].0@, es@[best as int].1 as nat));
        let better = if es[j].1 > es[best].1 {
            true
        } else if es[j].1 == es[best].1 {
            match compare_keys(es[j].0, es[best].0) {
                KeyOrder::Before => true,
                _ => false,
            }
        } else {
            false
        };
        proof {
            if better {
                assert forall|k: int| 0 <= k < j + 1 && k != j implies ranks_before(
                    v[j as int],
                    #[trigger] v[k],
                ) by {
                    if k != best {
                        lemma_ranks_before_transitive(v[j as int], v[best as int], v[k]);
                    }
                }
            } else {
                lemma_key_less_total(v[j as int].0, v[best as int].0);
                assert(v[j as int].0 != v[best as int].0);
            }
        }
        if better {
            best = j;
        }
        j = j + 1;
    }
    best
}

/// `es` ordered by count, largest first, and equal counts by key.
pub fn order_by_count_then_key<'a>(es: Vec<(&'a str, usize)>) -> (r: Vec<(&'a str, usize)>)
    requires
        distinct_keys(count_views(es@)),
    ensures
        count_views(r@) == by_count_then_key(count_views(es@)),
{
    let ghost whole = count_views(es@);
    let mut rest = es;
    let mut out: Vec<(&'a str, usize)> = Vec::new();
    assert(count_views(out@) + by_count_then_key(count_views(rest@)) =~= by_count_then_key(whole));
    while rest.len() > 0
        invariant
            count_views(out@) + by_count_then_key(count_views(rest@)) == by_count_then_key(whole),
            distinct_keys(count_views(rest@)),
        decreases rest@.len(),
    {
        let i = top_position(&rest);
        let ghost rv = count_views(rest@);
        proof {
            lemma_top(rv, i as int);
        }
        let e = rest.remove(i);
        assert(count_views(rest@) =~= rv.remove(i as int));
        assert(by_count_then_key(rv) == seq![rv[i as int]] + by_count_then_key(rv.remove(i as int)));
        assert forall|a: int, b: int| 0 <= a < b < count_views(rest@).len() implies (
        #[trigger] count_views(rest@)[a]).0 != (#[trigger] count_views(rest@)[b]).0 by {
            let oa = if a < i { a } else { a + 1 };
            let ob = if b < i { b } else { b + 1 };
            assert(count_views(rest@)[a] == rv[oa]);
            assert(count_views(rest@)[b] == rv[ob]);
        }
        let ghost before = out@;
        out.push(e);
        assert(count_views(out@) =~= count_views(before).push(rv[i as int]));
        assert(count_views(out@) + by_count_then_key(count_views(rest@)) =~= count_views(before)
            + by_count_then_key(rv));
    }
    assert(by_count_then_key(count_views(rest@)) =~= seq![]);
    assert(count_views(out@) =~= count_views(out@) + by_count_then_key(count_views(rest@)));
    out
}

/// The keys of a tally are distinct.
pub proof fn lemma_tally_distinct(ws: Seq<Seq<char>>)
    ensures
        distinct_keys(tally(ws)),
{
    lemma_distinct_words(ws);
    let t = tally(ws);
    assert forall|i: int, j: int| 0 <= i < j < t.len() implies (#[trigger] t[i]).0 != (
    #[trigger] t[j]).0 by {
        assert(t[i].0 == distinct_words(ws)[i]);
        assert(t[j].0 == distinct_words(ws)[j]);
    }
}

/// Ranking by count orders the entries by count, largest first, and takes
/// each entry from `es`.
pub proof fn lemma_by_count_sorted(es: Seq<(Seq<char>, nat)>)
    ensures
        by_count(es).len() == es.len(),
        forall|i: int| 0 <= i < by_count(es).len() ==> es.contains(#[trigger] by_count(es)[i]),
        forall|i: int, j: int|
            0 <= i < j < by_count(es).len() ==> #[trigger] by_count(es)[i].1 >= #[trigger] by_count(
                es,
            )[j].1,
    decreases es.len(),
{
    lemma_by_count_len(es);
    if es.len() > 0 {
        lemma_first_max_exists(es);
        let m = first_max(es);
        let rest = es.remove(m);
        lemma_by_count_sorted(rest);
        let r = by_count(es);
        let rr = by_count(rest);
        assert(r == seq![es[m]] + rr);
        assert forall|i: int| 0 <= i < r.len() implies es.contains(#[trigger] r[i]) by {
            if i == 0 {
                assert(es[m] == r[0]);
            } else {
                assert(r[i] == rr[i - 1]);
                assert(rest.contains(rr[i - 1]));
                let k = choose|k: int| 0 <= k < rest.len() && rest[k] == rr[i - 1];
                let ek = if k < m { k } else { k + 1 };
                assert(es[ek] == rest[k]);
            }
        }
        assert forall|i: int, j: int| 0 <= i < j < r.len() implies #[trigger] r[i].1 >= #[trigger] r[j].1 by {
            if i == 0 {
                assert(r[j] == rr[j - 1]);
                assert(rest.contains(rr[j - 1]));
                let k = choose|k: int| 0 <= k < rest.len() && rest[k] == rr[j - 1];
                let ek = if k < m { k } else { k + 1 };
                assert(es[ek] == rest[k]);
                assert(es[ek].1 <= es[m].1);
            } else {
                assert(r[i] == rr[i - 1]);
                assert(r[j] == rr[j - 1]);
            }
        }
    }
}

/// Ranking by count and key orders entries with distinct keys strictly: each
/// ranks before every later one.
pub proof fn lemma_by_count_then_key_sorted(es: Seq<(Seq<char>, nat)>)
    requires
        distinct_keys(es),
    ensures
        by_count_then_key(es).len() == es.len(),
        forall|i: int|
            0 <= i < by_count_then_key(es).len() ==> es.contains(#[trigger] by_count_then_key(es)[i]),
        forall|i: int, j: int|
            0 <= i < j < by_count_then_key(es).len() ==> ranks_before(
                #[trigger] by_count_then_key(es)[i],
                #[trigger] by_count_then_key(es)[j],
            ),
    decreases es.len(),
{
    if es.len() > 0 {
        lemma_top_exists(es);
        let m = top(es);
        let rest = es.remove(m);
        assert forall|a: int, b: int| 0 <= a < b < rest.len() implies (#[trigger] rest[a]).0 != (
        #[trigger] rest[b]).0 by {
            let oa = if a < m { a } else { a + 1 };
            let ob = if b < m { b } else { b + 1 };
            assert(rest[a] == es[oa] && rest[b] == es[ob]);
        }
        lemma_by_count_then_key_sorted(rest);
        let r = by_count_then_key(es);
        let rr = by_count_then_key(rest);
        assert(r == seq![es[m]] + rr);
        assert forall|i: int| 0 <= i < r.len() implies es.contains(#[trigger] r[i]) by {
            if i == 0 {
                assert(es[m] == r[0]);
            } else {
                assert(r[i] == rr[i - 1]);
                assert(rest.contains(rr[i - 1]));
                let k = choose|k: int| 0 <= k < rest.len() && rest[k] == rr[i - 1];
                let ek = if k < m { k } else { k + 1 };
                assert(es[ek] == rest[k]);
            }
        }
        assert forall|i: int, j: int| 0 <= i < j < r.len() implies ranks_before(
            #[trigger] r[i],
            #[trigger] r[j],
        ) by {
            if i == 0 {
                assert(r[j] == rr[j - 1]);
                assert(rest.contains(rr[j - 1]));
                let k = choose|k: int| 0 <= k < rest.len() && rest[k] == rr[j - 1];
                let ek = if k < m { k } else { k + 1 };
                assert(es[ek] == rest[k]);
                assert(ek != m);
                assert(ranks_before(es[m], es[ek]));
            } else {
                assert(r[i] == rr[i - 1]);
                assert(r[j] == rr[j - 1]);
            }
        }
    }
}

/// Entries with distinct keys have a top entry.
pub proof fn lemma_top_exists(es: Seq<(Seq<char>, nat)>)
    requires
        distinct_keys(es),
        es.len() > 0,
    ensures
        is_top(es, top(es)),
    decreases es.len(),
{
    let n = es.len() - 1;
    if n == 0 {
        assert(is_top(es, 0));
    } else {
        let p = es.drop_last();
        assert(distinct_keys(p)) by {
            assert forall|a: int, b: int| 0 <= a < b < p.len() implies (#[trigger] p[a]).0 != (
            #[trigger] p[b]).0 by {
                assert(p[a] == es[a] && p[b] == es[b]);
            }
        }
        lemma_top_exists(p);
        let i = top(p);
        assert(forall|j: int| 0 <= j < p.len() ==> p[j] == es[j]);
        lemma_key_less_total(es[n].0, es[i].0);
        assert(es[n].0 != es[i].0);
        if ranks_before(es[n], es[i]) {
            assert forall|j: int| 0 <= j < es.len() && j != n implies ranks_before(
                es[n],
                #[trigger] es[j],
            ) by {
                if j != i {
                    assert(ranks_before(p[i], p[j]));
                    lemma_ranks_before_transitive(es[n], es[i], es[j]);
                }
            }
            assert(is_top(es, n));
        } else {
            assert(ranks_before(es[i], es[n]));
            assert forall|j: int| 0 <= j < es.len() && j != i implies ranks_before(
                es[i],
                #[trigger] es[j],
            ) by {
                if j != n {
                    assert(ranks_before(p[i], p[j]));
                }
            }
            assert(is_top(es, i));
        }
    }
}

/// The sum of the counts of `t`.
pub open spec fn total_count(t: Seq<(Seq<char>, nat)>) -> nat
    decreases t.len(),
{
    if t.len() == 0 {
        0
    } else {
        total_count(t.drop_last()) + t.last().1
    }
}

/// Raising one count by one raises the total by one.
pub proof fn lemma_total_count_bump(t: Seq<(Seq<char>, nat)>, i: int, w: Seq<char>)
    requires
        0 <= i < t.len(),
    ensures
        total_count(t.update(i, (w, t[i].1 + 1))) == total_count(t) + 1,
    decreases t.len(),
{
    let u = t.update(i, (w, t[i].1 + 1));
    if i == t.len() - 1 {
        assert(u.drop_last() =~= t.drop_last());
    } else {
        lemma_total_count_bump(t.drop_last(), i, w);
        assert(u.drop_last() =~= t.drop_last().update(i, (w, t[i].1 + 1)));
    }
}

} // verus!
