//! Borrowed views of strings and slices: the first word, the sum of a slice
//! and the longest word of a text.

use vstd::prelude::*;
use crate::control_flow::{running_sums_fit, seq_sum};
use crate::text::{lemma_word_spans_wf, split_whitespace, word_spans, words};

pub use crate::lifetimes::first_word;

verus! {

/// The sum of the elements, added from the left.
pub fn sum_slice(data: &[i32]) -> (sum: i32)
    requires
        running_sums_fit(data@),
    ensures
        sum == seq_sum(data@),
{
    crate::control_flow::calculate_sum(data)
}

/// `i` is the word of `ws` that the scan keeps: the first of the words
/// with the most characters.
pub open spec fn is_first_longest(ws: Seq<Seq<char>>, i: int) -> bool {
    &&& 0 <= i < ws.len()
    &&& forall|j: int| 0 <= j < ws.len() ==> (#[trigger] ws[j]).len() <= ws[i].len()
    &&& forall|j: int| 0 <= j < i ==> (#[trigger] ws[j]).len() < ws[i].len()
}

/// The longest word of `text` by number of characters, the first of them on
/// a tie; the empty string when `text` has no words.
pub fn longest_word(text: &str) -> (w: &str)
    ensures
        words(text@).len() == 0 ==> w@.len() == 0,
        words(text@).len() > 0 ==> exists|i: int|
            is_first_longest(words(text@), i) && w@ == words(text@)[i],
{
    let ws = split_whitespace(text);
    let ghost wv = words(text@);
    let mut longest: &str = "";
    let mut best: usize = 0;
    let mut max_len: usize = 0;
    let mut i: usize = 0;
    proof {
        reveal_strlit("");
    }
    while i < ws.len()
        invariant
            i <= ws@.len(),
            wv == words(text@),
            ws@.len() == wv.len(),
            forall|k: int| 0 <= k < ws@.len() ==> (#[trigger] ws@[k])@ == wv[k],
            max_len == longest@.len(),
            i == 0 ==> longest@.len() == 0,
            i > 0 ==> best < i && longest@ == wv[best as int],
            forall|j: int| 0 <= j < i ==> (#[trigger] wv[j]).len() <= max_len,
            i > 0 ==> forall|j: int| 0 <= j < best ==> (#[trigger] wv[j]).len() < max_len,
        decreases ws@.len() - i,
    {
        let w = ws[i];
        let len = crate::text::chars_of(w).len();
        proof {
            lemma_word_spans_wf(text@);
            assert(word_spans(text@)[i as int].0 < word_spans(text@)[i as int].1);
            assert(wv[i as int].len() > 0);
        }
        if len > max_len {
            max_len = len;
            longest = w;
            best = i;
        }
        i = i + 1;
    }
    proof {
        if wv.len() > 0 {
            assert(is_first_longest(wv, best as int));
        }
    }
    longest
}

} // verus!
