//! Splitting a mutable slice into two non-overlapping halves, written
//! without raw pointers.

use vstd::prelude::*;

verus! {

/// The part of `slice` before `mid` and the part from `mid` on, both
/// mutable; changes through them change `slice`.
pub fn split_at_mut_safe<T>(slice: &mut [T], mid: usize) -> (parts: (&mut [T], &mut [T]))
    requires
        mid <= old(slice)@.len(),
    ensures
        parts.0@ == old(slice)@.subrange(0, mid as int),
        parts.1@ == old(slice)@.subrange(mid as int, old(slice)@.len() as int),
        final(slice)@ == final(parts.0)@ + final(parts.1)@,
{
    slice.split_at_mut(mid)
}

} // verus!
