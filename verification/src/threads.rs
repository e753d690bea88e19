//! The computation that the threading examples hand to worker threads.

use vstd::prelude::*;

verus! {

/// The Fibonacci numbers: 0, 1, 1, 2, 3, 5, …
pub open spec fn fib_spec(n: nat) -> nat
    decreases n,
{
    if n == 0 {
        0
    } else if n == 1 {
        1
    } else {
        fib_spec((n - 1) as nat) + fib_spec((n - 2) as nat)
    }
}

/// The `n`-th Fibonacci number, computed by plain recursion.
pub fn fib(n: u32) -> (r: u64)
    requires
        fib_spec(n as nat) <= u64::MAX,
    ensures
        r == fib_spec(n as nat),
    decreases n,
{
    match n {
        0 => 0,
        1 => 1,
        _ => fib(n - 1) + fib(n - 2),
    }
}

} // verus!
