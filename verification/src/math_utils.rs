//! Number-theoretic helpers: saturating factorial, primality by trial
//! division over `6k ± 1`, and the sieve of Eratosthenes.

use vstd::prelude::*;

verus! {

/// `n!`.
pub open spec fn factorial(n: nat) -> nat
    decreases n,
{
    if n <= 1 {
        1
    } else {
        n * factorial((n - 1) as nat)
    }
}

/// `n!`, or `u64::MAX` when `n!` does not fit in a `u64` (saturating).
pub fn calculate_factorial(n: u64) -> (r: u64)
    ensures
        r == (if factorial(n as nat) <= u64::MAX { factorial(n as nat) } else { u64::MAX as nat }),
{
    if n <= 1 {
        return 1;
    }
    let mut result: u64 = 1;
    let mut i: u64 = 2;
    loop
        invariant
            2 <= i <= n,
            result == (if factorial((i - 1) as nat) <= u64::MAX {
                factorial((i - 1) as nat)
            } else {
                u64::MAX as nat
            }),
        decreases n - i,
    {
        let ghost f = factorial((i - 1) as nat);
        assert(factorial(i as nat) == i * f);
        proof {
            lemma_factorial_positive((i - 1) as nat);
            lemma_saturating_step(f, i as nat, result as nat);
        }
        result = match result.checked_mul(i) {
            Some(v) => v,
            None => u64::MAX,
        };
        if i == n {
            return result;
        }
        i = i + 1;
    }
}

/// `n!` is at least 1.
pub proof fn lemma_factorial_positive(n: nat)
    ensures
        factorial(n) >= 1,
    decreases n,
{
    if n > 1 {
        lemma_factorial_positive((n - 1) as nat);
        assert(n * factorial((n - 1) as nat) >= 1) by (nonlinear_arith)
            requires
                n > 1,
                factorial((n - 1) as nat) >= 1,
        ;
    }
}

/// Saturating the product agrees with multiplying the saturated value.
proof fn lemma_saturating_step(f: nat, i: nat, r: nat)
    requires
        f >= 1,
        i >= 1,
        r == (if f <= u64::MAX { f } else { u64::MAX as nat }),
    ensures
        (if r * i > u64::MAX { u64::MAX as nat } else { r * i }) == (if i * f <= u64::MAX {
            i * f
        } else {
            u64::MAX as nat
        }),
{
    if f <= u64::MAX {
        assert(r * i == i * f) by (nonlinear_arith)
            requires
                r == f,
        ;
    } else {
        assert(r * i >= u64::MAX) by (nonlinear_arith)
            requires
                r == u64::MAX,
                i >= 1,
        ;
        assert(i * f > u64::MAX) by (nonlinear_arith)
            requires
                f > u64::MAX,
                i >= 1,
        ;
    }
}

/// `n` is prime: at least 2 and divisible by no number from 2 to `n - 1`.
pub open spec fn spec_prime(n: nat) -> bool {
    n >= 2 && forall|d: nat| 2 <= d < n ==> #[trigger] (n % d) != 0
}

/// A number that is at least 2 and not prime has a divisor `d >= 2` with `d * d <= n`.
pub proof fn lemma_composite_has_small_divisor(n: nat) -> (d: nat)
    requires
        n >= 2,
        !spec_prime(n),
    ensures
        2 <= d,
        d * d <= n,
        n % d == 0,
{
    let a = choose|a: nat| 2 <= a < n && #[trigger] (n % a) == 0;
    let b = n / a;
    assert(n == a * b) by (nonlinear_arith)
        requires
            a > 0,
            n % a == 0,
            b == n / a,
    ;
    assert(b >= 2) by (nonlinear_arith)
        requires
            n == a * b,
            a < n,
            a >= 2,
    ;
    assert(n % b == 0) by (nonlinear_arith)
        requires
            n == a * b,
            b >= 2,
    ;
    if a <= b {
        assert(a * a <= n) by (nonlinear_arith)
            requires
                n == a * b,
                a <= b,
                a >= 0,
        ;
        a
    } else {
        assert(b * b <= n) by (nonlinear_arith)
            requires
                n == a * b,
                b < a,
                b >= 0,
        ;
        b
    }
}

/// If `d` divides `m` and `m` divides `n`, then `d` divides `n`.
proof fn lemma_divides_transitive(d: nat, m: nat, n: nat)
    requires
        d > 0,
        m > 0,
        m % d == 0,
        n % m == 0,
    ensures
        n % d == 0,
{
    assert(n % d == 0) by (nonlinear_arith)
        requires
            d > 0,
            m > 0,
            m % d == 0,
            n % m == 0,
    {
        let k = m / d;
        let j = n / m;
        assert(m == d * k);
        assert(n == m * j);
        assert(n == d * (k * j));
    }
}

/// Whether `n` is prime, by trial division by 2, 3 and the numbers `6k ± 1`
/// up to the square root of `n`.
///
/// The divisor is squared in a `u64`; for a prime at least `4294967291²` that
/// square would overflow, so such inputs are excluded.
pub fn is_prime(n: u64) -> (b: bool)
    requires
        n < 4294967291u64 * 4294967291u64 || !spec_prime(n as nat),
    ensures
        b == spec_prime(n as nat),
{
    if n < 2 {
        return false;
    }
    if n == 2 || n == 3 {
        assert(forall|d: nat| 2 <= d < n ==> #[trigger] (n as nat % d) != 0);
        return true;
    }
    if n.is_multiple_of(2) || n.is_multiple_of(3) {
        proof {
            if n % 2 == 0 {
                assert((n as nat % 2nat) == 0);
            } else {
                assert((n as nat % 3nat) == 0);
            }
        }
        return false;
    }
    proof {
        assert forall|d: nat| 2 <= d < 5 implies #[trigger] (n as nat % d) != 0 by {
            if d == 4 && n as nat % 4 == 0 {
                lemma_divides_transitive(2, 4, n as nat);
            }
        }
    }
    let mut i: u64 = 5;
    loop
        invariant
            n >= 5,
            n < 4294967291u64 * 4294967291u64 || !spec_prime(n as nat),
            5 <= i < 4294967296,
            i % 6 == 5,
            forall|d: nat| 2 <= d < i ==> #[trigger] (n as nat % d) != 0,
        ensures
            i * i > n,
        decreases n - i,
    {
        assert(i * i <= u64::MAX) by (nonlinear_arith)
            requires
                i < 4294967296,
        ;
        if i * i > n {
            break;
        }
        assert(i + 6 < n) by (nonlinear_arith)
            requires
                i * i <= n,
                i >= 5,
        ;
        if n.is_multiple_of(i) || n.is_multiple_of(i + 2) {
            proof {
                if n % i == 0 {
                    assert((n as nat % (i as nat)) == 0);
                } else {
                    assert((n as nat % ((i + 2) as nat)) == 0);
                }
            }
            return false;
        }
        proof {
            assert forall|d: nat| 2 <= d < i + 6 implies #[trigger] (n as nat % d) != 0 by {
                if d >= i && d != i && d != i + 2 {
                    let two_or_three: nat = if (d - i) % 2 == 1 {
                        2
                    } else {
                        3
                    };
                    assert(d % two_or_three == 0);
                    if n as nat % d == 0 {
                        lemma_divides_transitive(two_or_three, d, n as nat);
                    }
                }
            }
            if i + 6 >= 4294967296 {
                assert(i >= 4294967291);
                assert(i * i >= 4294967291u64 * 4294967291u64) by (nonlinear_arith)
                    requires
                        i >= 4294967291,
                ;
                assert(!spec_prime(n as nat));
                let d = lemma_composite_has_small_divisor(n as nat);
                assert(d < 4294967296) by (nonlinear_arith)
                    requires
                        d * d <= n,
                        n < 0x1_0000_0000_0000_0000,
                ;
                assert(false);
            }
        }
        i = i + 6;
    }
    proof {
        if !spec_prime(n as nat) {
            let d = lemma_composite_has_small_divisor(n as nat);
            assert(d < i) by (nonlinear_arith)
                requires
                    d * d <= n,
                    i * i > n,
                    i >= 0,
            ;
        }
    }
    true
}

/// Every prime up to `limit`, in increasing order: the sieve of Eratosthenes.
pub fn generate_primes(limit: u64) -> (primes: Vec<u64>)
    requires
        limit <= isize::MAX,
    ensures
        forall|k: int| 0 <= k < primes@.len() ==> #[trigger] primes@[k] <= limit && spec_prime(
            primes@[k] as nat,
        ),
        forall|j: int, k: int| 0 <= j < k < primes@.len() ==> #[trigger] primes@[j] < #[trigger] primes@[k],
        forall|p: u64| p <= limit && spec_prime(p as nat) ==> #[trigger] primes@.contains(p),
{
    let mut primes: Vec<u64> = Vec::new();
    if limit < 2 {
        assert forall|p: u64| p <= limit && spec_prime(p as nat) implies #[trigger] primes@.contains(p) by {}
        return primes;
    }
    let n = limit as usize;
    let mut mask: Vec<bool> = Vec::new();
    let mut m: usize = 0;
    while m <= n
        invariant
            n == limit,
            n <= isize::MAX,
            m <= n + 1,
            mask@.len() == m,
            forall|k: int| 0 <= k < m ==> #[trigger] mask@[k] == (k >= 2),
        decreases n + 1 - m,
    {
        mask.push(m >= 2);
        m = m + 1;
    }
    let mut i: usize = 2;
    loop
        invariant
            n == limit,
            2 <= n <= isize::MAX,
            2 <= i <= n,
            (i - 1) * (i - 1) <= n,
            mask@.len() == n + 1,
            forall|k: int|
                0 <= k <= n ==> #[trigger] mask@[k] == unsieved(k as nat, i as nat),
        ensures
            i * i > n,
            forall|k: int|
                0 <= k <= n ==> #[trigger] mask@[k] == unsieved(k as nat, i as nat),
        decreases n + 1 - i,
    {
        assert(i * i <= 2 * n + 1) by (nonlinear_arith)
            requires
                2 <= i,
                2 <= n,
                (i - 1) * (i - 1) <= n,
        {
            let j = i - 1;
            assert(i * i == j * j + 2 * j + 1);
            if j >= 2 {
                assert(2 * j <= j * j);
            }
        }
        if i * i > n {
            break;
        }
        assert((i * i) % (i as int) == 0) by (nonlinear_arith)
            requires
                i >= 2,
        ;
        if mask[i] {
            let mut multiple = i * i;
            while multiple <= n
                invariant
                    n == limit,
                    2 <= n <= isize::MAX,
                    2 <= i,
                    i * i <= n,
                    i * i <= multiple,
                    multiple % i == 0,
                    multiple <= n + i,
                    i <= n,
                    mask@.len() == n + 1,
                    unsieved(i as nat, i as nat),
                    forall|k: int|
                        0 <= k <= n ==> #[trigger] mask@[k] == (unsieved(k as nat, i as nat) && !(
                        k < multiple && k % (i as int) == 0 && i * i <= k)),
                decreases n + i - multiple,
            {
                let ghost old_mask = mask@;
                mask.set(multiple, false);
                proof {
                    assert forall|k: int| 0 <= k <= n implies #[trigger] mask@[k] == (unsieved(
                        k as nat,
                        i as nat,
                    ) && !(k < multiple + i && k % (i as int) == 0 && i * i <= k)) by {
                        if k != multiple && multiple <= k < multiple + i && k % (i as int) == 0 {
                            lemma_no_multiple_between(multiple as int, k, i as int);
                        }
                    }
                }
                assert((multiple + i) % (i as int) == 0) by (nonlinear_arith)
                    requires
                        multiple % i == 0,
                        i >= 2,
                ;
                multiple = multiple + i;
            }
            proof {
                assert forall|k: int| 0 <= k <= n implies #[trigger] mask@[k] == unsieved(
                    k as nat,
                    (i + 1) as nat,
                ) by {
                    lemma_unsieved_step(k as nat, i as nat);
                }
            }
        } else {
            proof {
                assert forall|k: int| 0 <= k <= n implies #[trigger] mask@[k] == unsieved(
                    k as nat,
                    (i + 1) as nat,
                ) by {
                    lemma_unsieved_step(k as nat, i as nat);
                }
            }
        }
        assert(i + 1 <= n) by (nonlinear_arith)
            requires
                i * i <= n,
                i >= 2,
        ;
        i = i + 1;
    }
    let mut idx: usize = 0;
    while idx <= n
        invariant
            n == limit,
            n <= isize::MAX,
            2 <= i,
            i * i > n,
            idx <= n + 1,
            mask@.len() == n + 1,
            forall|k: int| 0 <= k <= n ==> #[trigger] mask@[k] == unsieved(k as nat, i as nat),
            forall|k: int| 0 <= k < primes@.len() ==> #[trigger] primes@[k] < idx && spec_prime(
                primes@[k] as nat,
            ),
            forall|j: int, k: int| 0 <= j < k < primes@.len() ==> #[trigger] primes@[j] < #[trigger] primes@[k],
            forall|p: u64| p < idx && spec_prime(p as nat) ==> #[trigger] primes@.contains(p),
        decreases n + 1 - idx,
    {
        proof {
            lemma_unsieved_is_prime(idx as nat, i as nat);
        }
        let ghost old_primes = primes@;
        if mask[idx] {
            primes.push(idx as u64);
        }
        assert forall|p: u64| p < idx + 1 && spec_prime(p as nat) implies #[trigger] primes@.contains(p) by {
            if p == idx {
                assert(primes@[primes@.len() - 1] == p);
            } else {
                assert(old_primes.contains(p));
                let k = choose|k: int| 0 <= k < old_primes.len() && old_primes[k] == p;
                assert(primes@[k] == p);
            }
        }
        idx = idx + 1;
    }
    primes
}

/// Two different multiples of `i` are at least `i` apart.
proof fn lemma_no_multiple_between(a: int, k: int, i: int)
    requires
        i > 0,
        a % i == 0,
        k % i == 0,
        a < k,
    ensures
        k >= a + i,
{
    assert(k >= a + i) by (nonlinear_arith)
        requires
            i > 0,
            a % i == 0,
            k % i == 0,
            a < k,
    {
        let p = a / i;
        let q = k / i;
        assert(a == i * p);
        assert(k == i * q);
        assert(p < q);
        assert(q >= p + 1);
        assert(i * q >= i * (p + 1));
    }
}

/// `k` is at least 2 and has no divisor `d` with `2 <= d < bound` and `d * d <= k`:
/// what the sieve leaves marked after crossing out the multiples of every
/// number below `bound`.
pub open spec fn unsieved(k: nat, bound: nat) -> bool {
    k >= 2 && forall|d: nat| 2 <= d < bound && d * d <= k ==> #[trigger] (k % d) != 0
}

/// Crossing out the multiples of `i` from `i * i` on (when `i` is unsieved)
/// extends the bound by one; when `i` is already crossed out, its multiples
/// are already crossed out too.
proof fn lemma_unsieved_step(k: nat, i: nat)
    requires
        i >= 2,
    ensures
        unsieved(k, i + 1) == (unsieved(k, i) && !(unsieved(i, i) && k % i == 0 && i * i <= k)),
        !unsieved(i, i) ==> unsieved(k, i + 1) == unsieved(k, i),
{
    if !unsieved(i, i) && unsieved(k, i) && k % i == 0 && i * i <= k {
        let d = choose|d: nat| 2 <= d < i && d * d <= i && #[trigger] (i % d) == 0;
        lemma_divides_transitive(d, i, k);
        assert(d * d <= k) by (nonlinear_arith)
            requires
                d * d <= i,
                i * i <= k,
                d >= 2,
                i >= 2,
        ;
    }
    if unsieved(k, i) && !(unsieved(i, i) && k % i == 0 && i * i <= k) {
        assert forall|d: nat| 2 <= d < i + 1 && d * d <= k implies #[trigger] (k % d) != 0 by {
            if d == i && k % i == 0 && !unsieved(i, i) {
                let e = choose|e: nat| 2 <= e < i && e * e <= i && #[trigger] (i % e) == 0;
                lemma_divides_transitive(e, i, k);
                assert(e * e <= k) by (nonlinear_arith)
                    requires
                        e * e <= i,
                        i * i <= k,
                        e >= 2,
                        i >= 2,
                ;
            }
        }
    }
}

/// Once `bound * bound` exceeds `k`, `k` is unsieved exactly when it is prime.
proof fn lemma_unsieved_is_prime(k: nat, bound: nat)
    requires
        bound * bound > k,
        bound >= 2,
    ensures
        unsieved(k, bound) == spec_prime(k),
{
    if unsieved(k, bound) && !spec_prime(k) {
        let d = lemma_composite_has_small_divisor(k);
        assert(d < bound) by (nonlinear_arith)
            requires
                d * d <= k,
                bound * bound > k,
                bound >= 0,
        ;
    }
    if spec_prime(k) {
        assert forall|d: nat| 2 <= d < bound && d * d <= k implies #[trigger] (k % d) != 0 by {
            assert(d < k) by (nonlinear_arith)
                requires
                    d * d <= k,
                    d >= 2,
            ;
        }
    }
}

/// The sieve and the trial division agree: a number up to `limit` is among
/// the generated primes exactly when it is prime.
pub proof fn lemma_sieve_agrees_with_trial_division(primes: Seq<u64>, limit: u64, x: u64)
    requires
        forall|k: int| 0 <= k < primes.len() ==> #[trigger] primes[k] <= limit && spec_prime(
            primes[k] as nat,
        ),
        forall|p: u64| p <= limit && spec_prime(p as nat) ==> #[trigger] primes.contains(p),
        x <= limit,
    ensures
        primes.contains(x) == spec_prime(x as nat),
{
    if primes.contains(x) {
        let k = choose|k: int| 0 <= k < primes.len() && primes[k] == x;
        assert(spec_prime(primes[k] as nat));
    }
}

} // verus!
