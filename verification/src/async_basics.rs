//! What the asynchronous examples compute: the outcome of each simulated
//! fetch and how long it waits, the result of a unit of work, and the sum the
//! blocking task computes.  Waiting and running tasks is done by the program
//! around it.

use vstd::prelude::*;
use vstd::string::*;
use crate::text::{decimal, decimal_string};

verus! {

/// The result of the work named `name`.
pub fn work_result(name: &str) -> (s: String)
    ensures
        s@ == name@ + " 的结果"@,
{
    let mut s = String::from_str(name);
    s.append(" 的结果");
    s
}

/// What fetching block `id` gives, and how many milliseconds it waits first.
pub open spec fn fetch_outcome(id: u32) -> (u64, Result<Seq<char>, Seq<char>>) {
    if id == 0 {
        (0, Err("无效的 ID: 0"@))
    } else if id == 1 {
        (50, Ok("数据块 #1: 用户信息"@))
    } else if id == 2 {
        (200, Ok("数据块 #2: 订单列表"@))
    } else if id == 3 {
        (300, Ok("数据块 #3: 统计报表"@))
    } else {
        (100, Ok("数据块 #"@ + decimal(id as nat) + ": 默认数据"@))
    }
}

/// What fetching block `id` gives, and how many milliseconds it waits first:
/// id 0 is refused at once; ids 1 to 3 have their own data and delays; any
/// other id gets default data after 100 ms.
pub fn fetch_plan(id: u32) -> (r: (u64, Result<String, String>))
    ensures
        r.0 == fetch_outcome(id).0,
        match (r.1, fetch_outcome(id).1) {
            (Ok(s), Ok(t)) => s@ == t,
            (Err(s), Err(t)) => s@ == t,
            _ => false,
        },
{
    if id == 0 {
        return (0, Err(String::from_str("无效的 ID: 0")));
    }
    let (delay, label): (u64, &str) = if id == 1 {
        (50, ": 用户信息")
    } else if id == 2 {
        (200, ": 订单列表")
    } else if id == 3 {
        (300, ": 统计报表")
    } else {
        (100, ": 默认数据")
    };
    let mut s = String::from_str("数据块 #");
    s.append(decimal_string(id as u64).as_str());
    s.append(label);
    proof {
        reveal_strlit("数据块 #1: 用户信息");
        reveal_strlit("数据块 #2: 订单列表");
        reveal_strlit("数据块 #3: 统计报表");
        reveal_strlit("数据块 #");
        reveal_strlit(": 用户信息");
        reveal_strlit(": 订单列表");
        reveal_strlit(": 统计报表");
        assert(decimal(1) == seq!['1']);
        assert(decimal(2) == seq!['2']);
        assert(decimal(3) == seq!['3']);
    }
    assert(id == 1 ==> s@ =~= "数据块 #1: 用户信息"@);
    assert(id == 2 ==> s@ =~= "数据块 #2: 订单列表"@);
    assert(id == 3 ==> s@ =~= "数据块 #3: 统计报表"@);
    (delay, Ok(s))
}

/// The sum `0 + 1 + … + (n - 1)`.
pub open spec fn sum_below_spec(n: nat) -> nat
    decreases n,
{
    if n == 0 {
        0
    } else {
        sum_below_spec((n - 1) as nat) + (n - 1) as nat
    }
}

/// Twice the sum below `n` is `n * (n - 1)`.
pub proof fn lemma_sum_below(n: nat)
    ensures
        2 * sum_below_spec(n) == n * (n - 1),
    decreases n,
{
    if n > 0 {
        let m = (n - 1) as nat;
        lemma_sum_below(m);
        assert(2 * sum_below_spec(m) == m * (m - 1));
        assert(sum_below_spec(n) == sum_below_spec(m) + m);
        assert(m * (m - 1) + 2 * m == (m + 1) * m) by (nonlinear_arith);
        assert(n * (n - 1) == (m + 1) * m);
    } else {
        assert(n * (n - 1) == 0) by (nonlinear_arith)
            requires
                n == 0,
        ;
    }
}

/// The sum of the integers from 0 up to, not including, `n`.
pub fn sum_below(n: u64) -> (s: u64)
    requires
        n * (n - 1) / 2 <= u64::MAX,
    ensures
        s == sum_below_spec(n as nat),
{
    let mut s: u64 = 0;
    let mut i: u64 = 0;
    while i < n
        invariant
            i <= n,
            s == sum_below_spec(i as nat),
            n * (n - 1) / 2 <= u64::MAX,
        decreases n - i,
    {
        proof {
            lemma_sum_below((i + 1) as nat);
            lemma_sum_below(n as nat);
            assert((i + 1) * i <= n * (n - 1)) by (nonlinear_arith)
                requires
                    i < n,
            ;
        }
        s = s + i;
        i = i + 1;
    }
    s
}

} // verus!
