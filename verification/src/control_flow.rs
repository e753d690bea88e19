//! Statistics over a slice of integers and a classification by ranges.

use vstd::prelude::*;

verus! {

/// `m` is the least element of `s`, which is not empty.
pub open spec fn is_min_of(s: Seq<i32>, m: i32) -> bool {
    (exists|i: int| 0 <= i < s.len() && s[i] == m) && forall|i: int|
        0 <= i < s.len() ==> m <= #[trigger] s[i]
}

/// `m` is the greatest element of `s`, which is not empty.
pub open spec fn is_max_of(s: Seq<i32>, m: i32) -> bool {
    (exists|i: int| 0 <= i < s.len() && s[i] == m) && forall|i: int|
        0 <= i < s.len() ==> #[trigger] s[i] <= m
}

/// The least element, or `None` for an empty slice.
pub fn calculate_min(data: &[i32]) -> (r: Option<i32>)
    ensures
        r is None <==> data@.len() == 0,
        r matches Some(m) ==> is_min_of(data@, m),
{
    if data.len() == 0 {
        return None;
    }
    let mut min = data[0];
    let mut i: usize = 1;
    while i < data.len()
        invariant
            1 <= i <= data@.len(),
            exists|j: int| 0 <= j < i && data@[j] == min,
            forall|j: int| 0 <= j < i ==> min <= #[trigger] data@[j],
        decreases data@.len() - i,
    {
        if data[i] < min {
            min = data[i];
        }
        i = i + 1;
    }
    Some(min)
}

/// The greatest element, or `None` for an empty slice.
pub fn calculate_max(data: &[i32]) -> (r: Option<i32>)
    ensures
        r is None <==> data@.len() == 0,
        r matches Some(m) ==> is_max_of(data@, m),
{
    if data.len() == 0 {
        return None;
    }
    let mut max = data[0];
    let mut i: usize = 1;
    while i < data.len()
        invariant
            1 <= i <= data@.len(),
            exists|j: int| 0 <= j < i && data@[j] == max,
            forall|j: int| 0 <= j < i ==> #[trigger] data@[j] <= max,
        decreases data@.len() - i,
    {
        if data[i] > max {
            max = data[i];
        }
        i = i + 1;
    }
    Some(max)
}

/// The sum of the elements of `s`.
pub open spec fn seq_sum(s: Seq<i32>) -> int
    decreases s.len(),
{
    if s.len() == 0 {
        0
    } else {
        seq_sum(s.drop_last()) + s.last()
    }
}

/// Every running sum of `s`, from the left, fits in `i32`: adding them up
/// one by one in `i32` does not overflow.
pub open spec fn running_sums_fit(s: Seq<i32>) -> bool {
    forall|k: int| 0 <= k <= s.len() ==> i32::MIN <= #[trigger] seq_sum(s.take(k)) <= i32::MAX
}

/// The sum of the elements, added from the left.
pub fn calculate_sum(data: &[i32]) -> (total: i32)
    requires
        running_sums_fit(data@),
    ensures
        total == seq_sum(data@),
{
    let mut total: i32 = 0;
    let mut i: usize = 0;
    assert(data@.take(0) =~= seq![]);
    while i < data.len()
        invariant
            i <= data@.len(),
            running_sums_fit(data@),
            total == seq_sum(data@.take(i as int)),
        decreases data@.len() - i,
    {
        assert(data@.take(i + 1).drop_last() =~= data@.take(i as int));
        assert(i32::MIN <= seq_sum(data@.take(i + 1)) <= i32::MAX);
        total = total + data[i];
        i = i + 1;
    }
    assert(data@.take(i as int) =~= data@);
    total
}

/// The size class of a city of `population` people.
pub open spec fn city_class(population: u32) -> Seq<char> {
    if population > 10_000_000 {
        "超大城市"@
    } else if population > 1_000_000 {
        "大城市"@
    } else if population > 100_000 {
        "中等城市"@
    } else {
        "小城市"@
    }
}

/// The size class of a city of `population` people.
pub fn classify_city(population: u32) -> (s: &'static str)
    ensures
        s@ == city_class(population),
{
    if population > 10_000_000 {
        "超大城市"
    } else if population > 1_000_000 {
        "大城市"
    } else if population > 100_000 {
        "中等城市"
    } else {
        "小城市"
    }
}

} // verus!
