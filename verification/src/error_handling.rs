//! Reading a list of integers from text, one per line, with blank lines and
//! `#` comments skipped and the first bad line reported; their statistics;
//! and the errors of an analysis of such a text.

use vstd::prelude::*;
use vstd::string::*;
use crate::text::{
    chars_of, decimal, decimal_string, lines, parse_i32, parse_i32_spec, split_lines, trim, trim_str,
};

verus! {

/// The message for line `n` (1-based) whose text `t` is not an integer.
pub open spec fn bad_line_message(n: nat, t: Seq<char>) -> Seq<char> {
    "第 "@ + decimal(n) + " 行不是有效的整数: \""@ + t + "\""@
}

/// The line is skipped: blank after trimming, or a `#` comment.
pub open spec fn skipped_line(line: Seq<char>) -> bool {
    let t = trim(line);
    t.len() == 0 || t[0] == '#'
}

/// The numbers of the lines `ls`, or the message for the first line that is
/// neither skipped nor an integer.
pub open spec fn numbers_of(ls: Seq<Seq<char>>) -> Result<Seq<i32>, Seq<char>>
    decreases ls.len(),
{
    if ls.len() == 0 {
        Ok(seq![])
    } else {
        match numbers_of(ls.drop_last()) {
            Err(m) => Err(m),
            Ok(ns) => {
                let t = trim(ls.last());
                if skipped_line(ls.last()) {
                    Ok(ns)
                } else {
                    match parse_i32_spec(t) {
                        Some(n) => Ok(ns.push(n)),
                        None => Err(bad_line_message(ls.len(), t)),
                    }
                }
            },
        }
    }
}

/// The integers of `content`, one per line; blank lines and lines starting
/// with `#` (after trimming) are skipped; the first other line that is not an
/// `i32` is reported by its 1-based number and trimmed text.
pub fn parse_numbers(content: &str) -> (r: Result<Vec<i32>, String>)
    ensures
        match numbers_of(lines(content@)) {
            Ok(ns) => r matches Ok(v) && v@ == ns,
            Err(m) => r matches Err(e) && e@ == m,
        },
{
    let ghost ls = lines(content@);
    let ls_v = split_lines(content);
    let mut numbers: Vec<i32> = Vec::new();
    let mut k: usize = 0;
    assert(ls.take(0) =~= seq![]);
    while k < ls_v.len()
        invariant
            k <= ls_v@.len(),
            ls_v@.len() == ls.len(),
            ls == lines(content@),
            forall|m: int| 0 <= m < ls_v@.len() ==> (#[trigger] ls_v@[m])@ == ls[m],
            numbers_of(ls.take(k as int)) == Ok::<Seq<i32>, Seq<char>>(numbers@),
        decreases ls_v@.len() - k,
    {
        let line = ls_v[k];
        assert(ls.take(k + 1).drop_last() =~= ls.take(k as int));
        assert(ls.take(k + 1).last() == line@);
        let trimmed = trim_str(line);
        let tc = chars_of(trimmed);
        if tc.len() == 0 || tc[0] == '#' {
            k = k + 1;
        } else {
            match parse_i32(trimmed) {
                Some(num) => {
                    numbers.push(num);
                    k = k + 1;
                },
                None => {
                    proof {
                        let prefix = ls.take(k + 1);
                        assert(prefix.len() == k + 1);
                        assert(numbers_of(prefix) == Err::<Seq<i32>, Seq<char>>(
                            bad_line_message((k + 1) as nat, trimmed@),
                        ));
                        lemma_numbers_of_error_stays(ls, k + 1);
                        assert(ls.take(ls.len() as int) =~= ls);
                    }
                    let mut msg = String::from_str("第 ");
                    msg.append(decimal_string((k + 1) as u64).as_str());
                    msg.append(" 行不是有效的整数: \"");
                    msg.append(trimmed);
                    msg.append("\"");
                    return Err(msg);
                },
            }
        }
    }
    assert(ls.take(k as int) =~= ls);
    Ok(numbers)
}

/// Once a prefix of the lines fails, every longer prefix fails the same way.
pub proof fn lemma_numbers_of_error_stays(ls: Seq<Seq<char>>, k: int)
    requires
        0 <= k <= ls.len(),
        numbers_of(ls.take(k)) is Err,
    ensures
        numbers_of(ls.take(ls.len() as int)) == numbers_of(ls.take(k)),
    decreases ls.len() - k,
{
    if k < ls.len() {
        assert(ls.take(k + 1).drop_last() =~= ls.take(k));
        lemma_numbers_of_error_stays(ls, k + 1);
    }
}

/// The sum of `s`.
pub open spec fn sum_of(s: Seq<i32>) -> int
    decreases s.len(),
{
    if s.len() == 0 {
        0
    } else {
        sum_of(s.drop_last()) + s.last()
    }
}

/// Every running sum of `s`, from the left, fits in an `i64`.
pub open spec fn sums_fit(s: Seq<i32>) -> bool {
    forall|k: int| 0 <= k <= s.len() ==> i64::MIN <= #[trigger] sum_of(s.take(k)) <= i64::MAX
}

/// Whether every running sum of `numbers` fits in an `i64`, so that their
/// statistics can be taken without overflow.
pub fn sums_fit_i64(numbers: &[i32]) -> (b: bool)
    ensures
        b == sums_fit(numbers@),
{
    let mut acc: i128 = 0;
    let mut i: usize = 0;
    assert(numbers@.take(0) =~= Seq::<i32>::empty());
    while i < numbers.len()
        invariant
            i <= numbers@.len(),
            acc == sum_of(numbers@.take(i as int)),
            forall|k: int| 0 <= k <= i ==> i64::MIN <= #[trigger] sum_of(numbers@.take(k)) <= i64::MAX,
        decreases numbers@.len() - i,
    {
        assert(numbers@.take(i + 1).drop_last() =~= numbers@.take(i as int));
        acc = acc + numbers[i] as i128;
        if acc < i64::MIN as i128 || acc > i64::MAX as i128 {
            assert(sum_of(numbers@.take(i + 1)) == acc);
            return false;
        }
        i = i + 1;
    }
    assert(numbers@.take(i as int) =~= numbers@);
    true
}

/// Statistics of a list of numbers. The average is `sum / count`, or none
/// for an empty list.
#[derive(Debug, Clone, Copy, PartialEq, Eq, Structural)]
pub struct StatsResult {
    /// How many numbers there are.
    pub count: usize,
    /// Their sum.
    pub sum: i64,
    /// The smallest; 0 for an empty list.
    pub min: i32,
    /// The largest; 0 for an empty list.
    pub max: i32,
}

/// `st` holds the statistics of `s`.
pub open spec fn is_stats_of(st: StatsResult, s: Seq<i32>) -> bool {
    &&& st.count == s.len()
    &&& st.sum == sum_of(s)
    &&& s.len() == 0 ==> st.min == 0 && st.max == 0
    &&& s.len() > 0 ==> s.contains(st.min) && s.contains(st.max)
    &&& forall|i: int| 0 <= i < s.len() ==> st.min <= #[trigger] s[i] <= st.max
}

/// The count, sum, smallest and largest of `numbers`; all 0 when there are
/// none.
pub fn compute_stats(numbers: &[i32]) -> (st: StatsResult)
    requires
        sums_fit(numbers@),
    ensures
        is_stats_of(st, numbers@),
{
    if numbers.len() == 0 {
        return StatsResult { count: 0, sum: 0, min: 0, max: 0 };
    }
    let mut sum: i64 = 0;
    let mut min: i32 = numbers[0];
    let mut max: i32 = numbers[0];
    let mut i: usize = 0;
    assert(numbers@.take(0) =~= Seq::<i32>::empty());
    while i < numbers.len()
        invariant
            0 < numbers@.len(),
            i <= numbers@.len(),
            sums_fit(numbers@),
            sum == sum_of(numbers@.take(i as int)),
            numbers@.contains(min),
            numbers@.contains(max),
            forall|k: int| 0 <= k < i ==> min <= #[trigger] numbers@[k] <= max,
        decreases numbers@.len() - i,
    {
        assert(numbers@.take(i + 1).drop_last() =~= numbers@.take(i as int));
        assert(i64::MIN <= sum_of(numbers@.take(i + 1)) <= i64::MAX);
        let x = numbers[i];
        sum = sum + x as i64;
        if x < min {
            min = x;
        }
        if x > max {
            max = x;
        }
        i = i + 1;
    }
    assert(numbers@.take(i as int) =~= numbers@);
    StatsResult { count: numbers.len(), sum, min, max }
}

/// What can go wrong in an analysis of a file of numbers.
#[derive(Debug)]
pub enum FileStatsError {
    /// The file could not be read; the message of the I/O error.
    IoError(String),
    /// A line is not an integer; the message says which.
    ParseError(String),
    /// No line holds a number.
    EmptyInput,
}

/// The message shown for `e`.
pub open spec fn error_message(e: FileStatsError) -> Seq<char> {
    match e {
        FileStatsError::IoError(m) => "I/O 错误: "@ + m@,
        FileStatsError::ParseError(m) => "解析错误: "@ + m@,
        FileStatsError::EmptyInput => "输入为空: 文件中没有有效数据"@,
    }
}

impl FileStatsError {
    /// The message shown for this error.
    pub fn message(&self) -> (s: String)
        ensures
            s@ == error_message(*self),
    {
        match self {
            FileStatsError::IoError(m) => {
                let mut s = String::from_str("I/O 错误: ");
                s.append(m.as_str());
                s
            },
            FileStatsError::ParseError(m) => {
                let mut s = String::from_str("解析错误: ");
                s.append(m.as_str());
                s
            },
            FileStatsError::EmptyInput => String::from_str("输入为空: 文件中没有有效数据"),
        }
    }
}

/// The statistics of the numbers in `content` (see `parse_numbers`): the
/// message of the first bad line as a parse error, `EmptyInput` when no line
/// holds a number.
pub fn analyze_content(content: &str) -> (r: Result<StatsResult, FileStatsError>)
    requires
        numbers_of(lines(content@)) matches Ok(ns) ==> sums_fit(ns),
    ensures
        match numbers_of(lines(content@)) {
            Err(m) => r matches Err(FileStatsError::ParseError(e)) && e@ == m,
            Ok(ns) => if ns.len() == 0 {
                r matches Err(FileStatsError::EmptyInput)
            } else {
                r matches Ok(st) && is_stats_of(st, ns)
            },
        },
{
    match parse_numbers(content) {
        Err(m) => Err(FileStatsError::ParseError(m)),
        Ok(numbers) => {
            if numbers.len() == 0 {
                Err(FileStatsError::EmptyInput)
            } else {
                Ok(compute_stats(numbers.as_slice()))
            }
        },
    }
}

} // verus!
