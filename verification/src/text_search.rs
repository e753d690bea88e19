//! A small `grep`: the search configuration read from command-line arguments,
//! and the line searches, case-sensitive and case-insensitive.

use vstd::prelude::*;
use vstd::string::*;
use crate::text::{
    chars_equal, chars_of, lines, lowercase, push_decimal, push_str_chars, seq_contains,
    split_lines, str_contains, str_eq, str_views, string_from_chars, to_lowercase, decimal,
};

verus! {

/// What one search needs: the query, the file and whether case matters.
#[derive(Debug, Clone)]
pub struct SearchConfig {
    /// The text to look for.
    pub query: String,
    /// The file to search.
    pub file_path: String,
    /// `true` when letters must match in case.
    pub case_sensitive: bool,
}

/// The message that `SearchConfig::new` returns when fewer than three
/// arguments are given: `given` is the number of arguments after the program
/// name, `program` the program name shown in the usage line.
pub open spec fn missing_args_message(given: nat, program: Seq<char>) -> Seq<char> {
    "参数不足：需要至少 2 个参数（查询字符串 和 文件路径），但只收到了 "@ + decimal(given)
        + " 个。\n用法: "@ + program + " <查询字符串> <文件路径> [-i|--case-insensitive]"@
}

/// Whether a fourth argument switches case sensitivity off.
pub open spec fn is_case_insensitive_flag(flag: Seq<char>) -> bool {
    flag == "-i"@ || flag == "--case-insensitive"@
}

impl SearchConfig {
    /// Reads the configuration from command-line arguments: `args[1]` is the
    /// query, `args[2]` the file, and an optional `args[3]` of `-i` or
    /// `--case-insensitive` turns case sensitivity off.  With fewer than three
    /// arguments it returns the usage message.
    pub fn new(args: &[String]) -> (r: Result<SearchConfig, String>)
        ensures
            args@.len() < 3 ==> (r matches Err(msg) && msg@ == missing_args_message(
                (if args@.len() == 0 { 0 } else { args@.len() - 1 }) as nat,
                if args@.len() == 0 { "program"@ } else { args@[0]@ },
            )),
            args@.len() >= 3 ==> (r matches Ok(c) && c.query@ == args@[1]@ && c.file_path@
                == args@[2]@ && c.case_sensitive == !(args@.len() > 3
                && is_case_insensitive_flag(args@[3]@))),
    {
        if args.len() < 3 {
            let given: usize = if args.len() == 0 {
                0
            } else {
                args.len() - 1
            };
            let mut out: Vec<char> = Vec::new();
            push_str_chars(&mut out, "参数不足：需要至少 2 个参数（查询字符串 和 文件路径），但只收到了 ");
            push_decimal(&mut out, given as u64);
            push_str_chars(&mut out, " 个。\n用法: ");
            if args.len() == 0 {
                push_str_chars(&mut out, "program");
            } else {
                push_str_chars(&mut out, args[0].as_str());
            }
            push_str_chars(&mut out, " <查询字符串> <文件路径> [-i|--case-insensitive]");
            let msg = string_from_chars(out.as_slice());
            proof {
                let prog = if args@.len() == 0 { "program"@ } else { args@[0]@ };
                assert(msg@ =~= missing_args_message(given as nat, prog));
            }
            return Err(msg);
        }
        let query = args[1].clone();
        let file_path = args[2].clone();
        let case_sensitive = if args.len() > 3 {
            let flag = chars_of(args[3].as_str());
            let short = chars_of("-i");
            let long = chars_of("--case-insensitive");
            !(chars_equal(flag.as_slice(), short.as_slice()) || chars_equal(
                flag.as_slice(),
                long.as_slice(),
            ))
        } else {
            true
        };
        Ok(SearchConfig { query, file_path, case_sensitive })
    }

    /// The configuration from the values of the environment variables
    /// `SEARCH_QUERY`, `SEARCH_FILE` and `CASE_INSENSITIVE` (`None` when one is
    /// not set): query and file must be set; case sensitivity is off when
    /// `CASE_INSENSITIVE`, lower-cased, is `1`, `true`, `yes` or `on`.
    pub fn from_env_values(
        query: Option<String>,
        file: Option<String>,
        case_flag: Option<String>,
    ) -> (r: Result<SearchConfig, String>)
        ensures
            query is None ==> (r matches Err(m) && m@ == "环境变量 SEARCH_QUERY 未设置。请设置要搜索的查询字符串。"@),
            query is Some && file is None ==> (r matches Err(m) && m@
                == "环境变量 SEARCH_FILE 未设置。请设置目标文件路径。"@),
            query matches Some(q) ==> (file matches Some(f) ==> (r matches Ok(c) && c.query@ == q@
                && c.file_path@ == f@ && c.case_sensitive == !(case_flag matches Some(v)
                && turns_case_off(lowercase(v@))))),
    {
        let query = match query {
            Some(q) => q,
            None => {
                return Err(String::from_str("环境变量 SEARCH_QUERY 未设置。请设置要搜索的查询字符串。"));
            },
        };
        let file_path = match file {
            Some(f) => f,
            None => {
                return Err(String::from_str("环境变量 SEARCH_FILE 未设置。请设置目标文件路径。"));
            },
        };
        let case_sensitive = match case_flag {
            Some(v) => {
                let lower = to_lowercase(v.as_str());
                let l = lower.as_str();
                !(str_eq(l, "1") || str_eq(l, "true") || str_eq(l, "yes") || str_eq(l, "on"))
            },
            None => true,
        };
        Ok(SearchConfig { query, file_path, case_sensitive })
    }
}

/// A lower-cased `CASE_INSENSITIVE` value that turns case sensitivity off.
pub open spec fn turns_case_off(v: Seq<char>) -> bool {
    v == "1"@ || v == "true"@ || v == "yes"@ || v == "on"@
}

/// The lines of `contents` that contain `query`, in order; none for an empty query.
pub open spec fn matching_lines(query: Seq<char>, contents: Seq<char>) -> Seq<Seq<char>> {
    if query.len() == 0 {
        seq![]
    } else {
        lines(contents).filter(|l: Seq<char>| seq_contains(l, query))
    }
}

/// `idx` picks `rs` out of the lines `ls`: the results are lines of `ls` at
/// increasing positions `idx`, each one that `keep` accepts, and every line
/// of `ls` that `keep` accepts is picked, at its own position.
pub open spec fn picks_every_match(
    ls: Seq<Seq<char>>,
    keep: spec_fn(Seq<char>) -> bool,
    rs: Seq<Seq<char>>,
    idx: Seq<int>,
) -> bool {
    &&& idx.len() == rs.len()
    &&& forall|j: int|
        0 <= j < idx.len() ==> 0 <= #[trigger] idx[j] < ls.len() && rs[j] == ls[idx[j]]
            && keep(rs[j])
    &&& forall|j: int, k: int| 0 <= j < k < idx.len() ==> #[trigger] idx[j] < #[trigger] idx[k]
    &&& forall|i: int|
        0 <= i < ls.len() && keep(#[trigger] ls[i]) ==> exists|j: int|
            0 <= j < idx.len() && #[trigger] idx[j] == i
}

/// The positions of the lines of `ls` that `keep` accepts.
proof fn match_positions(ls: Seq<Seq<char>>, keep: spec_fn(Seq<char>) -> bool) -> (idx: Seq<int>)
    ensures
        picks_every_match(ls, keep, ls.filter(keep), idx),
    decreases ls.len(),
{
    reveal(Seq::filter);
    if ls.len() == 0 {
        Seq::<int>::empty()
    } else {
        let p = ls.drop_last();
        let i0 = match_positions(p, keep);
        let n = ls.len() - 1;
        let fp = p.filter(keep);
        assert(ls.filter(keep) == if keep(ls.last()) {
            fp.push(ls.last())
        } else {
            fp
        });
        assert(forall|i: int| 0 <= i < n ==> #[trigger] ls[i] == p[i]);
        if keep(ls[n]) {
            let idx = i0.push(n);
            let rs = fp.push(ls[n]);
            assert forall|j: int| 0 <= j < idx.len() implies 0 <= #[trigger] idx[j] < ls.len()
                && rs[j] == ls[idx[j]] && keep(rs[j]) by {
                if j < i0.len() {
                    assert(idx[j] == i0[j]);
                    assert(rs[j] == fp[j]);
                }
            }
            assert forall|j: int, k: int| 0 <= j < k < idx.len() implies #[trigger] idx[j]
                < #[trigger] idx[k] by {
                if k < i0.len() {
                    assert(idx[j] == i0[j] && idx[k] == i0[k]);
                } else {
                    assert(idx[j] == i0[j]);
                }
            }
            assert forall|i: int| 0 <= i < ls.len() && keep(#[trigger] ls[i]) implies exists|
                j: int,
            | 0 <= j < idx.len() && #[trigger] idx[j] == i by {
                if i < n {
                    assert(keep(p[i]));
                    let j = choose|j: int| 0 <= j < i0.len() && #[trigger] i0[j] == i;
                    assert(idx[j] == i0[j]);
                } else {
                    assert(idx[idx.len() - 1] == n);
                }
            }
            idx
        } else {
            assert forall|j: int| 0 <= j < i0.len() implies 0 <= #[trigger] i0[j] < ls.len()
                && fp[j] == ls[i0[j]] && keep(fp[j]) by {}
            assert forall|i: int| 0 <= i < ls.len() && keep(#[trigger] ls[i]) implies exists|
                j: int,
            | 0 <= j < i0.len() && #[trigger] i0[j] == i by {
                assert(i < n);
                assert(keep(p[i]));
            }
            i0
        }
    }
}

/// Whether a line contains `q`.
pub open spec fn contains_query(q: Seq<char>) -> spec_fn(Seq<char>) -> bool {
    |l: Seq<char>| seq_contains(l, q)
}

/// Whether a line's lower-case form contains the lower-case form of `q`.
pub open spec fn contains_query_ignoring_case(q: Seq<char>) -> spec_fn(Seq<char>) -> bool {
    |l: Seq<char>| seq_contains(lowercase(l), lowercase(q))
}

/// What the case-sensitive search returns, for a non-empty query: the lines
/// of the text that contain the query, each at its own position, in order,
/// and no others: a line that occurs twice and matches is returned twice.
pub proof fn lemma_search_returns_every_matching_line(q: Seq<char>, contents: Seq<char>)
    requires
        q.len() > 0,
    ensures
        exists|idx: Seq<int>|
            picks_every_match(
                lines(contents),
                contains_query(q),
                matching_lines(q, contents),
                idx,
            ),
{
    let keep = contains_query(q);
    let idx = match_positions(lines(contents), keep);
    assert(keep =~= (|l: Seq<char>| seq_contains(l, q)));
    assert(matching_lines(q, contents) == lines(contents).filter(keep));
    assert(picks_every_match(lines(contents), keep, matching_lines(q, contents), idx));
}

/// What the case-insensitive search returns, for a non-empty query: the
/// lines of the text whose lower-case form contains the lower-case query,
/// each at its own position, in order, and no others.
pub proof fn lemma_search_ignoring_case_returns_every_matching_line(
    q: Seq<char>,
    contents: Seq<char>,
)
    requires
        q.len() > 0,
    ensures
        exists|idx: Seq<int>|
            picks_every_match(
                lines(contents),
                contains_query_ignoring_case(q),
                matching_lines_ignoring_case(q, contents),
                idx,
            ),
{
    let keep = contains_query_ignoring_case(q);
    let idx = match_positions(lines(contents), keep);
    assert(keep =~= (|l: Seq<char>| seq_contains(lowercase(l), lowercase(q))));
    assert(matching_lines_ignoring_case(q, contents) == lines(contents).filter(keep));
    assert(picks_every_match(lines(contents), keep, matching_lines_ignoring_case(q, contents), idx));
}

/// The lines of `contents` whose lower-case form contains the lower-case form of
/// `query`, in order; none for an empty query.
pub open spec fn matching_lines_ignoring_case(query: Seq<char>, contents: Seq<char>) -> Seq<
    Seq<char>,
> {
    if query.len() == 0 {
        seq![]
    } else {
        lines(contents).filter(|l: Seq<char>| seq_contains(lowercase(l), lowercase(query)))
    }
}

/// The lines of `contents` (slices of it) that contain `query`; with
/// `case_sensitive == false` this is `search_case_insensitive`.  An empty query
/// matches nothing.
pub fn search<'a>(query: &str, contents: &'a str, case_sensitive: bool) -> (r: Vec<&'a str>)
    ensures
        str_views(r@) == (if case_sensitive {
            matching_lines(query@, contents@)
        } else {
            matching_lines_ignoring_case(query@, contents@)
        }),
{
    if query.is_empty() {
        let r: Vec<&'a str> = Vec::new();
        assert(str_views(r@) =~= seq![]);
        return r;
    }
    if case_sensitive {
        let ls = split_lines(contents);
        let ghost pred = |l: Seq<char>| seq_contains(l, query@);
        let mut r: Vec<&'a str> = Vec::new();
        let mut k: usize = 0;
        while k < ls.len()
            invariant
                pred == (|l: Seq<char>| seq_contains(l, query@)),
                k <= ls@.len(),
                ls@.len() == lines(contents@).len(),
                forall|m: int| 0 <= m < ls@.len() ==> (#[trigger] ls@[m])@ == lines(contents@)[m],
                str_views(r@) == lines(contents@).take(k as int).filter(pred),
            decreases ls@.len() - k,
        {
            let line = ls[k];
            let ghost before = lines(contents@).take(k as int);
            let ghost after = lines(contents@).take(k + 1);
            assert(after.drop_last() =~= before);
            assert(after.last() == line@);
            proof {
                reveal(Seq::filter);
            }
            if str_contains(line, query) {
                r.push(line);
                assert(str_views(r@) =~= before.filter(pred).push(line@));
            }
            k = k + 1;
        }
        assert(lines(contents@).take(ls@.len() as int) =~= lines(contents@));
        r
    } else {
        search_case_insensitive(query, contents)
    }
}

/// The lines of `contents` (slices of it) that contain `query` when both are
/// lower-cased.  An empty query matches nothing.
pub fn search_case_insensitive<'a>(query: &str, contents: &'a str) -> (r: Vec<&'a str>)
    ensures
        str_views(r@) == matching_lines_ignoring_case(query@, contents@),
{
    if query.is_empty() {
        let r: Vec<&'a str> = Vec::new();
        assert(str_views(r@) =~= seq![]);
        return r;
    }
    let query_lower = to_lowercase(query);
    let ls = split_lines(contents);
    let ghost pred = |l: Seq<char>| seq_contains(lowercase(l), lowercase(query@));
    let mut r: Vec<&'a str> = Vec::new();
    let mut k: usize = 0;
    while k < ls.len()
        invariant
            pred == (|l: Seq<char>| seq_contains(lowercase(l), lowercase(query@))),
            k <= ls@.len(),
            query_lower@ == lowercase(query@),
            ls@.len() == lines(contents@).len(),
            forall|m: int| 0 <= m < ls@.len() ==> (#[trigger] ls@[m])@ == lines(contents@)[m],
            str_views(r@) == lines(contents@).take(k as int).filter(pred),
        decreases ls@.len() - k,
    {
        let line = ls[k];
        let ghost before = lines(contents@).take(k as int);
        let ghost after = lines(contents@).take(k + 1);
        assert(after.drop_last() =~= before);
        assert(after.last() == line@);
        proof {
            reveal(Seq::filter);
        }
        let line_lower = to_lowercase(line);
        assert(after.filter(pred) == if pred(after.last()) {
            after.drop_last().filter(pred).push(after.last())
        } else {
            after.drop_last().filter(pred)
        });
        if str_contains(line_lower.as_str(), query_lower.as_str()) {
            assert(pred(line@));
            r.push(line);
            assert(str_views(r@) =~= before.filter(pred).push(line@));
        } else {
            assert(!pred(line@));
        }
        k = k + 1;
    }
    assert(lines(contents@).take(ls@.len() as int) =~= lines(contents@));
    r
}

} // verus!
