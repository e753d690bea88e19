//! Content that can be summarized (news articles, tweets, blog posts), a
//! generic report over such content, and report layouts built from
//! summaries.

use vstd::prelude::*;
use vstd::string::*;
use crate::text::{
    byte_len, chars_of, decimal, decimal_chars, pad_right, push_decimal, push_pad_right,
    push_spaces, push_str_chars, spaces, str_byte_len, str_eq, string_from_chars,
};

verus! {

/// Content that can be summarized.
pub trait Summary {
    /// The summary's text.
    spec fn summary_text(&self) -> Seq<char>;

    /// The author's name.
    spec fn author_text(&self) -> Seq<char>;

    /// A one-line summary.
    fn summarize(&self) -> (s: String)
        ensures
            s@ == self.summary_text(),
    ;

    /// Who wrote it.
    fn author(&self) -> (s: String)
        ensures
            s@ == self.author_text(),
    ;
}

/// Content that can describe itself over several lines.
pub trait DisplayInfo {
    /// The description's text.
    spec fn info_text(&self) -> Seq<char>;

    /// A description over several lines.
    fn info(&self) -> (s: String)
        ensures
            s@ == self.info_text(),
    ;
}

/// A news article.
#[derive(Debug, Clone)]
pub struct NewsArticle {
    pub headline: String,
    pub content: String,
    pub author: String,
}

/// A tweet.
#[derive(Debug, Clone)]
pub struct Tweet {
    pub username: String,
    pub content: String,
    pub retweet_count: u64,
}

/// A blog post.
#[derive(Debug, Clone)]
pub struct BlogPost {
    pub title: String,
    pub body: String,
    pub author_name: String,
}

/// The first `n` characters of `s` (all of `s` when it is shorter).
pub open spec fn first_chars(s: Seq<char>, n: nat) -> Seq<char> {
    if s.len() <= n {
        s
    } else {
        s.take(n as int)
    }
}

/// The first `n` characters of `s`.
fn prefix_chars(s: &str, n: usize) -> (cs: Vec<char>)
    ensures
        cs@ == first_chars(s@, n as nat),
{
    let all = chars_of(s);
    let mut cs: Vec<char> = Vec::new();
    let mut i: usize = 0;
    while i < all.len() && i < n
        invariant
            i <= all@.len(),
            i <= n,
            all@ == s@,
            cs@ == s@.take(i as int),
        decreases n - i,
    {
        cs.push(all[i]);
        i = i + 1;
        assert(cs@ =~= s@.take(i as int));
    }
    assert(cs@ =~= first_chars(s@, n as nat));
    cs
}

/// The summary that content without its own gets.
pub open spec fn default_summary_text() -> Seq<char> {
    "(Read more...)"@
}

impl Summary for NewsArticle {
    open spec fn summary_text(&self) -> Seq<char> {
        "📰 [新闻] "@ + self.headline@ + " —— 作者: "@ + self.author@ + " | 摘要: "@ + first_chars(
            self.content@,
            60,
        ) + "..."@
    }

    open spec fn author_text(&self) -> Seq<char> {
        self.author@
    }

    fn summarize(&self) -> (s: String) {
        let mut out: Vec<char> = Vec::new();
        push_str_chars(&mut out, "📰 [新闻] ");
        push_str_chars(&mut out, self.headline.as_str());
        push_str_chars(&mut out, " —— 作者: ");
        push_str_chars(&mut out, self.author.as_str());
        push_str_chars(&mut out, " | 摘要: ");
        let preview = prefix_chars(self.content.as_str(), 60);
        push_str_chars(&mut out, string_from_chars(preview.as_slice()).as_str());
        push_str_chars(&mut out, "...");
        string_from_chars(out.as_slice())
    }

    fn author(&self) -> (s: String) {
        self.author.clone()
    }
}

impl DisplayInfo for NewsArticle {
    open spec fn info_text(&self) -> Seq<char> {
        "头条: "@ + self.headline@ + "\n内容长度: "@ + decimal(byte_len(self.content@)) + " 字符\n作者: "@
            + self.author@
    }

    fn info(&self) -> (s: String) {
        let mut out: Vec<char> = Vec::new();
        push_str_chars(&mut out, "头条: ");
        push_str_chars(&mut out, self.headline.as_str());
        push_str_chars(&mut out, "\n内容长度: ");
        push_decimal(&mut out, str_byte_len(self.content.as_str()) as u64);
        push_str_chars(&mut out, " 字符\n作者: ");
        push_str_chars(&mut out, self.author.as_str());
        string_from_chars(out.as_slice())
    }
}

impl Summary for Tweet {
    open spec fn summary_text(&self) -> Seq<char> {
        "🐦 @"@ + self.username@ + ": "@ + first_chars(self.content@, 40) + " — 转发 "@ + decimal(
            self.retweet_count as nat,
        ) + " 次"@
    }

    open spec fn author_text(&self) -> Seq<char> {
        "@"@ + self.username@
    }

    fn summarize(&self) -> (s: String) {
        let mut out: Vec<char> = Vec::new();
        push_str_chars(&mut out, "🐦 @");
        push_str_chars(&mut out, self.username.as_str());
        push_str_chars(&mut out, ": ");
        let preview = prefix_chars(self.content.as_str(), 40);
        push_str_chars(&mut out, string_from_chars(preview.as_slice()).as_str());
        push_str_chars(&mut out, " — 转发 ");
        push_decimal(&mut out, self.retweet_count);
        push_str_chars(&mut out, " 次");
        string_from_chars(out.as_slice())
    }

    fn author(&self) -> (s: String) {
        let mut s = String::from_str("@");
        s.append(self.username.as_str());
        s
    }
}

impl DisplayInfo for Tweet {
    open spec fn info_text(&self) -> Seq<char> {
        "用户: @"@ + self.username@ + "\n内容: "@ + self.content@ + "\n转发数: "@ + decimal(
            self.retweet_count as nat,
        )
    }

    fn info(&self) -> (s: String) {
        let mut out: Vec<char> = Vec::new();
        push_str_chars(&mut out, "用户: @");
        push_str_chars(&mut out, self.username.as_str());
        push_str_chars(&mut out, "\n内容: ");
        push_str_chars(&mut out, self.content.as_str());
        push_str_chars(&mut out, "\n转发数: ");
        push_decimal(&mut out, self.retweet_count);
        string_from_chars(out.as_slice())
    }
}

impl Summary for BlogPost {
    open spec fn summary_text(&self) -> Seq<char> {
        default_summary_text()
    }

    open spec fn author_text(&self) -> Seq<char> {
        self.author_name@
    }

    fn summarize(&self) -> (s: String) {
        String::from_str("(Read more...)")
    }

    fn author(&self) -> (s: String) {
        self.author_name.clone()
    }
}

impl DisplayInfo for BlogPost {
    open spec fn info_text(&self) -> Seq<char> {
        "博客: "@ + self.title@ + "\n作者: "@ + self.author_name@ + "\n正文长度: "@ + decimal(
            byte_len(self.body@),
        ) + " 字符"@
    }

    fn info(&self) -> (s: String) {
        let mut out: Vec<char> = Vec::new();
        push_str_chars(&mut out, "博客: ");
        push_str_chars(&mut out, self.title.as_str());
        push_str_chars(&mut out, "\n作者: ");
        push_str_chars(&mut out, self.author_name.as_str());
        push_str_chars(&mut out, "\n正文长度: ");
        push_decimal(&mut out, str_byte_len(self.body.as_str()) as u64);
        push_str_chars(&mut out, " 字符");
        string_from_chars(out.as_slice())
    }
}

/// A report on one piece of content, with the time it was made.
#[derive(Debug)]
pub struct Report<T> {
    pub data: T,
    pub timestamp: String,
}

/// The report's text for a timestamp and a summary.
pub open spec fn report_text(timestamp: Seq<char>, summary: Seq<char>) -> Seq<char> {
    "═══════════════════════════════\n报告时间: "@ + timestamp + "\n"@ + summary
        + "\n═══════════════════════════════"@
}

impl<T: Summary> Report<T> {
    /// A report on `data`, stamped `2026-06-05 10:00:00`.
    pub fn new(data: T) -> (r: Report<T>)
        ensures
            r.data == data,
            r.timestamp@ == "2026-06-05 10:00:00"@,
    {
        Report { data, timestamp: String::from_str("2026-06-05 10:00:00") }
    }

    /// The report: a rule, the time, the content's summary and a rule.
    pub fn generate(&self) -> (s: String)
        ensures
            s@ == report_text(self.timestamp@, self.data.summary_text()),
    {
        let mut out = String::from_str("═══════════════════════════════\n报告时间: ");
        out.append(self.timestamp.as_str());
        out.append("\n");
        let summary = self.data.summarize();
        out.append(summary.as_str());
        out.append("\n═══════════════════════════════");
        out
    }

    /// Restamps the report.
    pub fn update_timestamp(&mut self, ts: &str)
        ensures
            final(self).timestamp@ == ts@,
            final(self).data == old(self).data,
    {
        self.timestamp = String::from_str(ts);
    }
}

/// The engagement line of a tweet: hot above 100 retweets.
pub open spec fn engagement_text(t: Tweet) -> Seq<char> {
    if t.retweet_count > 100 {
        "🔥 高热度推文 ("@ + decimal(t.retweet_count as nat) + " 转发) —— 来自 @"@ + t.username@
    } else {
        "📊 普通推文 ("@ + decimal(t.retweet_count as nat) + " 转发) —— 来自 @"@ + t.username@
    }
}

/// The card of a tweet: name, the first 28 characters of the content and
/// the retweet count, each in a fixed-width field.
pub open spec fn card_text(t: Tweet) -> Seq<char> {
    "┌──────────────────────────────┐\n│ @"@ + pad_right(t.username@, 27) + "│\n│ "@ + pad_right(
        first_chars(t.content@, 28),
        30,
    ) + "│\n│ 🔄 "@ + pad_right(decimal(t.retweet_count as nat), 27)
        + "│\n└──────────────────────────────┘"@
}

impl Report<Tweet> {
    /// Whether the tweet is hot (over 100 retweets), with its count and author.
    pub fn engagement_score(&self) -> (s: String)
        ensures
            s@ == engagement_text(self.data),
    {
        let mut out: Vec<char> = Vec::new();
        if self.data.retweet_count > 100 {
            push_str_chars(&mut out, "🔥 高热度推文 (");
        } else {
            push_str_chars(&mut out, "📊 普通推文 (");
        }
        push_decimal(&mut out, self.data.retweet_count);
        push_str_chars(&mut out, " 转发) —— 来自 @");
        push_str_chars(&mut out, self.data.username.as_str());
        string_from_chars(out.as_slice())
    }

    /// The tweet as a boxed card.
    pub fn card(&self) -> (s: String)
        ensures
            s@ == card_text(self.data),
    {
        let mut out: Vec<char> = Vec::new();
        push_str_chars(&mut out, "┌──────────────────────────────┐\n│ @");
        push_pad_right(&mut out, &chars_of(self.data.username.as_str()), 27);
        push_str_chars(&mut out, "│\n│ ");
        push_pad_right(&mut out, &prefix_chars(self.data.content.as_str(), 28), 30);
        push_str_chars(&mut out, "│\n│ 🔄 ");
        push_pad_right(&mut out, &decimal_chars(self.data.retweet_count), 27);
        push_str_chars(&mut out, "│\n└──────────────────────────────┘");
        string_from_chars(out.as_slice())
    }
}

/// The boxed report of a summary.
pub open spec fn boxed_report(summary: Seq<char>) -> Seq<char> {
    "╔══════════ 报告 ══════════╗\n║ "@ + pad_right(summary, 24) + "║\n╚════════════════════════╝"@
}

/// The boxed report of any summarizable item.
pub fn generate_report<T: Summary>(item: &T) -> (s: String)
    ensures
        s@ == boxed_report(item.summary_text()),
{
    let summary = item.summarize();
    let mut out: Vec<char> = Vec::new();
    push_str_chars(&mut out, "╔══════════ 报告 ══════════╗\n║ ");
    push_pad_right(&mut out, &chars_of(summary.as_str()), 24);
    push_str_chars(&mut out, "║\n╚════════════════════════╝");
    string_from_chars(out.as_slice())
}

/// The detailed report of a summary, a description and a debug rendering:
/// the debug text is followed by spaces up to 20 bytes.
pub open spec fn detailed_report(summary: Seq<char>, info: Seq<char>, debug: Seq<char>) -> Seq<
    char,
> {
    "╔══════════ 详细报告 ══════════╗\n║ 摘要: "@ + pad_right(summary, 20) + "║\n║ 信息: "@
        + pad_right(info, 20) + "║\n║ 调试: "@ + debug + spaces(
        if byte_len(debug) < 20 { (20 - byte_len(debug)) as nat } else { 0 },
    ) + "\n╚════════════════════════════╝"@
}

/// The detailed report built from a summary, a description and a debug
/// rendering.
pub fn detailed_report_text(summary: &str, info: &str, debug: &str) -> (s: String)
    ensures
        s@ == detailed_report(summary@, info@, debug@),
{
    let mut out: Vec<char> = Vec::new();
    push_str_chars(&mut out, "╔══════════ 详细报告 ══════════╗\n║ 摘要: ");
    push_pad_right(&mut out, &chars_of(summary), 20);
    push_str_chars(&mut out, "║\n║ 信息: ");
    push_pad_right(&mut out, &chars_of(info), 20);
    push_str_chars(&mut out, "║\n║ 调试: ");
    push_str_chars(&mut out, debug);
    let n = str_byte_len(debug);
    let pad: usize = if n < 20 { 20 - n } else { 0 };
    push_spaces(&mut out, pad);
    push_str_chars(&mut out, "\n╚════════════════════════════╝");
    string_from_chars(out.as_slice())
}

/// The `Debug` rendering of `item`: `format!("{:?}", item)`.
///
/// Trusted: it only formats; nothing is stated of the text, which the
/// item's `Debug` impl decides.
#[verifier::external_body]
fn debug_text<T: std::fmt::Debug>(item: &T) -> String {
    format!("{:?}", item)
}

/// The detailed report of an item: its summary, its description and its
/// `Debug` rendering.
pub fn generate_detailed_report<T: Summary + DisplayInfo + std::fmt::Debug>(item: &T) -> (s: String)
    ensures
        exists|debug: Seq<char>|
            s@ == #[trigger] detailed_report(item.summary_text(), item.info_text(), debug),
{
    let summary = item.summarize();
    let info = item.info();
    let debug = debug_text(item);
    detailed_report_text(summary.as_str(), info.as_str(), debug.as_str())
}

/// The line that announces what a factory made.
pub open spec fn factory_line(summary: Seq<char>) -> Seq<char> {
    "📦 工厂产物: "@ + summary
}

/// Makes an item with `factory` and announces its summary.
pub fn create_and_print<T: Summary, F: Fn() -> T>(factory: F) -> (s: String)
    requires
        factory.requires(()),
    ensures
        exists|item: T| factory.ensures((), item) && s@ == factory_line(item.summary_text()),
{
    let item = factory();
    let summary = item.summarize();
    let mut s = String::from_str("📦 工厂产物: ");
    s.append(summary.as_str());
    s
}

/// The tweet that `return_summarizable` picks for a kind.
pub open spec fn tweet_for(t: Tweet, kind: Seq<char>) -> bool {
    if kind == "tech"@ {
        t.username@ == "rustlang"@ && t.content@ == "Announcing Rust 2026 Edition! 🚀"@
            && t.retweet_count == 5200
    } else if kind == "fun"@ {
        t.username@ == "ferris"@ && t.content@ == "Happy coding! 🦀"@ && t.retweet_count == 42
    } else {
        t.username@ == "rust_daily"@ && t.content@ == "Today's tip: use clippy!"@
            && t.retweet_count == 88
    }
}

/// A tweet chosen by kind: `"tech"`, `"fun"`, or any other; the caller sees
/// only that it can be summarized.
pub fn return_summarizable(kind: &str) -> (t: impl Summary)
    ensures
        exists|tw: Tweet|
            #[trigger] tweet_for(tw, kind@) && t.summary_text() == tw.summary_text()
                && t.author_text() == tw.author_text(),
{
    let tw = if str_eq(kind, "tech") {
        Tweet {
            username: String::from_str("rustlang"),
            content: String::from_str("Announcing Rust 2026 Edition! 🚀"),
            retweet_count: 5200,
        }
    } else if str_eq(kind, "fun") {
        Tweet {
            username: String::from_str("ferris"),
            content: String::from_str("Happy coding! 🦀"),
            retweet_count: 42,
        }
    } else {
        Tweet {
            username: String::from_str("rust_daily"),
            content: String::from_str("Today's tip: use clippy!"),
            retweet_count: 88,
        }
    };
    assert(tweet_for(tw, kind@));
    tw
}

} // verus!
