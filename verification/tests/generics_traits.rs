use rust_from_python::generics_traits::{
    create_and_print, detailed_report_text, generate_detailed_report, generate_report,
    return_summarizable, BlogPost, DisplayInfo, NewsArticle, Report, Summary, Tweet,
};

fn tweet() -> Tweet {
    Tweet {
        username: String::from("ferris"),
        content: String::from("刚刚尝试了 Rust 2026 Edition 的新特性，简直太棒了！"),
        retweet_count: 1523,
    }
}

fn blog() -> BlogPost {
    BlogPost {
        title: String::from("学习 Rust 的心得"),
        body: String::from("abc"),
        author_name: String::from("Creeken"),
    }
}

#[test]
fn summaries_and_authors() {
    let t = tweet();
    assert_eq!(t.summarize(), "🐦 @ferris: 刚刚尝试了 Rust 2026 Edition 的新特性，简直太棒了！ — 转发 1523 次");
    assert_eq!(t.author(), "@ferris");
    let b = blog();
    assert_eq!(b.summarize(), "(Read more...)");
    assert_eq!(b.author(), "Creeken");
    let a = NewsArticle {
        headline: String::from("H"),
        content: "x".repeat(70),
        author: String::from("A"),
    };
    assert_eq!(a.summarize(), format!("📰 [新闻] H —— 作者: A | 摘要: {}...", "x".repeat(60)));
    assert_eq!(a.author(), "A");
}

#[test]
fn infos_count_bytes() {
    let a = NewsArticle {
        headline: String::from("头条"),
        content: String::from("中文"),
        author: String::from("me"),
    };
    assert_eq!(a.info(), "头条: 头条\n内容长度: 6 字符\n作者: me");
    assert_eq!(blog().info(), "博客: 学习 Rust 的心得\n作者: Creeken\n正文长度: 3 字符");
    assert_eq!(tweet().info(), "用户: @ferris\n内容: 刚刚尝试了 Rust 2026 Edition 的新特性，简直太棒了！\n转发数: 1523");
}

#[test]
fn reports() {
    let mut r = Report::new(blog());
    assert_eq!(r.timestamp, "2026-06-05 10:00:00");
    assert_eq!(
        r.generate(),
        "═══════════════════════════════\n报告时间: 2026-06-05 10:00:00\n(Read more...)\n═══════════════════════════════"
    );
    r.update_timestamp("2030-01-01");
    assert_eq!(r.timestamp, "2030-01-01");
    assert_eq!(
        generate_report(&blog()),
        "╔══════════ 报告 ══════════╗\n║ (Read more...)          ║\n╚════════════════════════╝"
    );
}

#[test]
fn tweet_reports() {
    let r = Report::new(tweet());
    assert_eq!(r.engagement_score(), "🔥 高热度推文 (1523 转发) —— 来自 @ferris");
    let cold = Report::new(Tweet { username: "x".into(), content: "".into(), retweet_count: 100 });
    assert_eq!(cold.engagement_score(), "📊 普通推文 (100 转发) —— 来自 @x");
    assert_eq!(
        r.card(),
        "┌──────────────────────────────┐\n│ @ferris                     │\n│ 刚刚尝试了 Rust 2026 Edition 的新特性  │\n│ 🔄 1523                       │\n└──────────────────────────────┘"
    );
}

#[test]
fn detailed_reports() {
    let b = blog();
    let expected_debug = format!("{:?}", b);
    let direct = detailed_report_text(&b.summarize(), &b.info(), &expected_debug);
    assert_eq!(generate_detailed_report(&b), direct);
    assert_eq!(
        detailed_report_text("s", "i", "d"),
        format!(
            "╔══════════ 详细报告 ══════════╗\n║ 摘要: s{pad}║\n║ 信息: i{pad}║\n║ 调试: d{pad}\n╚════════════════════════════╝",
            pad = " ".repeat(19)
        )
    );
    assert!(detailed_report_text("s", "i", &"y".repeat(25)).contains(&format!("{}\n╚", "y".repeat(25))));
}

#[test]
fn factories() {
    let out = create_and_print(|| Tweet {
        username: String::from("closure_fan"),
        content: String::from("闭包 + 泛型 = ❤️"),
        retweet_count: 7,
    });
    assert_eq!(out, "📦 工厂产物: 🐦 @closure_fan: 闭包 + 泛型 = ❤️ — 转发 7 次");
    assert_eq!(return_summarizable("tech").summarize(), "🐦 @rustlang: Announcing Rust 2026 Edition! 🚀 — 转发 5200 次");
    assert_eq!(return_summarizable("fun").author(), "@ferris");
    assert_eq!(return_summarizable("other").author(), "@rust_daily");
}
