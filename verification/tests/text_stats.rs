use rust_from_python::collections::{count_frequencies, tokenize};
use rust_from_python::text_stats::{add_tokens, count_stats, worker_result, Totals};

const REPEAT: &str = "thread thread channel channel mutex mutex arc arc arc rust rust rust rust concurrency concurrency concurrency safety safety safety safety safety memory memory memory ownership ownership ownership ownership ownership type type type type type type compile compile compile parallel parallel parallel parallel parallel parallel parallel";

#[test]
fn stats_of_a_text() {
    let s = count_stats("sample_03_repeat", REPEAT);
    assert_eq!(s.path, "sample_03_repeat");
    assert_eq!(s.words, 45);
    assert_eq!(s.lines, 1);
    assert_eq!(s.chars, REPEAT.chars().count());
    let tops: Vec<(&str, usize)> = s.top_words.iter().map(|(w, c)| (w.as_str(), *c)).collect();
    assert_eq!(
        tops,
        vec![("parallel", 7), ("type", 6), ("safety", 5), ("ownership", 5), ("rust", 4)]
    );
}

#[test]
fn stats_count_lines_and_few_tokens() {
    let s = count_stats("x", "A a!\nb\r\n\n");
    // Three newlines give four pieces, the last one empty.
    assert_eq!(s.lines, 4);
    assert_eq!(s.words, 3);
    assert_eq!(s.top_words, vec![("a".to_string(), 2), ("b".to_string(), 1)]);
}

#[test]
fn worker_rejects_blank_text() {
    let r = worker_result("sample_04_empty".to_string(), "   ".to_string());
    assert_eq!(r.err().unwrap(), "[sample_04_empty]: 文本为空，无法统计");
    let ok = worker_result("n".to_string(), "one two".to_string()).unwrap();
    assert_eq!(ok.words, 2);
}

#[test]
fn totals_add_up() {
    let mut t = Totals::new();
    t.add(&count_stats("a", "x y\nz"));
    t.add(&count_stats("b", "w"));
    assert_eq!((t.chars, t.words, t.lines), (6, 4, 3));
}

#[test]
fn merged_counts_equal_counting_everything() {
    let mut table: Vec<(String, usize)> = Vec::new();
    add_tokens(&mut table, &tokenize("rust is fast"));
    add_tokens(&mut table, &tokenize("Rust is safe, rust!"));
    assert_eq!(
        table,
        vec![
            ("rust".to_string(), 3),
            ("is".to_string(), 2),
            ("fast".to_string(), 1),
            ("safe".to_string(), 1)
        ]
    );
}

#[test]
fn tally_counts_add_up_to_token_count() {
    let tokens = tokenize(REPEAT);
    let total: usize = count_frequencies(&tokens).iter().map(|(_, c)| *c).sum();
    assert_eq!(total, tokens.len());
}

#[test]
fn a_final_empty_line_counts() {
    assert_eq!(count_stats("p", "a\nb\n").lines, 3);
    assert_eq!(count_stats("p", "a\nb").lines, 2);
    assert_eq!(count_stats("p", "").lines, 1);
}

#[test]
fn top_words_strip_punctuation_only_at_the_ends() {
    assert_eq!(count_stats("p", "don't").top_words, vec![("don't".to_string(), 1)]);
    let s = count_stats("p", "\"Hello,\" HELLO!! (x-ray) -- ...");
    assert_eq!(s.top_words, vec![("hello".to_string(), 2), ("x-ray".to_string(), 1)]);
}
