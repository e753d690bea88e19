use rust_from_python::text_analyzer::{
    contains_keyword, count_chars, count_word_frequency, count_words, find_longest_word,
    first_word, summarize_text,
};

const SAMPLE_TEXT: &str = "Rust is a systems programming language that runs blazingly fast prevents segfaults and guarantees thread safety\n同时支持中文文本的处理和分析";

#[test]
fn counts_chars_and_words() {
    assert_eq!(count_chars("héllo 世界"), 8);
    assert_eq!(count_words("  a  b\tc\n"), 3);
    assert_eq!(count_words(""), 0);
    assert_eq!(count_words(SAMPLE_TEXT), 17);
}

#[test]
fn longest_word_is_last_of_equals() {
    assert_eq!(find_longest_word("hello world"), Some("world"));
    assert_eq!(find_longest_word("a short text example"), Some("example"));
    assert_eq!(find_longest_word("   "), None);
    assert_eq!(find_longest_word(SAMPLE_TEXT), Some("同时支持中文文本的处理和分析"));
}

#[test]
fn first_word_and_keywords() {
    assert_eq!(first_word(SAMPLE_TEXT), Some("Rust"));
    assert_eq!(first_word(" \n"), None);
    assert!(contains_keyword(SAMPLE_TEXT, "guarantees"));
    assert!(contains_keyword(SAMPLE_TEXT, "中文"));
    assert!(!contains_keyword(SAMPLE_TEXT, "Python"));
    assert!(contains_keyword("abc", ""));
}

#[test]
fn frequency_by_count_then_word() {
    let f = count_word_frequency("b a b c a b");
    assert_eq!(f, vec![("b", 3), ("a", 2), ("c", 1)]);
    let f = count_word_frequency("y x z x");
    assert_eq!(f, vec![("x", 2), ("y", 1), ("z", 1)]);
    assert!(count_word_frequency("").is_empty());
    let f = count_word_frequency("B a b A");
    assert_eq!(f, vec![("A", 1), ("B", 1), ("a", 1), ("b", 1)]);
}

#[test]
fn summary_report_layout() {
    let s = summarize_text("hello world");
    let expected = "╔══════════════════ 文本分析报告 ══════════════════╗\n\
║  字符总数（Unicode）:    11                       ║\n\
║  单词总数           :     2                       ║\n\
║  最长单词           : world (5 字符)        ║\n\
║  第一个单词         : hello                           ║\n\
╚══════════════════════════════════════════════════╝\n";
    assert_eq!(s, expected);
    let empty = summarize_text("");
    assert!(empty.contains("║  最长单词           : (无)                       ║\n"));
    assert!(empty.contains("║  第一个单词         : (无)                       ║\n"));
    assert!(empty.contains("字符总数（Unicode）:     0 "));
    let big = summarize_text(&"x".repeat(123456));
    assert!(big.contains("字符总数（Unicode）: 123456 "));
}
