use rust_from_python::testing_and_docs::{add, is_palindrome, multiply, reverse_string, word_count};

#[test]
fn test_add() {
    assert_eq!(add(2, 3), 5);
    assert_eq!(add(-1, 1), 0);
    assert_eq!(add(0, 0), 0);
    assert_eq!(add(100, 200), 300);
    assert_eq!(add(-5, -3), -8);
}

#[test]
fn test_multiply() {
    assert_eq!(multiply(3, 4), 12);
    assert_eq!(multiply(0, 5), 0);
    assert_eq!(multiply(5, 0), 0);
    assert_eq!(multiply(1, 1), 1);
    assert_eq!(multiply(7, 8), 56);
}

#[test]
fn test_word_count() {
    assert_eq!(word_count(""), 0);
    assert_eq!(word_count("   "), 0);
    assert_eq!(word_count("Hello"), 1);
    assert_eq!(word_count("Hello world"), 2);
    assert_eq!(word_count("Hello  world"), 2);
    assert_eq!(word_count("The quick brown fox"), 4);
    assert_eq!(word_count("  leading spaces"), 2);
    assert_eq!(word_count("trailing spaces  "), 2);
    assert_eq!(word_count("  both  sides  "), 2);
}

#[test]
fn test_is_palindrome() {
    assert!(is_palindrome("radar"));
    assert!(!is_palindrome("hello"));
    assert!(is_palindrome(""));
    assert!(is_palindrome("a"));
    assert!(!is_palindrome("Radar"));
    assert!(is_palindrome("level"));
    assert!(is_palindrome("civic"));
    assert!(!is_palindrome("rust"));
}

#[test]
fn test_reverse_private() {
    assert_eq!(reverse_string("hello"), "olleh");
    assert_eq!(reverse_string(""), "");
    assert_eq!(reverse_string("a"), "a");
    assert_eq!(reverse_string("radar"), "radar");
    assert_eq!(reverse_string("rust"), "tsur");
}

#[test]
fn test_word_count_as_result() -> Result<(), String> {
    if word_count("one two three") != 3 {
        return Err(String::from("word_count should return 3 for 'one two three'"));
    }
    if word_count("") != 0 {
        return Err(String::from("word_count should return 0 for empty string"));
    }
    if word_count("single") != 1 {
        return Err(String::from("word_count should return 1 for 'single'"));
    }
    Ok(())
}

#[test]
fn integration_test_add_and_multiply() {
    let sum = add(5, 7);
    let product = multiply(sum, 2);
    assert_eq!(product, 24);
}

#[test]
fn integration_test_word_operations() {
    let text = "The quick brown fox";
    assert_eq!(word_count(text), 4);
    assert!(!is_palindrome(text));
}

#[test]
fn integration_test_palindrome_workflow() {
    let words = ["radar", "level", "hello", "world", "civic"];
    let palindrome_count: usize = words.iter().filter(|w| is_palindrome(w)).count();
    assert_eq!(palindrome_count, 3);
}

#[test]
fn word_count_counts_unicode_whitespace_runs() {
    assert_eq!(word_count("a\u{3000}b\tc\n\nd"), 4);
}

#[test]
fn whitespace_runs_separate_and_ends_are_ignored() {
    assert_eq!(word_count("alpha beta"), word_count("alpha \t\n  beta"));
    assert_eq!(word_count("  alpha beta  "), word_count("alpha beta"));
    assert_eq!(word_count("a b"), word_count("a") + word_count("b"));
    assert_eq!(word_count("\u{3000}中文\u{3000}"), 1);
}

#[test]
fn reversing_twice_is_identity() {
    for s in ["", "a", "héllo", "回文文回", "ab c"] {
        assert_eq!(reverse_string(&reverse_string(s)), s);
        assert_eq!(is_palindrome(s), reverse_string(s) == s);
    }
}
