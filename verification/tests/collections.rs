use rust_from_python::collections::{count_frequencies, get_top_n, search_word, tokenize};

const TEXT: &str = "Rust is a systems programming language that runs blazingly fast, prevents segfaults, and guarantees thread safety. Rust is memory-safe without using a garbage collector. Rust achieves memory safety through its ownership system. Ownership is Rust's most unique feature. Rust's ownership system enables memory safety guarantees without needing a garbage collector. The borrow checker enforces ownership rules at compile time.";

#[test]
fn tokens_are_lowercased_alphanumerics() {
    let t = tokenize(TEXT);
    assert_eq!(t.len(), 59);
    assert_eq!(&t[..4], &["rust", "is", "a", "systems"]);
    assert!(t.contains(&"memorysafe".to_string()));
    assert!(t.contains(&"rusts".to_string()));
    assert_eq!(tokenize("-- ÉCOLE!! 42 ..."), vec!["école", "42"]);
    assert!(tokenize("").is_empty());
}

#[test]
fn frequencies_in_first_occurrence_order() {
    let t = tokenize(TEXT);
    let f = count_frequencies(&t);
    assert_eq!(f[0], ("rust".to_string(), 3));
    assert_eq!(f[1], ("is".to_string(), 3));
    assert_eq!(f[3], ("systems".to_string(), 1));
    let words: Vec<String> = vec!["b".into(), "a".into(), "b".into()];
    assert_eq!(count_frequencies(&words), vec![("b".to_string(), 2), ("a".to_string(), 1)]);
}

#[test]
fn top_n_is_stable_by_count() {
    let f = count_frequencies(&tokenize(TEXT));
    let top5 = get_top_n(&f, 5);
    let names: Vec<&str> = top5.iter().map(|(w, _)| w.as_str()).collect();
    assert_eq!(names, vec!["ownership", "rust", "is", "a", "safety"]);
    assert_eq!(top5[0].1, 4);
    assert_eq!(get_top_n(&f, 0).len(), 0);
    assert_eq!(get_top_n(&f, 1000).len(), f.len());
}

#[test]
fn search_counts() {
    let f = count_frequencies(&tokenize(TEXT));
    assert_eq!(search_word(&f, "rust"), Some(&3));
    assert_eq!(search_word(&f, "ownership"), Some(&4));
    assert_eq!(search_word(&f, "python"), None);
}
