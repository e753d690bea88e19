use rust_from_python::closures_iterators::{
    apply_to_words, consume_words, filter_words, find_words_containing, text_stats_imperative,
    text_stats_iterator, word_frequency, Stats,
};

const SAMPLE: &str = "the quick brown fox jumps over the lazy dog the end";

#[test]
fn applies_closure_to_each_word() {
    let upper = apply_to_words("ab cd  e", |w| w.to_uppercase());
    assert_eq!(upper, vec!["AB", "CD", "E"]);
    assert!(apply_to_words("   ", |w| w.to_string()).is_empty());
}

#[test]
fn filters_with_stateful_predicate() {
    let mut call_count = 0;
    let short = filter_words(SAMPLE, |w: &&str| {
        call_count += 1;
        w.len() <= 3
    });
    assert_eq!(short, vec!["the", "fox", "the", "dog", "the", "end"]);
    assert_eq!(call_count, 11);
}

#[test]
fn consumer_gets_joined_words() {
    let mut got = String::new();
    consume_words("  a \n b\tc  ", |all| got = all);
    assert_eq!(got, "a b c");
}

#[test]
fn frequency_is_stable_by_count() {
    let f = word_frequency(SAMPLE);
    assert_eq!(f[0], ("the", 3));
    assert_eq!(f[1], ("quick", 1));
    assert_eq!(f.len(), 9);
    assert_eq!(f[8], ("end", 1));
}

#[test]
fn words_containing_text() {
    assert_eq!(find_words_containing(SAMPLE, "o"), vec!["brown", "fox", "over", "dog"]);
    assert_eq!(find_words_containing(SAMPLE, "zz"), Vec::<&str>::new());
    assert_eq!(find_words_containing("a b", "").len(), 2);
}

#[test]
fn text_stats_of_the_sample_sentence() {
    let sample =
        "Rust is a modern systems programming language focusing on safety speed and concurrency";
    let st = text_stats_imperative(sample);
    assert_eq!(st.word_count, 13);
    assert_eq!(st.char_count, 74);
    assert_eq!(st.longest_word_len, 11);
    assert_eq!(st.total_word_len, 74);
    assert_eq!(st, text_stats_iterator(sample));
}

#[test]
fn text_stats_count_characters_not_bytes() {
    let st = text_stats_iterator("  你好 世界很大 \n ab ");
    assert_eq!(
        st,
        Stats { word_count: 3, char_count: 8, longest_word_len: 4, total_word_len: 8 }
    );
    assert_eq!(st, text_stats_imperative("  你好 世界很大 \n ab "));
}

#[test]
fn text_stats_of_a_text_without_words() {
    let empty = Stats { word_count: 0, char_count: 0, longest_word_len: 0, total_word_len: 0 };
    assert_eq!(text_stats_imperative(""), empty);
    assert_eq!(text_stats_iterator(" \t\n "), empty);
}
