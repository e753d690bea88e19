use rust_from_python::lifetimes::{
    combine_and_return, first_word, generate_owned, longest, longest_in_slice, process_existing,
    Excerpt, Holder,
};

#[test]
fn test_longest_first_longer() {
    let result = longest("hello world", "hi");
    assert_eq!(result, "hello world");
}

#[test]
fn test_longest_second_longer() {
    let result = longest("hi", "hello world");
    assert_eq!(result, "hello world");
}

#[test]
fn test_first_word_normal() {
    assert_eq!(first_word("hello world"), "hello");
}

#[test]
fn test_first_word_single() {
    assert_eq!(first_word("hello"), "hello");
}

#[test]
fn test_excerpt_get_content() {
    let text = String::from("测试内容");
    let excerpt = Excerpt { content: &text };
    assert_eq!(excerpt.get_content(), "测试内容");
}

#[test]
fn test_longest_in_slice() {
    let words = vec!["a", "abc", "ab"];
    let result = longest_in_slice(&words);
    assert_eq!(result, Some(&"abc"));
}

#[test]
fn test_longest_in_slice_empty() {
    let words: Vec<&str> = vec![];
    let result = longest_in_slice(&words);
    assert_eq!(result, None);
}

#[test]
fn longest_compares_bytes_and_prefers_first_on_ties() {
    assert_eq!(longest("ab", "cd"), "ab");
    assert_eq!(longest("长", "abc"), "长");
    assert_eq!(longest("长", "abcd"), "abcd");
}

#[test]
fn longest_in_slice_picks_last_of_equals() {
    let words = vec!["ab", "xy", "c"];
    let r = longest_in_slice(&words).unwrap();
    assert!(std::ptr::eq(r, &words[1]));
    let words = vec!["短", "比较长的字符串", "中等长度"];
    assert_eq!(longest_in_slice(&words), Some(&"比较长的字符串"));
}

#[test]
fn first_word_edges() {
    assert_eq!(first_word(""), "");
    assert_eq!(first_word(" lead"), "");
    assert_eq!(first_word("你好 世界"), "你好");
    assert_eq!(first_word("tab\tsep"), "tab\tsep");
}

#[test]
fn excerpt_and_holder_return_borrowed_text() {
    let novel = String::from("从前有座山。山里有座庙。庙里有个老和尚在讲故事。");
    let excerpt = Excerpt { content: &novel[..21] };
    assert_eq!(excerpt.get_content(), "从前有座山。山");
    assert_eq!(excerpt.longest_word("庙里有个老和尚"), "从前有座山。山");
    assert_eq!(excerpt.longest_word("庙里有个老和尚在讲故事"), "庙里有个老和尚在讲故事");
    let data = String::from("持久数据");
    let holder = Holder::new(&data);
    assert_eq!(holder.announce_and_return("这是一个公告"), "持久数据");
    assert_eq!(combine_and_return("我会活很久", "我可能活得短"), "我会活很久");
    assert_eq!(process_existing("原始数据"), "原始数据");
    assert_eq!(generate_owned(), "这条数据的生命周期由调用者管理");
}
