use rust_from_python::text_search::{search, search_case_insensitive, SearchConfig};

fn sample_poem() -> &'static str {
    "I'm nobody! Who are you?\n\
     Are you nobody, too?\n\
     Then there's a pair of us - don't tell!\n\
     They'd banish us, you know.\n\
     \n\
     How dreary to be somebody!\n\
     How public, like a frog\n\
     To tell your name the livelong day\n\
     To an admiring bog!"
}

fn sample_bilingual() -> &'static str {
    "Rust 是一门系统编程语言\n\
     rust 是 Rust 的小写形式\n\
     RUST 是全大写形式\n\
     学习 Rust 非常有趣\n\
     Java 和 Python 也很流行\n\
     这行完全不相关"
}

#[test]
fn test_new_not_enough_args() {
    let args = vec!["program".to_string()];
    let result = SearchConfig::new(&args);
    assert!(result.is_err());
}

#[test]
fn test_new_basic() {
    let args = vec!["program".to_string(), "query".to_string(), "file.txt".to_string()];
    let config = SearchConfig::new(&args).unwrap();
    assert_eq!(config.query, "query");
    assert_eq!(config.file_path, "file.txt");
    assert!(config.case_sensitive);
}

#[test]
fn test_new_case_insensitive_short() {
    let args = vec![
        "program".to_string(),
        "query".to_string(),
        "file.txt".to_string(),
        "-i".to_string(),
    ];
    let config = SearchConfig::new(&args).unwrap();
    assert!(!config.case_sensitive);
}

#[test]
fn test_new_case_insensitive_long() {
    let args = vec![
        "program".to_string(),
        "query".to_string(),
        "file.txt".to_string(),
        "--case-insensitive".to_string(),
    ];
    let config = SearchConfig::new(&args).unwrap();
    assert!(!config.case_sensitive);
}

#[test]
fn test_search_case_sensitive() {
    let contents = "\
Rust 是一门系统编程语言
rust 是 Rust 的小写形式
学习 Rust 很有趣";
    let result = search("Rust", contents, true);
    assert_eq!(result.len(), 3);
    assert!(result[0].contains("Rust"));
    assert!(result[1].contains("Rust"));
    assert!(result[2].contains("Rust"));
}

#[test]
fn test_search_case_insensitive_variants() {
    let contents = "Rust\nrust\nRUST\nrUsT\nJava";
    let result = search_case_insensitive("rust", contents);
    assert_eq!(result.len(), 4);
}

#[test]
fn test_empty_query() {
    let contents = "line1\nline2\nline3";
    let result = search("", contents, true);
    assert!(result.is_empty());
    let result_ci = search_case_insensitive("", contents);
    assert!(result_ci.is_empty());
}

#[test]
fn test_no_matches() {
    let contents = "apple\nbanana\ncherry";
    let result = search("zebra", contents, true);
    assert!(result.is_empty());
}

#[test]
fn test_search_basic_case_sensitive() {
    let contents = sample_poem();
    let result = search("you", contents, true);
    assert_eq!(result.len(), 4);
    assert!(result.contains(&"I'm nobody! Who are you?"));
    assert!(result.contains(&"Are you nobody, too?"));
    assert!(result.contains(&"They'd banish us, you know."));
    assert!(result.contains(&"To tell your name the livelong day"));
    let result = search("You", contents, true);
    assert_eq!(result.len(), 0, "不应该匹配到任何以大写 Y 开头的 'You'");
    let result = search("How", contents, true);
    assert_eq!(result.len(), 2);
    assert!(result.contains(&"How dreary to be somebody!"));
    assert!(result.contains(&"How public, like a frog"));
}

#[test]
fn test_search_with_chinese() {
    let contents = sample_bilingual();
    let result = search("系统编程", contents, true);
    assert_eq!(result.len(), 1);
    assert!(result[0].contains("系统编程语言"));
    let result = search("Rust", contents, true);
    assert_eq!(result.len(), 3);
}

#[test]
fn test_search_with_case_insensitive_flag() {
    let contents = sample_bilingual();
    let result = search("rust", contents, false);
    assert_eq!(result.len(), 4, "应该匹配 Rust/rust/RUST/rUsT 所有变体");
    assert!(result.contains(&"Rust 是一门系统编程语言"));
    assert!(result.contains(&"rust 是 Rust 的小写形式"));
    assert!(result.contains(&"RUST 是全大写形式"));
    assert!(result.contains(&"学习 Rust 非常有趣"));
}

#[test]
fn test_search_case_insensitive_all_variants() {
    let contents = "Rust\nrust\nRUST\nrUsT\nRuSt\nJava";
    let result = search_case_insensitive("rust", contents);
    assert_eq!(result.len(), 5, "大小写不敏感搜索应匹配所有 5 种大小写变体");
}

#[test]
fn test_search_case_insensitive_poem() {
    let contents = sample_poem();
    let result = search_case_insensitive("nobody", contents);
    assert_eq!(result.len(), 2);
    assert!(result.contains(&"I'm nobody! Who are you?"));
    assert!(result.contains(&"Are you nobody, too?"));
    let result = search_case_insensitive("THEY", contents);
    assert_eq!(result.len(), 1);
    assert!(result.contains(&"They'd banish us, you know."));
}

#[test]
fn test_search_case_insensitive_substring() {
    let contents = "programming\nPROGRAMMER\nProgram\nJava";
    let result = search_case_insensitive("program", contents);
    assert_eq!(result.len(), 3, "program 应作为子串匹配所有变体");
}

#[test]
fn test_empty_query_returns_empty() {
    let contents = "line one\nline two\nline three";
    let result_sensitive = search("", contents, true);
    assert!(result_sensitive.is_empty(), "空查询在大小写敏感模式下应返回空结果");
    let result_insensitive = search_case_insensitive("", contents);
    assert!(result_insensitive.is_empty(), "空查询在大小写不敏感模式下应返回空结果");
}

#[test]
fn test_empty_query_multi_line() {
    let contents = "\n\n\n";
    let result = search("", contents, true);
    assert!(result.is_empty(), "即使内容为空行，空查询也不应匹配");
}

#[test]
fn test_no_matches_returns_empty() {
    let contents = "apple\nbanana\ncherry\ndate";
    let result = search("xyz_not_found_xyz", contents, true);
    assert!(result.is_empty());
}

#[test]
fn test_no_matches_in_poem() {
    let contents = sample_poem();
    let result = search("dinosaur", contents, true);
    assert!(result.is_empty());
}

#[test]
fn test_near_miss_no_match() {
    let contents = "hello world\nhelloo\nhell";
    let result = search("hellooo", contents, true);
    assert!(result.is_empty());
    let result = search("hell", contents, true);
    assert_eq!(result.len(), 3);
}

#[test]
fn test_config_new_valid() {
    let args = vec!["program".to_string(), "hello".to_string(), "test.txt".to_string()];
    let config = SearchConfig::new(&args).expect("应成功解析参数");
    assert_eq!(config.query, "hello");
    assert_eq!(config.file_path, "test.txt");
    assert!(config.case_sensitive);
}

#[test]
fn test_config_new_insufficient_args() {
    let args = vec!["program".to_string()];
    let result = SearchConfig::new(&args);
    assert!(result.is_err());
}

#[test]
fn test_config_new_case_insensitive() {
    let args = vec![
        "program".to_string(),
        "rust".to_string(),
        "notes.txt".to_string(),
        "-i".to_string(),
    ];
    let config = SearchConfig::new(&args).expect("应成功解析参数");
    assert!(!config.case_sensitive);
    let args = vec![
        "program".to_string(),
        "rust".to_string(),
        "notes.txt".to_string(),
        "--case-insensitive".to_string(),
    ];
    let config = SearchConfig::new(&args).expect("应成功解析参数");
    assert!(!config.case_sensitive);
}

#[test]
fn test_config_debug() {
    let config = SearchConfig {
        query: "test".to_string(),
        file_path: "file.txt".to_string(),
        case_sensitive: true,
    };
    let debug_str = format!("{:?}", config);
    assert!(debug_str.contains("test"));
    assert!(debug_str.contains("file.txt"));
}

#[test]
fn missing_args_message_is_exact() {
    let args = vec!["grep".to_string(), "q".to_string()];
    let err = SearchConfig::new(&args).unwrap_err();
    assert_eq!(
        err,
        "参数不足：需要至少 2 个参数（查询字符串 和 文件路径），但只收到了 1 个。\n用法: grep <查询字符串> <文件路径> [-i|--case-insensitive]"
    );
    let none: Vec<String> = vec![];
    let err = SearchConfig::new(&none).unwrap_err();
    assert!(err.contains("只收到了 0 个"));
    assert!(err.contains("用法: program "));
}

#[test]
fn lines_strip_crlf_and_keep_inner_empty_lines() {
    let contents = "ab\r\ncd\n\nab\r";
    assert_eq!(search("ab", contents, true), vec!["ab", "ab\r"]);
    assert_eq!(search("c", contents, true), vec!["cd"]);
}

#[test]
fn unknown_fourth_argument_keeps_case_sensitive() {
    let args = vec![
        "p".to_string(),
        "q".to_string(),
        "f".to_string(),
        "-x".to_string(),
    ];
    assert!(SearchConfig::new(&args).unwrap().case_sensitive);
}

#[test]
fn config_from_environment_values() {
    let c = SearchConfig::from_env_values(Some("q".into()), Some("f.txt".into()), None).unwrap();
    assert!(c.case_sensitive);
    assert_eq!(c.query, "q");
    assert_eq!(c.file_path, "f.txt");
    for v in ["1", "TRUE", "Yes", "on"] {
        let c = SearchConfig::from_env_values(Some("q".into()), Some("f".into()), Some(v.into())).unwrap();
        assert!(!c.case_sensitive, "{v}");
    }
    let c = SearchConfig::from_env_values(Some("q".into()), Some("f".into()), Some("0".into())).unwrap();
    assert!(c.case_sensitive);
    assert_eq!(
        SearchConfig::from_env_values(None, Some("f".into()), None).err().unwrap(),
        "环境变量 SEARCH_QUERY 未设置。请设置要搜索的查询字符串。"
    );
    assert_eq!(
        SearchConfig::from_env_values(Some("q".into()), None, None).err().unwrap(),
        "环境变量 SEARCH_FILE 未设置。请设置目标文件路径。"
    );
}
