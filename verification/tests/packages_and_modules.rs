use rust_from_python::packages_and_modules::app_utils::greeting;
use rust_from_python::packages_and_modules::models::{create_sample_tasks, Priority, Task};
use rust_from_python::packages_and_modules::services::parse_task_line;
use rust_from_python::packages_and_modules::services::validator::{sanitize, validate_title};

#[test]
fn test_parse_high_priority() {
    let result = parse_task_line("[High] 完成作业");
    assert!(result.is_some());
    let (title, priority) = result.unwrap();
    assert_eq!(title, "完成作业");
    assert_eq!(priority, Priority::High);
}

#[test]
fn test_parse_low_priority() {
    let result = parse_task_line("[Low] 整理桌面");
    assert!(result.is_some());
    let (title, priority) = result.unwrap();
    assert_eq!(title, "整理桌面");
    assert_eq!(priority, Priority::Low);
}

#[test]
fn test_parse_no_priority() {
    let result = parse_task_line("没有优先级的任务");
    assert!(result.is_none());
}

#[test]
fn test_parse_empty_line() {
    let result = parse_task_line("   ");
    assert!(result.is_none());
}

#[test]
fn test_trim_input() {
    let result = parse_task_line("  [High]  带空格标题  ");
    assert!(result.is_some());
    let (title, _) = result.unwrap();
    assert_eq!(title, "带空格标题");
}

#[test]
fn test_validate_title_valid() {
    assert!(validate_title("学习 Rust"));
}

#[test]
fn test_validate_title_empty() {
    assert!(!validate_title(""));
}

#[test]
fn test_validate_title_too_long() {
    let long_title = "Rust".repeat(100);
    assert!(!validate_title(&long_title));
}

#[test]
fn test_sanitize_removes_extra_spaces() {
    let result = sanitize("  学习    Rust   模块  ");
    assert_eq!(result, "学习 Rust 模块");
}

#[test]
fn test_sanitize_empty() {
    let result = sanitize("   ");
    assert_eq!(result, "");
}

#[test]
fn test_parse_task_line_high_priority() {
    let result = parse_task_line("[High] 完成 Rust 作业");
    assert!(result.is_some(), "a high-priority line parses");
    let (title, priority) = result.unwrap();
    assert_eq!(title, "完成 Rust 作业");
    assert_eq!(priority, Priority::High);
}

#[test]
fn test_parse_task_line_medium_priority() {
    let result = parse_task_line("[Medium] 代码审查");
    assert!(result.is_some(), "a medium-priority line parses");
    let (title, priority) = result.unwrap();
    assert_eq!(title, "代码审查");
    assert_eq!(priority, Priority::Medium);
}

#[test]
fn test_parse_task_line_low_priority() {
    let result = parse_task_line("[Low] 整理文件");
    assert!(result.is_some(), "a low-priority line parses");
    let (title, priority) = result.unwrap();
    assert_eq!(title, "整理文件");
    assert_eq!(priority, Priority::Low);
}

#[test]
fn test_parse_task_line_no_prefix() {
    let result = parse_task_line("没有优先级标记的任务");
    assert!(result.is_none(), "a line without a tag gives None");
}

#[test]
fn test_parse_task_line_empty_string() {
    let result = parse_task_line("");
    assert!(result.is_none(), "the empty line gives None");
}

#[test]
fn test_parse_task_line_whitespace_only() {
    let result = parse_task_line("     ");
    assert!(result.is_none(), "a blank line gives None");
}

#[test]
fn test_parse_task_line_with_extra_spaces() {
    let result = parse_task_line("  [Medium]   有额外空格的标题  ");
    assert!(result.is_some(), "surrounding spaces are trimmed");
    let (title, priority) = result.unwrap();
    assert_eq!(title, "有额外空格的标题");
    assert_eq!(priority, Priority::Medium);
}

#[test]
fn test_parse_task_line_wrong_case_prefix() {
    let result = parse_task_line("[high] 小写前缀");
    assert!(result.is_none(), "tags are case sensitive");
}

#[test]
fn test_parse_task_line_empty_title() {
    let result = parse_task_line("[Low] ");
    assert!(result.is_none(), "an empty title is refused");
}

#[test]
fn test_task_creation() {
    let task = Task::new(42, "编写测试".to_string());
    assert_eq!(task.id, 42);
    assert_eq!(task.title, "编写测试");
    assert!(!task.completed, "a new task is not done");
}

#[test]
fn test_task_mark_done() {
    let mut task = Task::new(1, "学习 Rust".to_string());
    assert!(!task.completed, "not done before");
    task.mark_done();
    assert!(task.completed, "done after");
}

#[test]
fn test_task_mark_done_idempotent() {
    let mut task = Task::new(1, "学习 Rust".to_string());
    task.mark_done();
    task.mark_done();
    assert!(task.completed);
}

#[test]
fn test_create_sample_tasks_count() {
    let tasks = create_sample_tasks();
    assert_eq!(tasks.len(), 4, "four sample tasks");
}

#[test]
fn test_create_sample_tasks_all_uncompleted() {
    let tasks = create_sample_tasks();
    for task in &tasks {
        assert!(!task.completed, "sample tasks are not done");
    }
}

#[test]
fn test_create_sample_tasks_unique_ids() {
    let tasks = create_sample_tasks();
    let mut ids: Vec<u32> = tasks.iter().map(|t| t.id).collect();
    ids.sort();
    ids.dedup();
    assert_eq!(ids.len(), tasks.len(), "ids are unique");
}

#[test]
fn test_task_debug_format() {
    let task = Task::new(1, "测试".to_string());
    let debug_str = format!("{task:?}");
    assert!(debug_str.contains("Task"));
    assert!(debug_str.contains("测试"));
}

#[test]
fn test_task_clone() {
    let original = Task::new(10, "原始任务".to_string());
    let cloned = original.clone();
    assert_eq!(original.id, cloned.id);
    assert_eq!(original.title, cloned.title);
    assert_eq!(original.completed, cloned.completed);
}

#[test]
fn test_priority_equality() {
    assert_eq!(Priority::Low, Priority::Low);
    assert_eq!(Priority::Medium, Priority::Medium);
    assert_eq!(Priority::High, Priority::High);
    assert_ne!(Priority::Low, Priority::High);
}

#[test]
fn test_visibility_demonstrated() {
    let tasks = create_sample_tasks();
    assert!(!tasks.is_empty());
    let result = parse_task_line("[High] 测试");
    assert!(result.is_some());
}

#[test]
fn sample_tasks_have_ids_one_to_four_and_titles() {
    let tasks = create_sample_tasks();
    let ids: Vec<u32> = tasks.iter().map(|t| t.id).collect();
    assert_eq!(ids, vec![1, 2, 3, 4]);
    assert_eq!(tasks[0].title, "学习 Rust 模块系统");
    assert_eq!(tasks[3].title, "练习 use 路径导入");
}

#[test]
fn greeting_wraps_name() {
    assert_eq!(greeting("Rust 学习者"), "欢迎来到 Rust 模块系统演示，Rust 学习者！");
}

#[test]
fn title_length_counts_characters() {
    let two_hundred: String = "学".repeat(200);
    assert!(validate_title(&two_hundred));
    let two_hundred_one: String = "学".repeat(201);
    assert!(!validate_title(&two_hundred_one));
}

#[test]
fn parse_refuses_overlong_title_and_prefers_high_tag() {
    let long_line = format!("[Low] {}", "x".repeat(201));
    assert!(parse_task_line(&long_line).is_none());
    assert_eq!(parse_task_line("[High][Low] x"), Some(("[Low] x".to_string(), Priority::High)));
    assert!(parse_task_line("[Medium]").is_none());
}

#[test]
fn sanitize_collapses_tabs_and_newlines() {
    assert_eq!(sanitize("a\t\tb\nc"), "a b c");
    assert_eq!(sanitize("single"), "single");
}
