use rust_from_python::borrowing::{first_word, longest_word, sum_slice};
use rust_from_python::control_flow::{calculate_max, calculate_min, calculate_sum, classify_city};
use rust_from_python::course_intro::{
    compute_at_compile_time, explain_what_is_rust, get_toolchain_info,
};

#[test]
fn min_max_sum() {
    let data = [3, -7, 12, 0, 12, -7];
    assert_eq!(calculate_min(&data), Some(-7));
    assert_eq!(calculate_max(&data), Some(12));
    assert_eq!(calculate_sum(&data), 13);
    assert_eq!(calculate_min(&[]), None);
    assert_eq!(calculate_max(&[]), None);
    assert_eq!(calculate_sum(&[]), 0);
    assert_eq!(calculate_min(&[i32::MIN, i32::MAX]), Some(i32::MIN));
}

#[test]
fn city_classes() {
    assert_eq!(classify_city(20_000_000), "超大城市");
    assert_eq!(classify_city(10_000_000), "大城市");
    assert_eq!(classify_city(1_000_001), "大城市");
    assert_eq!(classify_city(1_000_000), "中等城市");
    assert_eq!(classify_city(100_000), "小城市");
    assert_eq!(classify_city(0), "小城市");
}

#[test]
fn borrowing_helpers() {
    assert_eq!(first_word("hello world"), "hello");
    assert_eq!(sum_slice(&[1, 2, 3, 4, 5]), 15);
    assert_eq!(longest_word("the quick brownish fox jumped"), "brownish");
    assert_eq!(longest_word("ab cd"), "ab");
    assert_eq!(longest_word("你好 abc"), "abc");
    assert_eq!(longest_word("   "), "");
}

#[test]
fn course_texts() {
    assert_eq!(compute_at_compile_time(), 91);
    let what = explain_what_is_rust();
    assert!(what.starts_with("Rust 是一门由 Mozilla Research 开发"));
    assert!(what.contains("所有权系统（ownership system）"));
    assert!(what.contains("编译型语言（Compiled Language）"));
    let info = get_toolchain_info();
    assert!(info.starts_with("═══════════════════════════════════════════\n  Rust 工具链 (Toolchain) 三大组件\n"));
    assert!(info.ends_with("          版本管理        项目管理       实际工作\n"));
}
