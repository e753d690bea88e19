use rust_from_python::error_handling::{
    analyze_content, compute_stats, parse_numbers, sums_fit_i64, FileStatsError, StatsResult,
};

#[test]
fn parses_numbers_skipping_blank_and_comment_lines() {
    let content = "# numbers\n10\n\n  -20  \n+30\r\n# end\n";
    assert_eq!(parse_numbers(content), Ok(vec![10, -20, 30]));
    assert_eq!(parse_numbers(""), Ok(vec![]));
    assert_eq!(parse_numbers("2147483647\n-2147483648"), Ok(vec![i32::MAX, i32::MIN]));
}

#[test]
fn reports_first_bad_line() {
    assert_eq!(
        parse_numbers("1\n2\n  abc  \nxyz"),
        Err("第 3 行不是有效的整数: \"abc\"".to_string())
    );
    assert_eq!(
        parse_numbers("2147483648"),
        Err("第 1 行不是有效的整数: \"2147483648\"".to_string())
    );
    assert_eq!(parse_numbers("-"), Err("第 1 行不是有效的整数: \"-\"".to_string()));
    assert_eq!(parse_numbers("1.5"), Err("第 1 行不是有效的整数: \"1.5\"".to_string()));
}

#[test]
fn statistics_of_numbers() {
    assert_eq!(
        compute_stats(&[4, -7, 10, 3]),
        StatsResult { count: 4, sum: 10, min: -7, max: 10 }
    );
    assert_eq!(compute_stats(&[]), StatsResult { count: 0, sum: 0, min: 0, max: 0 });
    assert_eq!(
        compute_stats(&[i32::MAX, i32::MAX]),
        StatsResult { count: 2, sum: 2 * i32::MAX as i64, min: i32::MAX, max: i32::MAX }
    );
}

#[test]
fn running_sums_fit_in_i64() {
    assert!(sums_fit_i64(&[i32::MIN, i32::MAX, 5]));
    assert!(sums_fit_i64(&[]));
}

#[test]
fn analysis_of_file_content() {
    match analyze_content("# data\n3\n\n9\n-3\n") {
        Ok(st) => assert_eq!(st, StatsResult { count: 3, sum: 9, min: -3, max: 9 }),
        Err(e) => panic!("unexpected error: {}", e.message()),
    }
    match analyze_content("# only comments\n\n") {
        Err(FileStatsError::EmptyInput) => {}
        _ => panic!("expected EmptyInput"),
    }
    match analyze_content("1\ntwo\n") {
        Err(FileStatsError::ParseError(m)) => assert_eq!(m, "第 2 行不是有效的整数: \"two\""),
        _ => panic!("expected ParseError"),
    }
}

#[test]
fn analysis_error_messages() {
    assert_eq!(FileStatsError::EmptyInput.message(), "输入为空: 文件中没有有效数据");
    assert_eq!(FileStatsError::ParseError("x".to_string()).message(), "解析错误: x");
    assert_eq!(FileStatsError::IoError("not found".to_string()).message(), "I/O 错误: not found");
}
