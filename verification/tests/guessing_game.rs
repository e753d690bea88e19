use rust_from_python::guessing_game::{
    check_guess, generate_secret, parse_guess, performance_message, Game, Turn,
};
use std::cmp::Ordering;

#[test]
fn test_parse_guess_valid_number() {
    let result = parse_guess("42");
    assert!(result.is_ok());
    assert_eq!(result.unwrap(), 42);
}

#[test]
fn test_parse_guess_with_whitespace() {
    let result = parse_guess("  100  ");
    assert!(result.is_ok());
    assert_eq!(result.unwrap(), 100);
}

#[test]
fn test_parse_guess_boundary_min() {
    let result = parse_guess("1");
    assert!(result.is_ok());
    assert_eq!(result.unwrap(), 1);
}

#[test]
fn test_parse_guess_boundary_max() {
    let result = parse_guess("4294967295");
    assert!(result.is_ok());
    assert_eq!(result.unwrap(), 4294967295u32);
}

#[test]
fn test_parse_guess_non_numeric() {
    let result = parse_guess("abc");
    assert!(result.is_err());
    let err = result.unwrap_err();
    assert!(err.contains("不是一个有效的数字"));
}

#[test]
fn test_parse_guess_empty_input() {
    let result = parse_guess("");
    assert!(result.is_err());
    let err = result.unwrap_err();
    assert!(err.contains("输入为空"));
}

#[test]
fn test_parse_guess_whitespace_only() {
    let result = parse_guess("   \t  ");
    assert!(result.is_err());
    let err = result.unwrap_err();
    assert!(err.contains("输入为空"));
}

#[test]
fn test_parse_guess_float_number() {
    let result = parse_guess("12.5");
    assert!(result.is_err());
}

#[test]
fn test_parse_guess_negative_number() {
    let result = parse_guess("-5");
    assert!(result.is_err());
}

#[test]
fn test_parse_guess_scientific_notation() {
    let result = parse_guess("1e5");
    assert!(result.is_err());
}

#[test]
fn test_parse_guess_zero() {
    let result = parse_guess("0");
    assert!(result.is_ok());
    assert_eq!(result.unwrap(), 0);
}

#[test]
fn test_check_guess_less() {
    assert_eq!(check_guess(30, 50), Ordering::Less);
    assert_eq!(check_guess(1, 100), Ordering::Less);
    assert_eq!(check_guess(0, 1), Ordering::Less);
}

#[test]
fn test_check_guess_equal() {
    assert_eq!(check_guess(50, 50), Ordering::Equal);
    assert_eq!(check_guess(1, 1), Ordering::Equal);
    assert_eq!(check_guess(100, 100), Ordering::Equal);
}

#[test]
fn test_check_guess_greater() {
    assert_eq!(check_guess(70, 50), Ordering::Greater);
    assert_eq!(check_guess(100, 1), Ordering::Greater);
    assert_eq!(check_guess(2, 1), Ordering::Greater);
}

#[test]
fn test_check_guess_extreme_values() {
    assert_eq!(check_guess(0, u32::MAX), Ordering::Less);
    assert_eq!(check_guess(u32::MAX, 0), Ordering::Greater);
}

#[test]
fn parse_guess_messages_are_exact() {
    assert_eq!(parse_guess(" x1 ").unwrap_err(), "'x1' 不是一个有效的数字，请输入 1-100 之间的整数");
    assert_eq!(parse_guess("\n").unwrap_err(), "输入为空，请输入一个数字");
}

#[test]
fn parse_guess_follows_u32_parsing() {
    assert_eq!(parse_guess("+7"), Ok(7));
    assert!(parse_guess("+").is_err());
    assert!(parse_guess("4294967296").is_err());
    assert!(parse_guess("99999999999999999999").is_err());
    assert_eq!(parse_guess("007"), Ok(7));
    assert!(parse_guess("１２").is_err());
}

#[test]
fn secret_is_within_range() {
    for _ in 0..200 {
        let n = generate_secret();
        assert!((1..=100).contains(&n));
    }
    let g = Game::new();
    assert!((1..=100).contains(&g.secret));
    assert_eq!(g.attempts, 0);
}

#[test]
fn performance_bands() {
    assert_eq!(performance_message(1), "🌟 一次就中！你是天才！理论最优解！");
    assert_eq!(performance_message(3), "👏 非常厉害！你很快找到了答案。");
    assert_eq!(performance_message(7), "👍 不错的表现！在合理范围内。");
    assert_eq!(performance_message(12), "😊 还可以，继续练习会更好。");
    assert_eq!(performance_message(13), "💪 继续加油！试试二分查找策略？");
    assert_eq!(performance_message(0), "💪 继续加油！试试二分查找策略？");
}

#[test]
fn a_game_counts_every_turn() {
    let mut g = Game::with_secret(42);
    assert!(matches!(g.play_turn("abc\n"), Turn::NotANumber(_)));
    assert!(matches!(g.play_turn("0"), Turn::OutOfRange));
    assert!(matches!(g.play_turn("101"), Turn::OutOfRange));
    assert!(matches!(g.play_turn("5"), Turn::TooSmall("试试大一点的数")));
    assert!(matches!(g.play_turn("30"), Turn::TooSmall("往上猜")));
    assert!(matches!(g.play_turn("95"), Turn::TooBig("试试小一点的数")));
    assert!(matches!(g.play_turn("60"), Turn::TooBig("往下猜")));
    assert!(matches!(g.play_turn(" 42 \n"), Turn::Correct));
    assert_eq!(g.attempts, 8);
    assert_eq!(g.secret, 42);
}
