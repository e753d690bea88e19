use rust_from_python::kv_command::{parse_command, Command};

#[test]
fn set_takes_key_and_rest_of_line() {
    match parse_command("  set greeting hello world\n") {
        Command::SetEntry(k, v) => {
            assert_eq!(k, "greeting");
            assert_eq!(v, "hello world");
        }
        other => panic!("unexpected {:?}", other),
    }
}

#[test]
fn command_word_is_case_insensitive() {
    match parse_command("GET name") {
        Command::Get(k) => assert_eq!(k, "name"),
        other => panic!("unexpected {:?}", other),
    }
    assert!(matches!(parse_command("LIST"), Command::List));
    assert!(matches!(parse_command("Exit"), Command::Quit));
    assert!(matches!(parse_command("quit"), Command::Quit));
    assert!(matches!(parse_command("save"), Command::Save));
    assert!(matches!(parse_command("help"), Command::Help));
}

#[test]
fn missing_arguments_give_usage() {
    match parse_command("set onlykey") {
        Command::Usage(u) => assert_eq!(u, "用法: set <key> <value>"),
        other => panic!("unexpected {:?}", other),
    }
    // Two spaces leave an empty key between them.
    match parse_command("set  a b") {
        Command::Usage(u) => assert_eq!(u, "用法: set <key> <value>"),
        other => panic!("unexpected {:?}", other),
    }
    match parse_command("get") {
        Command::Usage(u) => assert_eq!(u, "用法: get <key>"),
        other => panic!("unexpected {:?}", other),
    }
    match parse_command("remove") {
        Command::Usage(u) => assert_eq!(u, "用法: remove <key>"),
        other => panic!("unexpected {:?}", other),
    }
}

#[test]
fn blank_and_unknown_lines() {
    assert!(matches!(parse_command("   \t\n"), Command::Empty));
    match parse_command("DROP table") {
        Command::Unknown(c) => assert_eq!(c, "drop"),
        other => panic!("unexpected {:?}", other),
    }
    match parse_command("remove k extra") {
        Command::Remove(k) => assert_eq!(k, "k"),
        other => panic!("unexpected {:?}", other),
    }
}
