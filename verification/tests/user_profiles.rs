use rust_from_python::user_profiles::{
    active_usernames, classify_user_detailed, describe_user, find_user, get_email_domain, must_find_user,
    UserProfile, UserStatus,
};

#[test]
fn directory_lookup_ignores_case() {
    let alice = find_user("ALICE").unwrap();
    assert_eq!(alice.username, "Alice");
    assert_eq!(alice.email.as_deref(), Some("alice@rust-lang.org"));
    assert_eq!(alice.age, Some(30));
    assert!(matches!(alice.status, UserStatus::Active));
    let charlie = find_user("Charlie").unwrap();
    assert!(matches!(&charlie.status, UserStatus::Banned(r) if r == "违反社区准则"));
    assert!(find_user("unknown").is_none());
    assert!(find_user("").is_none());
}

#[test]
fn email_domains() {
    assert_eq!(get_email_domain(&find_user("alice").unwrap()), Some("rust-lang.org"));
    assert_eq!(get_email_domain(&find_user("bob").unwrap()), None);
    let p = UserProfile {
        username: "X".to_string(),
        email: Some("no-at-sign".to_string()),
        age: None,
        status: UserStatus::Inactive,
    };
    assert_eq!(get_email_domain(&p), None);
    let q = UserProfile {
        username: "Y".to_string(),
        email: Some("a@b@c".to_string()),
        age: None,
        status: UserStatus::Inactive,
    };
    assert_eq!(get_email_domain(&q), Some("b@c"));
}

#[test]
fn descriptions() {
    assert_eq!(
        describe_user(&find_user("alice").unwrap()),
        "用户: Alice | 邮箱: alice@rust-lang.org | 年龄: 30岁 | 状态: 正常使用中"
    );
    assert_eq!(
        describe_user(&find_user("bob").unwrap()),
        "用户: Bob | 邮箱: 未提供 | 年龄: 年龄未知 | 状态: 账号未激活，请查收验证邮件"
    );
    assert_eq!(
        describe_user(&find_user("charlie").unwrap()),
        "用户: Charlie | 邮箱: charlie@example.com | 年龄: 25岁 | 状态: 已被封禁，原因：违反社区准则"
    );
}

#[test]
fn let_else_reports() {
    assert_eq!(must_find_user("alice"), "let else: 找到 Alice，邮箱域名: rust-lang.org");
    assert_eq!(must_find_user("Bob"), "let else: 找到 Bob，邮箱域名: 无邮箱");
    assert_eq!(must_find_user("ghost"), "let else: 用户 'ghost' 不存在，无法继续处理");
}

#[test]
fn detailed_classes() {
    assert_eq!(
        classify_user_detailed(&find_user("alice").unwrap()),
        "Alice 是活跃用户，邮箱: alice@rust-lang.org"
    );
    assert_eq!(classify_user_detailed(&find_user("bob").unwrap()), "Bob 未激活，也未提供邮箱");
    assert_eq!(
        classify_user_detailed(&find_user("charlie").unwrap()),
        "Charlie 已被封禁(违反社区准则)，但其邮箱仍然存在"
    );
    let p = UserProfile {
        username: "Eve".to_string(),
        email: None,
        age: None,
        status: UserStatus::Banned("spam".to_string()),
    };
    assert_eq!(classify_user_detailed(&p), "Eve 已被封禁(spam)，且无邮箱信息");
    assert_eq!(p.status.label(), "已封禁(spam)");
    assert_eq!(UserStatus::Active.label(), "活跃");
}

#[test]
fn active_users_in_order() {
    let mk = |name: &str, status: UserStatus| UserProfile {
        username: name.to_string(),
        email: None,
        age: None,
        status,
    };
    let users = vec![
        mk("alice", UserStatus::Active),
        mk("bob", UserStatus::Inactive),
        mk("carol", UserStatus::Banned("spam".to_string())),
        mk("dave", UserStatus::Active),
    ];
    assert_eq!(active_usernames(&users), vec!["alice", "dave"]);
    assert!(active_usernames(&[]).is_empty());
}
