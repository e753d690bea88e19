//! User profiles with optional fields and a status: a fixed user directory,
//! and descriptions built by matching on what a profile holds.

use vstd::prelude::*;
use vstd::string::*;
use crate::text::{chars_of, decimal, decimal_string, lowercase, to_lowercase, str_eq};

verus! {

/// Whether a user may use the service.
#[derive(Debug)]
pub enum UserStatus {
    Active,
    Inactive,
    /// Banned, for the given reason.
    Banned(String),
}

impl UserStatus {
    /// How the status is shown: `活跃`, `未激活` or `已封禁(<reason>)`.
    pub fn label(&self) -> (s: String)
        ensures
            s@ == status_label(*self),
    {
        match self {
            UserStatus::Active => String::from_str("活跃"),
            UserStatus::Inactive => String::from_str("未激活"),
            UserStatus::Banned(reason) => {
                let mut s = String::from_str("已封禁(");
                s.append(reason.as_str());
                s.append(")");
                s
            },
        }
    }
}

/// How a status is shown.
pub open spec fn status_label(s: UserStatus) -> Seq<char> {
    match s {
        UserStatus::Active => "活跃"@,
        UserStatus::Inactive => "未激活"@,
        UserStatus::Banned(reason) => "已封禁("@ + reason@ + ")"@,
    }
}

/// A user's profile; e-mail and age are optional.
#[derive(Debug)]
pub struct UserProfile {
    pub username: String,
    pub email: Option<String>,
    pub age: Option<u8>,
    pub status: UserStatus,
}

/// The profile holds this name, e-mail, age and status.
pub open spec fn profile_is(
    p: UserProfile,
    name: Seq<char>,
    email: Option<Seq<char>>,
    age: Option<u8>,
    status: UserStatus,
) -> bool {
    &&& p.username@ == name
    &&& match (p.email, email) {
        (Some(e), Some(f)) => e@ == f,
        (None, None) => true,
        _ => false,
    }
    &&& p.age == age
    &&& match (p.status, status) {
        (UserStatus::Active, UserStatus::Active) => true,
        (UserStatus::Inactive, UserStatus::Inactive) => true,
        (UserStatus::Banned(a), UserStatus::Banned(b)) => a@ == b@,
        _ => false,
    }
}

/// The directory entry for a lower-cased user name, if there is one.
pub open spec fn directory_entry(p: UserProfile, key: Seq<char>) -> bool {
    if key == "alice"@ {
        profile_is(p, "Alice"@, Some("alice@rust-lang.org"@), Some(30u8), UserStatus::Active)
    } else if key == "bob"@ {
        profile_is(p, "Bob"@, None, None, UserStatus::Inactive)
    } else if key == "charlie"@ {
        p.username@ == "Charlie"@ && (p.email matches Some(e) && e@ == "charlie@example.com"@)
            && p.age == Some(25u8) && (p.status matches UserStatus::Banned(r) && r@
            == "违反社区准则"@)
    } else if key == "dave"@ {
        profile_is(p, "Dave"@, Some("dave@rust-lang.org"@), None, UserStatus::Active)
    } else {
        false
    }
}

/// The names in the directory, lower-cased.
pub open spec fn in_directory(key: Seq<char>) -> bool {
    key == "alice"@ || key == "bob"@ || key == "charlie"@ || key == "dave"@
}

/// Looks a user up by name, ignoring case.
pub fn find_user(username: &str) -> (r: Option<UserProfile>)
    ensures
        r is Some <==> in_directory(lowercase(username@)),
        r matches Some(p) ==> directory_entry(p, lowercase(username@)),
{
    let key = to_lowercase(username);
    if str_eq(key.as_str(), "alice") {
        Some(
            UserProfile {
                username: String::from_str("Alice"),
                email: Some(String::from_str("alice@rust-lang.org")),
                age: Some(30),
                status: UserStatus::Active,
            },
        )
    } else if str_eq(key.as_str(), "bob") {
        Some(
            UserProfile {
                username: String::from_str("Bob"),
                email: None,
                age: None,
                status: UserStatus::Inactive,
            },
        )
    } else if str_eq(key.as_str(), "charlie") {
        Some(
            UserProfile {
                username: String::from_str("Charlie"),
                email: Some(String::from_str("charlie@example.com")),
                age: Some(25),
                status: UserStatus::Banned(String::from_str("违反社区准则")),
            },
        )
    } else if str_eq(key.as_str(), "dave") {
        Some(
            UserProfile {
                username: String::from_str("Dave"),
                email: Some(String::from_str("dave@rust-lang.org")),
                age: None,
                status: UserStatus::Active,
            },
        )
    } else {
        None
    }
}

/// The first `'@'` of `s` is at `i`.
pub open spec fn first_at_sign(s: Seq<char>, i: int) -> bool {
    0 <= i < s.len() && s[i] == '@' && forall|j: int| 0 <= j < i ==> s[j] != '@'
}

/// The part of an address after its first `'@'`, if it has one.
pub open spec fn domain_of(email: Seq<char>) -> Option<Seq<char>> {
    if exists|i: int| first_at_sign(email, i) {
        Some(email.skip((choose|i: int| first_at_sign(email, i)) + 1))
    } else {
        None
    }
}

/// The domain of the profile's e-mail address: what follows its first
/// `'@'`; `None` without an address or without an `'@'`.
pub fn get_email_domain(profile: &UserProfile) -> (r: Option<&str>)
    ensures
        match profile.email {
            None => r is None,
            Some(e) => (r is None <==> domain_of(e@) is None) && (r matches Some(d) ==> Some(
                d@,
            ) == domain_of(e@)),
        },
{
    match &profile.email {
        None => None,
        Some(email) => {
            let cs = chars_of(email.as_str());
            let mut i: usize = 0;
            while i < cs.len()
                invariant
                    i <= cs@.len(),
                    cs@ == email@,
                    profile.email == Some(*email),
                    forall|j: int| 0 <= j < i ==> email@[j] != '@',
                decreases cs@.len() - i,
            {
                if cs[i] == '@' {
                    proof {
                        assert(first_at_sign(email@, i as int));
                        let k = choose|k: int| first_at_sign(email@, k);
                        if k < i {
                            assert(email@[k] != '@');
                        } else if k > i {
                            assert(email@[i as int] != '@');
                        }
                    }
                    let d = email.as_str().substring_char(i + 1, cs.len());
                    assert(d@ =~= email@.skip(i + 1));
                    return Some(d);
                }
                i = i + 1;
            }
            None
        },
    }
}

/// The status as `describe_user` words it.
pub open spec fn status_description(s: UserStatus) -> Seq<char> {
    match s {
        UserStatus::Active => "正常使用中"@,
        UserStatus::Inactive => "账号未激活，请查收验证邮件"@,
        UserStatus::Banned(reason) => "已被封禁，原因："@ + reason@,
    }
}

/// The one-line description of a profile.
pub open spec fn description(p: UserProfile) -> Seq<char> {
    let age = match p.age {
        Some(a) => decimal(a as nat) + "岁"@,
        None => "年龄未知"@,
    };
    let email = match p.email {
        Some(e) => e@,
        None => "未提供"@,
    };
    "用户: "@ + p.username@ + " | 邮箱: "@ + email + " | 年龄: "@ + age + " | 状态: "@
        + status_description(p.status)
}

/// The one-line description of a profile: name, e-mail, age and status.
pub fn describe_user(profile: &UserProfile) -> (s: String)
    ensures
        s@ == description(*profile),
{
    let age_str = match profile.age {
        Some(a) => {
            let mut s = decimal_string(a as u64);
            s.append("岁");
            s
        },
        None => String::from_str("年龄未知"),
    };
    let email_str = match &profile.email {
        Some(e) => e.clone(),
        None => String::from_str("未提供"),
    };
    let status_str = match &profile.status {
        UserStatus::Active => String::from_str("正常使用中"),
        UserStatus::Inactive => String::from_str("账号未激活，请查收验证邮件"),
        UserStatus::Banned(reason) => {
            let mut s = String::from_str("已被封禁，原因：");
            s.append(reason.as_str());
            s
        },
    };
    let mut out = String::from_str("用户: ");
    out.append(profile.username.as_str());
    out.append(" | 邮箱: ");
    out.append(email_str.as_str());
    out.append(" | 年龄: ");
    out.append(age_str.as_str());
    out.append(" | 状态: ");
    out.append(status_str.as_str());
    out
}

/// What `must_find_user` reports for a name.
pub open spec fn lookup_report(username: Seq<char>) -> Seq<char> {
    let key = lowercase(username);
    if !in_directory(key) {
        "let else: 用户 '"@ + username + "' 不存在，无法继续处理"@
    } else {
        let (name, domain): (Seq<char>, Seq<char>) = if key == "alice"@ {
            ("Alice"@, "rust-lang.org"@)
        } else if key == "bob"@ {
            ("Bob"@, "无邮箱"@)
        } else if key == "charlie"@ {
            ("Charlie"@, "example.com"@)
        } else {
            ("Dave"@, "rust-lang.org"@)
        };
        "let else: 找到 "@ + name + "，邮箱域名: "@ + domain
    }
}

/// Looks a user up and reports the name and e-mail domain, or that there is
/// no such user.
pub fn must_find_user(username: &str) -> (s: String)
    ensures
        s@ == lookup_report(username@),
{
    proof {
        reveal_strlit("alice@rust-lang.org");
        reveal_strlit("charlie@example.com");
        reveal_strlit("dave@rust-lang.org");
        reveal_strlit("rust-lang.org");
        reveal_strlit("example.com");
        assert(first_at_sign("alice@rust-lang.org"@, 5));
        assert(first_at_sign("charlie@example.com"@, 7));
        assert(first_at_sign("dave@rust-lang.org"@, 4));
        assert("alice@rust-lang.org"@.skip(6) =~= "rust-lang.org"@);
        assert("charlie@example.com"@.skip(8) =~= "example.com"@);
        assert("dave@rust-lang.org"@.skip(5) =~= "rust-lang.org"@);
        reveal_strlit("alice");
        reveal_strlit("bob");
        reveal_strlit("charlie");
        reveal_strlit("dave");
    }
    let profile = match find_user(username) {
        Some(p) => p,
        None => {
            let mut s = String::from_str("let else: 用户 '");
            s.append(username);
            s.append("' 不存在，无法继续处理");
            return s;
        },
    };
    let domain = match get_email_domain(&profile) {
        Some(d) => String::from_str(d),
        None => String::from_str("无邮箱"),
    };
    let mut s = String::from_str("let else: 找到 ");
    s.append(profile.username.as_str());
    s.append("，邮箱域名: ");
    s.append(domain.as_str());
    s
}

/// What `classify_user_detailed` says of a profile.
pub open spec fn detailed_class(p: UserProfile) -> Seq<char> {
    match (p.email, p.status) {
        (Some(email), UserStatus::Active) => p.username@ + " 是活跃用户，邮箱: "@ + email@,
        (Some(_), UserStatus::Banned(reason)) => p.username@ + " 已被封禁("@ + reason@
            + ")，但其邮箱仍然存在"@,
        (None, UserStatus::Banned(reason)) => p.username@ + " 已被封禁("@ + reason@
            + ")，且无邮箱信息"@,
        (None, UserStatus::Inactive) => p.username@ + " 未激活，也未提供邮箱"@,
        (Some(email), UserStatus::Inactive) => p.username@ + " 未激活，但提供了邮箱: "@ + email@,
        (None, UserStatus::Active) => p.username@ + " 是活跃用户，但未提供邮箱"@,
    }
}

/// Describes a profile by its e-mail and status together.
pub fn classify_user_detailed(profile: &UserProfile) -> (s: String)
    ensures
        s@ == detailed_class(*profile),
{
    let mut s = String::from_str(profile.username.as_str());
    match (&profile.email, &profile.status) {
        (Some(email), UserStatus::Active) => {
            s.append(" 是活跃用户，邮箱: ");
            s.append(email.as_str());
        },
        (Some(_), UserStatus::Banned(reason)) => {
            s.append(" 已被封禁(");
            s.append(reason.as_str());
            s.append(")，但其邮箱仍然存在");
        },
        (None, UserStatus::Banned(reason)) => {
            s.append(" 已被封禁(");
            s.append(reason.as_str());
            s.append(")，且无邮箱信息");
        },
        (None, UserStatus::Inactive) => {
            s.append(" 未激活，也未提供邮箱");
        },
        (Some(email), UserStatus::Inactive) => {
            s.append(" 未激活，但提供了邮箱: ");
            s.append(email.as_str());
        },
        (None, UserStatus::Active) => {
            s.append(" 是活跃用户，但未提供邮箱");
        },
    }
    s
}

/// The names of the active users of `us`, in order.
pub open spec fn active_names(us: Seq<UserProfile>) -> Seq<Seq<char>>
    decreases us.len(),
{
    if us.len() == 0 {
        seq![]
    } else if us.last().status is Active {
        active_names(us.drop_last()).push(us.last().username@)
    } else {
        active_names(us.drop_last())
    }
}

/// The names of the users of `users` whose status is active, in order.
pub fn active_usernames(users: &[UserProfile]) -> (r: Vec<&str>)
    ensures
        r@.map_values(|s: &str| s@) == active_names(users@),
{
    let mut r: Vec<&str> = Vec::new();
    let mut i: usize = 0;
    assert(users@.take(0) =~= Seq::<UserProfile>::empty());
    assert(r@.map_values(|s: &str| s@) =~= Seq::<Seq<char>>::empty());
    while i < users.len()
        invariant
            i <= users@.len(),
            r@.map_values(|s: &str| s@) == active_names(users@.take(i as int)),
        decreases users@.len() - i,
    {
        assert(users@.take(i + 1).drop_last() =~= users@.take(i as int));
        let u = &users[i];
        let ghost before = r@.map_values(|s: &str| s@);
        if let UserStatus::Active = &u.status {
            r.push(u.username.as_str());
            assert(r@.map_values(|s: &str| s@) =~= before.push(u.username@));
        }
        i = i + 1;
    }
    assert(users@.take(i as int) =~= users@);
    r
}

} // verus!
