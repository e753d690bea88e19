//! Helpers of the program around the task library.

use vstd::prelude::*;
use vstd::string::*;

verus! {

/// The greeting's fixed opening.
pub open spec fn base_text() -> Seq<char> {
    "欢迎来到 Rust 模块系统演示"@
}

fn base_message() -> (s: String)
    ensures
        s@ == base_text(),
{
    String::from_str("欢迎来到 Rust 模块系统演示")
}

/// `"<base>，<name>！"`: the fixed opening, a full-width comma, the name and
/// a full-width exclamation mark.
pub fn greeting(name: &str) -> (s: String)
    ensures
        s@ == base_text() + "，"@ + name@ + "！"@,
{
    let mut s = base_message();
    s.append("，");
    s.append(name);
    s.append("！");
    s
}

} // verus!
