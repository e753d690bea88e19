//! The course's opening texts: what Rust is, the toolchain, and a constant
//! computed from fixed values.

use vstd::prelude::*;
use vstd::string::*;

verus! {

/// The paragraph that introduces Rust.
pub open spec fn what_is_rust_text() -> Seq<char> {
    "Rust 是一门由 Mozilla Research 开发、现由 Rust 基金会维护的系统编程语言（Systems Programming Language）。它的设计目标是提供与 C/C++ 同等级别的性能，同时通过一套独特的所有权系统（ownership system）在编译期消除内存错误、数据竞争等常见 bug。与 Python 这类解释型语言不同，Rust 是编译型语言（Compiled Language），代码在运行前会被编译为本地机器码，因此执行速度极快，且不需要运行时（runtime）或垃圾回收器（Garbage Collector）。\n\n对于 Python 程序员来说，Rust 最好的类比是：\"像 Python 一样富有表现力的人体工程学设计，加上 C++ 级别的性能，同时编译器像一位严格的导师，在你写出不安全的代码时给你清晰的错误信息。\"\n\n在接下来的课程中，我们将从 Python 出发，一步步走进 Rust 的世界，理解系统编程的核心概念，并学会如何在实际项目中结合两者的优势。"@
}

/// The paragraph that introduces Rust.
pub fn explain_what_is_rust() -> (s: String)
    ensures
        s@ == what_is_rust_text(),
{
    String::from_str("Rust 是一门由 Mozilla Research 开发、现由 Rust 基金会维护的系统编程语言（Systems Programming Language）。它的设计目标是提供与 C/C++ 同等级别的性能，同时通过一套独特的所有权系统（ownership system）在编译期消除内存错误、数据竞争等常见 bug。与 Python 这类解释型语言不同，Rust 是编译型语言（Compiled Language），代码在运行前会被编译为本地机器码，因此执行速度极快，且不需要运行时（runtime）或垃圾回收器（Garbage Collector）。\n\n对于 Python 程序员来说，Rust 最好的类比是：\"像 Python 一样富有表现力的人体工程学设计，加上 C++ 级别的性能，同时编译器像一位严格的导师，在你写出不安全的代码时给你清晰的错误信息。\"\n\n在接下来的课程中，我们将从 Python 出发，一步步走进 Rust 的世界，理解系统编程的核心概念，并学会如何在实际项目中结合两者的优势。")
}

/// `42 * 2 + 7`.
pub fn compute_at_compile_time() -> (r: i32)
    ensures
        r == 91,
{
    let base: i32 = 42;
    let doubled: i32 = base * 2;
    let offset: i32 = 7;
    doubled + offset
}

/// The overview of the three tools of the Rust toolchain.
pub open spec fn toolchain_text() -> Seq<char> {
    "═══════════════════════════════════════════\n  Rust 工具链 (Toolchain) 三大组件\n═══════════════════════════════════════════\n\n1. rustc — Rust 编译器 (Compiler)\n   ┌─────────────────────────────────────\n   │ 将 .rs 源文件编译为可执行文件或库。\n   │ 你可以直接调用它，但日常开发中几乎\n   │ 总是通过 cargo 间接使用。\n   │ 类比: GCC/Clang for C/C++\n   │ 命令示例: rustc main.rs\n   └─────────────────────────────────────\n\n2. cargo — Rust 构建系统 & 包管理器\n   ┌─────────────────────────────────────\n   │ 依赖管理、编译、测试、发布一站式工具。\n   │ 读取 Cargo.toml 确定项目配置。\n   │ 内部调用 rustc 完成实际编译。\n   │ 类比: pip + setuptools + venv for Python\n   │       npm for Node.js\n   │ 命令示例: cargo build, cargo run\n   └─────────────────────────────────────\n\n3. rustup — Rust 工具链安装器\n   ┌─────────────────────────────────────\n   │ 安装、更新、管理多版本 Rust 工具链。\n   │ 可以同时拥有 stable / beta / nightly。\n   │ 类比: nvm (Node), pyenv (Python)\n   │ 命令示例: rustup update, rustup default\n   └─────────────────────────────────────\n\n工作流程: rustup 安装 → cargo 编排 → rustc 编译\n          ────────        ──────        ─────\n          版本管理        项目管理       实际工作\n"@
}

/// The overview of the three tools of the Rust toolchain.
pub fn get_toolchain_info() -> (s: String)
    ensures
        s@ == toolchain_text(),
{
    String::from_str("═══════════════════════════════════════════\n  Rust 工具链 (Toolchain) 三大组件\n═══════════════════════════════════════════\n\n1. rustc — Rust 编译器 (Compiler)\n   ┌─────────────────────────────────────\n   │ 将 .rs 源文件编译为可执行文件或库。\n   │ 你可以直接调用它，但日常开发中几乎\n   │ 总是通过 cargo 间接使用。\n   │ 类比: GCC/Clang for C/C++\n   │ 命令示例: rustc main.rs\n   └─────────────────────────────────────\n\n2. cargo — Rust 构建系统 & 包管理器\n   ┌─────────────────────────────────────\n   │ 依赖管理、编译、测试、发布一站式工具。\n   │ 读取 Cargo.toml 确定项目配置。\n   │ 内部调用 rustc 完成实际编译。\n   │ 类比: pip + setuptools + venv for Python\n   │       npm for Node.js\n   │ 命令示例: cargo build, cargo run\n   └─────────────────────────────────────\n\n3. rustup — Rust 工具链安装器\n   ┌─────────────────────────────────────\n   │ 安装、更新、管理多版本 Rust 工具链。\n   │ 可以同时拥有 stable / beta / nightly。\n   │ 类比: nvm (Node), pyenv (Python)\n   │ 命令示例: rustup update, rustup default\n   └─────────────────────────────────────\n\n工作流程: rustup 安装 → cargo 编排 → rustc 编译\n          ────────        ──────        ─────\n          版本管理        项目管理       实际工作\n")
}

} // verus!
