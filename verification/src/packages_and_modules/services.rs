//! Parsing and checking task input.

pub mod parser;
pub mod validator;

pub use parser::parse_task_line;
