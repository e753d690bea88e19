//! A small task model and a parser for task lines such as `[High] title`,
//! laid out in modules the way a library crate with a binary beside it is.

pub mod app_utils;
pub mod models;
pub mod services;
