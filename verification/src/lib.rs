//! A verified library of the text, collection and small-program logic taught in
//! a Rust course for Python programmers.

pub mod async_basics;
pub mod borrowing;
pub mod closures_iterators;
pub mod collections;
pub mod control_flow;
pub mod course_intro;
pub mod error_handling;
pub mod features;
pub mod generics_traits;
pub mod guessing_game;
pub mod kv_command;
pub mod kv_store;
pub mod lifetimes;
pub mod math_utils;
pub mod packages_and_modules;
pub mod resource_management;
pub mod slices;
pub mod smart_pointers;
pub mod testing_and_docs;
pub mod text;
pub mod text_analyzer;
pub mod text_search;
pub mod text_stats;
pub mod threads;
pub mod todo_cli;
pub mod trait_objects;
pub mod user_profiles;
pub mod word_freq;
