//! Verified decision logic of four procedural macros: a builder derive, a custom
//! `Debug` derive, a `seq!` repetition macro and a `#[sorted]` checker.
//!
//! The front end that parses real Rust syntax and renders tokens lives in `app/`;
//! this library works on plain models of tokens, types and attributes.

pub mod text;
pub mod tokens;
pub mod seq_macro;
pub mod seq_parse;
pub mod sorted;
pub mod types;
pub mod debug_derive;
pub mod builder;
