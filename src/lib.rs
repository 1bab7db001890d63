//! A tree-walking interpreter for a small Lox-family scripting language.
//!
//! - `scanner` turns source text into tokens with their positions;
//! - `parser` turns tokens into statements by recursive descent;
//! - `runtime` evaluates statements over a stack of lexical scopes;
//! - `pipeline` joins the three;
//! - `printer` writes syntax trees as text.
//!
//! Each stage is stated as mathematical functions (`scan`, `program`,
//! `execute`) that the executable code is proved to follow.

pub mod ast;
pub mod parser;
pub mod pipeline;
pub mod printer;
pub mod runtime;
pub mod scanner;
pub mod text;
pub mod token;
