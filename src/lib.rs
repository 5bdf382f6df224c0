//! A lexer for a small programming language: it turns source text into an
//! ordered sequence of classified tokens, or fails on the first invalid input.
//! Every function is proved against the lexical grammar stated in `grammar`.

pub mod grammar;
pub mod laws;
pub mod scanner;
pub mod text;
pub mod token;
