//! A minimal Lisp-family interpreter: a tokenizer, a parser producing an
//! s-expression tree, a lexically scoped environment of binding frames, and a
//! tree-walking evaluator with `let`, `func` and the four arithmetic forms.
//!
//! Numbers are 64-bit signed integers with wrapping arithmetic; division
//! truncates toward zero and division by zero is reported as an error.

pub mod env;
pub mod eval;
pub mod interpreter;
pub mod lexer;
pub mod node;
pub mod parser;
pub mod render;
pub mod stdlib;
