//! A small compiler front end: a lexer, a recursive-descent parser, a scope and
//! flow checker, and a generator of C source, each with a mathematical model of
//! what it computes.
pub mod ast;
pub mod lexer;
pub mod semantic;
pub mod text;
pub mod transpiler;
