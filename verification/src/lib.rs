//! A small dynamically-typed expression language: lexer, operator-precedence
//! parser, and tree-walking evaluator with lexically scoped environments.
//!
//! The pipeline turns source text into tokens ([`lexer`]), tokens into an
//! abstract syntax tree ([`ast`], built by [`parser`]), and the tree into
//! runtime values ([`object`], reduced by [`evaluator`]). Every stage is
//! specified against a mathematical model: the lexer against a token stream
//! function over the input characters, the parser against a functional
//! operator-precedence parser over that stream, and the evaluator against a
//! fuel-indexed big-step semantics over views of the syntax tree.

#![allow(non_snake_case)]
#![allow(non_camel_case_types)]

pub mod ast;
pub mod evaluator;
pub mod laws;
pub mod lexer;
pub mod object;
pub mod parser;
pub mod token;
