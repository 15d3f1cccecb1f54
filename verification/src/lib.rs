//! A small expression-and-statement language: a lexer, a precedence-climbing
//! parser, a tree-walking evaluator and a stack-machine code generator.
//!
//! Text becomes tokens ([`lexer`]), tokens become a tree ([`parser`]), and
//! the tree is either run ([`evaluator`], which computes what [`semantics`]
//! defines) or lowered to assembly ([`codegen`], [`assembly`]). [`pipeline`]
//! runs the stages one after the other. What holds of all programs is proved
//! in [`laws`], [`labels`] and [`stack`].
//!
//! Beside the language stand a calculator for plain arithmetic
//! ([`climbing`]) and the ranking of poker hands ([`poker`]).

pub mod assembly;
pub mod ast;
pub mod chars;
pub mod climbing;
pub mod codegen;
pub mod environment;
pub mod error;
pub mod evaluator;
pub mod labels;
pub mod laws;
pub mod lexer;
pub mod parser;
pub mod pipeline;
pub mod poker;
pub mod semantics;
pub mod stack;
pub mod text;
pub mod token;
