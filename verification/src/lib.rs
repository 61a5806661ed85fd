//! A tree-walking interpreter for the Lox language: scanner, parser,
//! environments and evaluator, each proved against a specification of what
//! it computes.

pub mod token;
pub mod chars;
pub mod scanner;
pub mod treewalk;
pub mod expression;
pub mod statement;
pub mod grammar;
pub mod parser;
pub mod environment;
pub mod numbers;
pub mod semantics;
pub mod interpreter;
pub mod printer;
pub mod laws;
