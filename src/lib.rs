pub mod token;
pub mod scanner;
pub mod expression;
pub mod statement;
pub mod grammar;
pub mod parser_errors;
pub mod parser;
pub mod value;
pub mod errors;
pub mod environment;
pub mod function;
pub mod object;
pub mod display;
pub mod interpreter;
pub mod builtin;
pub mod program;
pub mod semantics;
pub mod laws;
