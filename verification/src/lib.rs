//! A lexer, parser and tree-walking evaluator for the Monkey language.
pub mod token;
pub mod utils;
pub mod lexer;
pub mod ast;
pub mod parser;
pub mod object;
pub mod environment;
pub mod evaluator;
pub mod ast_enum;
pub mod object_enum;
pub mod evaluator_enum;
pub mod builtins;
