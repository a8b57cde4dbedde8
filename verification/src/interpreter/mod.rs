pub mod ast;
pub mod evaluator;
pub mod host;
pub mod lexer;
pub mod object;
pub mod parser;
pub mod text;
pub mod token;
