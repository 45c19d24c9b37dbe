pub mod cursor;
pub mod error;
pub mod lexer;
pub mod parser;
pub mod interpreter;
