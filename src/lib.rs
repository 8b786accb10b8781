pub mod chars;
pub mod lexer;
pub mod text;
pub mod token;
pub mod ast;
pub mod grammar;
pub mod parser;
pub mod environment;
pub mod imports;
pub mod error;
