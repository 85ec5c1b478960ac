pub mod text;
pub mod ast;
pub mod lexer;
pub mod parser;
pub mod types;
pub mod codegen;
