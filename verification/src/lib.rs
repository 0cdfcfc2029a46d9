pub mod assembler;
pub mod atom;
pub mod parser;
pub mod show;
pub mod text;
pub mod bytecode;
pub mod compiler;
pub mod env;
pub mod image;
pub mod interpreter;
pub mod lexer;
