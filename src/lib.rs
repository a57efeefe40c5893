//! A small line-oriented scripting language: lexer, parser, scope chain and a
//! tree-walking interpreter, each with a verified contract.

pub mod ast;
pub mod text;
pub mod error;
pub mod lexer;
pub mod parser;
pub mod scope;
pub mod interpreter;
pub mod theorems;
