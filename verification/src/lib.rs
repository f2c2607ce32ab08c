//! A small statically typed scripting language: its tokens, lexer, parser,
//! type analysis, intermediate representation, bytecode and virtual machine.
pub mod ast;
pub mod builtin;
pub mod chars;
pub mod compiler;
pub mod env;
pub mod generator;
pub mod grammar;
pub mod lex;
pub mod text;
pub mod token;
pub mod value;
pub mod heap;
pub mod bytecode;
pub mod ir;
pub mod ty;
pub mod package;
pub mod parser;
pub mod scope;
pub mod semantic;
pub mod syntax;
pub mod tables;
pub mod type_ast;
pub mod vm;
