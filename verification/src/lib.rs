//! A small dynamically typed, class-based scripting language: a lexer, a
//! recursive-descent parser, a static resolver, a tree-walking evaluator and
//! a bytecode compiler with its stack machine.
//!
//! Numbers are IEEE-754 doubles. The library carries them as their bit
//! patterns and asks a [`host::Host`] for every operation on them.
pub mod text;
pub mod token;
pub mod scanner;
pub mod host;
pub mod error;
pub mod object;
pub mod function;
pub mod syntax;
pub mod course;
pub mod parser;
pub mod env;
pub mod class;
pub mod interpreter;
pub mod resolver;
pub mod value;
pub mod chunk;
pub mod compiler;
pub mod debug;
pub mod vm;
pub mod lox;
