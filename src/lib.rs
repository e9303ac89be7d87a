//! A small ahead-of-time compiler for a statically typed, Rust-like language:
//! lexer, recursive-descent parser, scoped type checker and an x86-64 (NASM)
//! code generator, each specified by spec functions and verified with Verus.

pub mod error;
pub mod span;
pub mod text;
pub mod token;
pub mod lexer;
pub mod ast;
pub mod parser;
pub mod types;
pub mod type_checker;
pub mod assembly;
pub mod codegen;
pub mod error_handler;
