//! The fuga language: lexer, parser, static analyzer, generation of C and
//! interpreter, each with its contract proved by Verus, and the laws of the
//! language in `laws`.
pub mod ast;
pub mod compiler;
pub mod interpreter;
pub mod laws;
pub mod lexer;
pub mod names;
pub mod parser;
pub mod text;
