//! The compiler and execution core of a minimal functional scripting
//! language: a lexer, a single-pass bytecode compiler with column-delimited
//! blocks, and a stack-based virtual machine that runs the compiled program
//! on explicit value and frame stacks.

pub mod compiler;
pub mod native;
pub mod token;
pub mod tokenizer;
pub mod value;
pub mod vm;
