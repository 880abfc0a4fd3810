//! A small scripting language: a tokenizer, a single-pass compiler that emits
//! binary bytecode, and a stack-based virtual machine that runs it.

pub mod value;
pub mod opcodes;
pub mod chunk;
pub mod vm;
pub mod token;
pub mod lexer;
pub mod parser;
pub mod pipeline;
