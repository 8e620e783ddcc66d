//! A compiler and stack-based virtual machine for a Clipper-style procedural
//! language, together with its lexer, parser and source formatter.

pub mod ast;
pub mod bytecode;
pub mod compiler;
pub mod diagnostics;
pub mod document;
pub mod formatter;
pub mod lexer;
pub mod number;
pub mod parser;
pub mod text;
pub mod token;
pub mod vm;

pub use ast::Program;
pub use bytecode::{Chunk, Value};
pub use compiler::Compiler;
pub use lexer::Lexer;
pub use parser::Parser;
pub use vm::VM;
