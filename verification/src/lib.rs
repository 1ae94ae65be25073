//! A single-pass compiler and stack-based bytecode virtual machine for a
//! small dynamically-typed expression language.
//!
//! Source text is scanned into tokens, compiled by a Pratt parser directly
//! into bytecode (no AST), and executed by a stack machine over tagged
//! values. Numbers are IEEE-754 doubles, carried everywhere as their 64-bit
//! bit patterns.

pub mod chunk;
pub mod compiler;
pub mod scanner;
pub mod value;
pub mod vm;

pub use chunk::Chunk;
pub use chunk::OpCode;
pub use compiler::Compiler;
pub use scanner::Scanner;
pub use scanner::Token;
pub use scanner::TokenType;
pub use value::Value;
pub use value::ValueArray;
pub use vm::InterpretError;
pub use vm::InterpretResult;
pub use vm::VM;
