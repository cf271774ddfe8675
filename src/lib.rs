pub mod assembler;
pub mod ast;
pub mod codegen;
pub mod input;
pub mod common;
pub mod compiler;
pub mod disassembler;
pub mod laws;
pub mod lexer;
pub mod ops;
pub mod parser;
pub mod reg;
pub mod vm;

pub use ast::Expression;
pub use codegen::{generate, CompileError};
pub use common::{Instruction, Module};
pub use compiler::compile;
pub use disassembler::disassemble;
pub use input::parse_integer;
pub use parser::parse_expressions;
pub use vm::{run, run_bounded, Fault, Stop, Thread};
