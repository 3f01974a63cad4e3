//! A bytecode compiler and virtual machine for the Lox language.
//!
//! The library holds the verified parts: the scanner, the Pratt-parser
//! compiler that turns an expression into bytecode (`compiler`, with its
//! model in `parse_model`), the chunk and constant pool, and the stack
//! machine's instruction semantics (`vm`). `compile_laws` proves that
//! compiled code runs on the machine; `grammar` proves that the parser
//! follows the expression grammar level by level.
pub mod token;
pub mod scanner;
pub mod object;
pub mod value;
pub mod chunk;
pub mod compiler;
pub mod parse_model;
pub mod compile_laws;
pub mod grammar;
pub mod vm;
