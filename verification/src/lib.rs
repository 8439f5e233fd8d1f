//! A small scripting language compiled to bytecode and run on a stack machine.
//!
//! Source text is scanned into tokens by the [`lexer`], compiled in a single
//! pass by the [`compiler`] into a [`chunk::Chunk`] of instructions and
//! constants, and executed by the [`vm::VirtualMachine`]. The [`driver`]
//! does the three in one call. What compiling means is said in [`grammar`],
//! what running means in [`vm`]; [`progress`], [`discipline`] and [`laws`]
//! hold what is proved of the two. The [`parser`] builds the syntax tree of
//! [`ast`] from the same tokens.
//!
//! Numbers are IEEE-754 binary64 values, which the library carries as their
//! 64-bit patterns. It negates and compares them itself, see [`number`]. Two
//! things it asks of its host: to read the numerals of the source, and to
//! compute sums, differences, products and quotients.

pub mod number;
pub mod value;
pub mod chunk;
pub mod globals;
pub mod token;
pub mod lexer;
pub mod diagnostic;
pub mod grammar;
pub mod compiler;
pub mod vm;
pub mod driver;
pub mod progress;
pub mod discipline;
pub mod laws;
pub mod ast;
pub mod parser;
