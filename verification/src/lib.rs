//! Minescript: a small language that compiles to Minecraft datapack functions.
//! The library holds the lexer, parser, interpreter and compiler; file I/O lives in the binary.

pub mod text;
pub mod strmap;
pub mod dup;
pub mod versioning;
pub mod decimal;
pub mod syntax;
pub mod nbt;
pub mod convert;
pub mod token;
pub mod lexer;
pub mod parser;
pub mod command;
pub mod repr;
pub mod digest;
pub mod interpreter;
pub mod compiler;
pub mod laws;
