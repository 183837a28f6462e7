//! An RV32I assembler and simulator core.
//!
//! Source text is lexed into tokens, parsed into statements, resolved
//! against a symbol table, and encoded into bit-exact RV32I machine words;
//! a simulated processor then fetches, decodes and executes those words
//! over a segmented memory.

pub mod assembler;
pub mod config;
pub mod lexer;
pub mod parser;
pub mod processor;
pub mod symbols;
pub mod text;
