//! Dust, a shell-like scripting language: lexing, editor analyses, symbol
//! tables, code generation, a byte encoding, and the jobs that run commands.
pub mod error;
pub mod lex;
pub mod lexer;
pub mod analysis;
pub mod lexpop;
pub mod symbol_info;
pub mod text;
pub mod symbol_table;
pub mod compiler;
pub mod ast;
pub mod buf;
pub mod sd2;
pub mod compile;
pub mod display;
pub mod job;
pub mod sd;
