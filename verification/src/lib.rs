//! A small compiler for a subset of C: lexing, parsing, semantic analysis,
//! lowering to a three-address IR and x86-64 code generation.
#![allow(unused_imports)]
#![allow(dead_code)]

pub mod utils;
pub mod text;
pub mod diagnostics;
pub mod lexer;
pub mod parser;
pub mod analysis;
pub mod ir;
pub mod codegen;
pub mod table;
