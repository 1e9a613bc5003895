//! x86-64 code generation.
pub mod data;
pub mod passes;
pub mod emit;

pub use passes::{is_transformable, transform};
pub use data::{
    AsmSymbol, AsmSymbols, AssemblyType, BinaryOperator, CondCode, FunctionDefinition, Instruction,
    Operand, Program, Register, StaticVariable, TopLevel, UnaryOperator, set_asm_symbol_table,
};
