//! The parser: builds the syntax tree from the tokens.
pub mod ast;
pub mod operators;

pub use ast::{
    Block, BlockItem, Constant, ConstantType, Declaration, ExprKind, Expression, ForInit,
    FunctionDeclaration, FunctionParameter, Identifier, Program, Specifier, Statement, StmtKind,
    StorageClass, Switch, SwitchCase, VariableDeclaration, constant_type, constant_value, spec_cast,
};
pub use operators::{BinaryOperator, IncDec, UnaryOperator, CONDITIONAL_PRECEDENCE};
pub mod parser;
pub mod eval;
pub mod lowering;
pub mod display;
pub mod grammar;

pub use parser::Parser;
