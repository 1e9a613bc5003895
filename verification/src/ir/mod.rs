//! The intermediate representation and its lowering to assembly.
pub mod data;
pub mod lowering;
pub mod display;

pub use data::{
    BinaryOperator, FunctionDefinition, Instruction, Program, StaticVariable, TopLevel, UnaryOperator,
    Value,
};

use vstd::prelude::*;

verus! {

pub open spec fn unary_text(op: UnaryOperator) -> Seq<char> {
    match op {
        UnaryOperator::BitwiseNot => "~"@,
        UnaryOperator::Negate => "-"@,
        UnaryOperator::Not => "!"@,
    }
}

/// What an IR unary operator computes on an integer: negation, bitwise
/// complement (`-x - 1`), and logical not (1 for zero, else 0).
pub open spec fn unary_value(op: UnaryOperator, x: int) -> int {
    match op {
        UnaryOperator::Negate => -x,
        UnaryOperator::BitwiseNot => -x - 1,
        UnaryOperator::Not => if x == 0 { 1 } else { 0 },
    }
}

/// What an IR operator computes on two integers: arithmetic with division
/// and remainder rounding toward zero, comparisons as 1 (true) or 0 (false).
/// The bitwise and shift operators are left unspecified here.
pub open spec fn binary_value(op: BinaryOperator, x: int, y: int) -> int {
    match op {
        BinaryOperator::Add => x + y,
        BinaryOperator::Subtract => x - y,
        BinaryOperator::Multiply => x * y,
        BinaryOperator::Divide => crate::parser::eval::trunc_div(x, y),
        BinaryOperator::Remainder => crate::parser::eval::trunc_rem(x, y),
        BinaryOperator::Equal => if x == y { 1 } else { 0 },
        BinaryOperator::NotEqual => if x != y { 1 } else { 0 },
        BinaryOperator::LessThan => if x < y { 1 } else { 0 },
        BinaryOperator::LessEqual => if x <= y { 1 } else { 0 },
        BinaryOperator::GreaterThan => if x > y { 1 } else { 0 },
        BinaryOperator::GreaterEqual => if x >= y { 1 } else { 0 },
        _ => arbitrary(),
    }
}

pub open spec fn binary_text(op: BinaryOperator) -> Seq<char> {
    match op {
        BinaryOperator::Add => "+"@,
        BinaryOperator::Subtract => "-"@,
        BinaryOperator::Multiply => "*"@,
        BinaryOperator::Divide => "/"@,
        BinaryOperator::Remainder => "%"@,
        BinaryOperator::LeftShift => "<<"@,
        BinaryOperator::RightShift => ">>"@,
        BinaryOperator::BitwiseAnd => "&"@,
        BinaryOperator::BitwiseXor => "^"@,
        BinaryOperator::BitwiseOr => "|"@,
        BinaryOperator::Equal => "=="@,
        BinaryOperator::NotEqual => "!="@,
        BinaryOperator::LessThan => "<"@,
        BinaryOperator::LessEqual => "<="@,
        BinaryOperator::GreaterThan => ">"@,
        BinaryOperator::GreaterEqual => ">="@,
    }
}

impl UnaryOperator {
    pub fn to_str(self) -> (s: &'static str)
        ensures
            s@ == unary_text(self),
    {
        match self {
            Self::BitwiseNot => "~",
            Self::Negate => "-",
            Self::Not => "!",
        }
    }
}

impl BinaryOperator {
    pub fn to_str(self) -> (s: &'static str)
        ensures
            s@ == binary_text(self),
    {
        match self {
            Self::Add => "+",
            Self::Subtract => "-",
            Self::Multiply => "*",
            Self::Divide => "/",
            Self::Remainder => "%",
            Self::LeftShift => "<<",
            Self::RightShift => ">>",
            Self::BitwiseAnd => "&",
            Self::BitwiseXor => "^",
            Self::BitwiseOr => "|",
            Self::Equal => "==",
            Self::NotEqual => "!=",
            Self::LessThan => "<",
            Self::LessEqual => "<=",
            Self::GreaterThan => ">",
            Self::GreaterEqual => ">=",
        }
    }
}

} // verus!
