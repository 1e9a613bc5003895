//! Operators of the source language.
use vstd::prelude::*;
use crate::ir;
use crate::lexer::Token;
use crate::parser::{Constant, ConstantType};

verus! {

/// The precedence of the conditional operator `?:`.
pub const CONDITIONAL_PRECEDENCE: u32 = 10;

#[derive(Debug, Clone, Copy, PartialEq, Eq, Structural)]
pub enum IncDec {
    Increment,
    Decrement,
}

impl IncDec {
    pub fn symbol(self) -> (s: &'static str)
        ensures
            s@ == (if self == IncDec::Increment { "++"@ } else { "--"@ }),
    {
        match self {
            Self::Increment => "++",
            Self::Decrement => "--",
        }
    }

    /// The step added by the operator, as a constant of kind `ty`.
    pub fn n(self, ty: ConstantType) -> (c: Constant)
        ensures
            c == spec_inc_dec_step(self, ty),
    {
        match (self, ty) {
            (Self::Increment, ConstantType::Int) => Constant::Int(1),
            (Self::Increment, ConstantType::Long) => Constant::Long(1),
            (Self::Decrement, ConstantType::Int) => Constant::Int(-1),
            (Self::Decrement, ConstantType::Long) => Constant::Long(-1),
        }
    }
}

pub open spec fn spec_inc_dec_step(op: IncDec, ty: ConstantType) -> Constant {
    match (op, ty) {
        (IncDec::Increment, ConstantType::Int) => Constant::Int(1),
        (IncDec::Increment, ConstantType::Long) => Constant::Long(1),
        (IncDec::Decrement, ConstantType::Int) => Constant::Int(-1i32),
        (IncDec::Decrement, ConstantType::Long) => Constant::Long(-1i64),
    }
}

#[derive(Debug, Clone, Copy, PartialEq, Eq, Structural)]
pub enum BinaryOperator {
    Add,
    Subtract,
    Multiply,
    Divide,
    Remainder,
    LeftShift,
    RightShift,
    BitwiseAnd,
    BitwiseXor,
    BitwiseOr,
    And,
    Or,
    Equal,
    NotEqual,
    LessThan,
    LessEqual,
    GreaterThan,
    GreaterEqual,
    Assign,
    AddAssign,
    SubtractAssign,
    MultiplyAssign,
    DivideAssign,
    RemainderAssign,
    BitwiseAndAssign,
    BitwiseXorAssign,
    BitwiseOrAssign,
    LeftShiftAssign,
    RightShiftAssign,
}

#[derive(Debug, Clone, Copy, PartialEq, Eq, Structural)]
pub enum UnaryOperator {
    BitwiseNot,
    Negate,
    Not,
}

pub open spec fn spec_unary_lower(op: UnaryOperator) -> ir::UnaryOperator {
    match op {
        UnaryOperator::BitwiseNot => ir::UnaryOperator::BitwiseNot,
        UnaryOperator::Negate => ir::UnaryOperator::Negate,
        UnaryOperator::Not => ir::UnaryOperator::Not,
    }
}

pub open spec fn unary_symbol(op: UnaryOperator) -> Seq<char> {
    match op {
        UnaryOperator::BitwiseNot => "~"@,
        UnaryOperator::Negate => "-"@,
        UnaryOperator::Not => "!"@,
    }
}

impl UnaryOperator {
    pub fn lower(self) -> (r: ir::UnaryOperator)
        ensures
            r == spec_unary_lower(self),
    {
        match self {
            Self::BitwiseNot => ir::UnaryOperator::BitwiseNot,
            Self::Negate => ir::UnaryOperator::Negate,
            Self::Not => ir::UnaryOperator::Not,
        }
    }

    pub fn symbol(self) -> (s: &'static str)
        ensures
            s@ == unary_symbol(self),
    {
        match self {
            Self::BitwiseNot => "~",
            Self::Negate => "-",
            Self::Not => "!",
        }
    }
}

/// Binding strength: higher binds tighter.
pub open spec fn spec_precedence(op: BinaryOperator) -> u32 {
    match op {
        BinaryOperator::Add => 45u32,
        BinaryOperator::Subtract => 45u32,
        BinaryOperator::Multiply => 50u32,
        BinaryOperator::Divide => 50u32,
        BinaryOperator::Remainder => 50u32,
        BinaryOperator::LeftShift => 40u32,
        BinaryOperator::RightShift => 40u32,
        BinaryOperator::BitwiseAnd => 35u32,
        BinaryOperator::BitwiseXor => 30u32,
        BinaryOperator::BitwiseOr => 25u32,
        BinaryOperator::And => 20u32,
        BinaryOperator::Or => 15u32,
        BinaryOperator::Equal => 38u32,
        BinaryOperator::NotEqual => 38u32,
        BinaryOperator::LessThan => 39u32,
        BinaryOperator::LessEqual => 39u32,
        BinaryOperator::GreaterThan => 39u32,
        BinaryOperator::GreaterEqual => 39u32,
        BinaryOperator::Assign => 5u32,
        BinaryOperator::AddAssign => 5u32,
        BinaryOperator::SubtractAssign => 5u32,
        BinaryOperator::MultiplyAssign => 5u32,
        BinaryOperator::DivideAssign => 5u32,
        BinaryOperator::RemainderAssign => 5u32,
        BinaryOperator::BitwiseAndAssign => 5u32,
        BinaryOperator::BitwiseXorAssign => 5u32,
        BinaryOperator::BitwiseOrAssign => 5u32,
        BinaryOperator::LeftShiftAssign => 5u32,
        BinaryOperator::RightShiftAssign => 5u32,
    }
}

/// The operators that become one IR instruction.
pub open spec fn spec_can_be_lowered(op: BinaryOperator) -> bool {
    match op {
        BinaryOperator::Add => true,
        BinaryOperator::Subtract => true,
        BinaryOperator::Multiply => true,
        BinaryOperator::Divide => true,
        BinaryOperator::Remainder => true,
        BinaryOperator::LeftShift => true,
        BinaryOperator::RightShift => true,
        BinaryOperator::BitwiseAnd => true,
        BinaryOperator::BitwiseXor => true,
        BinaryOperator::BitwiseOr => true,
        BinaryOperator::And => false,
        BinaryOperator::Or => false,
        BinaryOperator::Equal => true,
        BinaryOperator::NotEqual => true,
        BinaryOperator::LessThan => true,
        BinaryOperator::LessEqual => true,
        BinaryOperator::GreaterThan => true,
        BinaryOperator::GreaterEqual => true,
        BinaryOperator::Assign => false,
        BinaryOperator::AddAssign => false,
        BinaryOperator::SubtractAssign => false,
        BinaryOperator::MultiplyAssign => false,
        BinaryOperator::DivideAssign => false,
        BinaryOperator::RemainderAssign => false,
        BinaryOperator::BitwiseAndAssign => false,
        BinaryOperator::BitwiseXorAssign => false,
        BinaryOperator::BitwiseOrAssign => false,
        BinaryOperator::LeftShiftAssign => false,
        BinaryOperator::RightShiftAssign => false,
    }
}

/// The operator that a compound assignment applies.
pub open spec fn spec_compound_assign(op: BinaryOperator) -> Option<BinaryOperator> {
    match op {
        BinaryOperator::Add => None,
        BinaryOperator::Subtract => None,
        BinaryOperator::Multiply => None,
        BinaryOperator::Divide => None,
        BinaryOperator::Remainder => None,
        BinaryOperator::LeftShift => None,
        BinaryOperator::RightShift => None,
        BinaryOperator::BitwiseAnd => None,
        BinaryOperator::BitwiseXor => None,
        BinaryOperator::BitwiseOr => None,
        BinaryOperator::And => None,
        BinaryOperator::Or => None,
        BinaryOperator::Equal => None,
        BinaryOperator::NotEqual => None,
        BinaryOperator::LessThan => None,
        BinaryOperator::LessEqual => None,
        BinaryOperator::GreaterThan => None,
        BinaryOperator::GreaterEqual => None,
        BinaryOperator::Assign => None,
        BinaryOperator::AddAssign => Some(BinaryOperator::Add),
        BinaryOperator::SubtractAssign => Some(BinaryOperator::Subtract),
        BinaryOperator::MultiplyAssign => Some(BinaryOperator::Multiply),
        BinaryOperator::DivideAssign => Some(BinaryOperator::Divide),
        BinaryOperator::RemainderAssign => Some(BinaryOperator::Remainder),
        BinaryOperator::BitwiseAndAssign => Some(BinaryOperator::BitwiseAnd),
        BinaryOperator::BitwiseXorAssign => Some(BinaryOperator::BitwiseXor),
        BinaryOperator::BitwiseOrAssign => Some(BinaryOperator::BitwiseOr),
        BinaryOperator::LeftShiftAssign => Some(BinaryOperator::LeftShift),
        BinaryOperator::RightShiftAssign => Some(BinaryOperator::RightShift),
    }
}

pub open spec fn spec_is_compound_assign(op: BinaryOperator) -> bool {
    match op {
        BinaryOperator::Add => false,
        BinaryOperator::Subtract => false,
        BinaryOperator::Multiply => false,
        BinaryOperator::Divide => false,
        BinaryOperator::Remainder => false,
        BinaryOperator::LeftShift => false,
        BinaryOperator::RightShift => false,
        BinaryOperator::BitwiseAnd => false,
        BinaryOperator::BitwiseXor => false,
        BinaryOperator::BitwiseOr => false,
        BinaryOperator::And => false,
        BinaryOperator::Or => false,
        BinaryOperator::Equal => false,
        BinaryOperator::NotEqual => false,
        BinaryOperator::LessThan => false,
        BinaryOperator::LessEqual => false,
        BinaryOperator::GreaterThan => false,
        BinaryOperator::GreaterEqual => false,
        BinaryOperator::Assign => false,
        BinaryOperator::AddAssign => true,
        BinaryOperator::SubtractAssign => true,
        BinaryOperator::MultiplyAssign => true,
        BinaryOperator::DivideAssign => true,
        BinaryOperator::RemainderAssign => true,
        BinaryOperator::BitwiseAndAssign => true,
        BinaryOperator::BitwiseXorAssign => true,
        BinaryOperator::BitwiseOrAssign => true,
        BinaryOperator::LeftShiftAssign => true,
        BinaryOperator::RightShiftAssign => true,
    }
}

/// The name used in the names of temporaries.
pub open spec fn binary_name(op: BinaryOperator) -> Seq<char> {
    match op {
        BinaryOperator::Add => "add"@,
        BinaryOperator::Subtract => "sub"@,
        BinaryOperator::Multiply => "mul"@,
        BinaryOperator::Divide => "div"@,
        BinaryOperator::Remainder => "rem"@,
        BinaryOperator::LeftShift => "shl"@,
        BinaryOperator::RightShift => "shr"@,
        BinaryOperator::BitwiseAnd => "and"@,
        BinaryOperator::BitwiseXor => "xor"@,
        BinaryOperator::BitwiseOr => "or"@,
        BinaryOperator::And => "and"@,
        BinaryOperator::Or => "or"@,
        BinaryOperator::Equal => "eq"@,
        BinaryOperator::NotEqual => "ne"@,
        BinaryOperator::LessThan => "lt"@,
        BinaryOperator::LessEqual => "le"@,
        BinaryOperator::GreaterThan => "gt"@,
        BinaryOperator::GreaterEqual => "ge"@,
        BinaryOperator::Assign => "assign"@,
        BinaryOperator::AddAssign => "add_assign"@,
        BinaryOperator::SubtractAssign => "sub_assign"@,
        BinaryOperator::MultiplyAssign => "mul_assign"@,
        BinaryOperator::DivideAssign => "div_assign"@,
        BinaryOperator::RemainderAssign => "rem_assign"@,
        BinaryOperator::BitwiseAndAssign => "and_assign"@,
        BinaryOperator::BitwiseXorAssign => "xor_assign"@,
        BinaryOperator::BitwiseOrAssign => "or_assign"@,
        BinaryOperator::LeftShiftAssign => "shl_assign"@,
        BinaryOperator::RightShiftAssign => "shr_assign"@,
    }
}

/// How the operator is written in C.
pub open spec fn binary_symbol(op: BinaryOperator) -> Seq<char> {
    match op {
        BinaryOperator::Add => "+"@,
        BinaryOperator::Subtract => "-"@,
        BinaryOperator::Multiply => "*"@,
        BinaryOperator::Divide => "/"@,
        BinaryOperator::Remainder => "%"@,
        BinaryOperator::LeftShift => "<<"@,
        BinaryOperator::RightShift => ">>"@,
        BinaryOperator::BitwiseAnd => "&"@,
        BinaryOperator::BitwiseXor => "^"@,
        BinaryOperator::BitwiseOr => "|"@,
        BinaryOperator::And => "&&"@,
        BinaryOperator::Or => "||"@,
        BinaryOperator::Equal => "=="@,
        BinaryOperator::NotEqual => "!="@,
        BinaryOperator::LessThan => "<"@,
        BinaryOperator::LessEqual => "<="@,
        BinaryOperator::GreaterThan => ">"@,
        BinaryOperator::GreaterEqual => ">="@,
        BinaryOperator::Assign => "="@,
        BinaryOperator::AddAssign => "+="@,
        BinaryOperator::SubtractAssign => "-="@,
        BinaryOperator::MultiplyAssign => "*="@,
        BinaryOperator::DivideAssign => "/="@,
        BinaryOperator::RemainderAssign => "%="@,
        BinaryOperator::BitwiseAndAssign => "&="@,
        BinaryOperator::BitwiseXorAssign => "^="@,
        BinaryOperator::BitwiseOrAssign => "|="@,
        BinaryOperator::LeftShiftAssign => "<<="@,
        BinaryOperator::RightShiftAssign => ">>="@,
    }
}

/// The IR operator of an operator that becomes one IR instruction.
pub open spec fn spec_binary_lower(op: BinaryOperator) -> ir::BinaryOperator
    recommends
        spec_can_be_lowered(op),
{
    match op {
        BinaryOperator::Add => ir::BinaryOperator::Add,
        BinaryOperator::Subtract => ir::BinaryOperator::Subtract,
        BinaryOperator::Multiply => ir::BinaryOperator::Multiply,
        BinaryOperator::Divide => ir::BinaryOperator::Divide,
        BinaryOperator::Remainder => ir::BinaryOperator::Remainder,
        BinaryOperator::LeftShift => ir::BinaryOperator::LeftShift,
        BinaryOperator::RightShift => ir::BinaryOperator::RightShift,
        BinaryOperator::BitwiseAnd => ir::BinaryOperator::BitwiseAnd,
        BinaryOperator::BitwiseXor => ir::BinaryOperator::BitwiseXor,
        BinaryOperator::BitwiseOr => ir::BinaryOperator::BitwiseOr,
        BinaryOperator::And => ir::BinaryOperator::Add,
        BinaryOperator::Or => ir::BinaryOperator::Add,
        BinaryOperator::Equal => ir::BinaryOperator::Equal,
        BinaryOperator::NotEqual => ir::BinaryOperator::NotEqual,
        BinaryOperator::LessThan => ir::BinaryOperator::LessThan,
        BinaryOperator::LessEqual => ir::BinaryOperator::LessEqual,
        BinaryOperator::GreaterThan => ir::BinaryOperator::GreaterThan,
        BinaryOperator::GreaterEqual => ir::BinaryOperator::GreaterEqual,
        BinaryOperator::Assign => ir::BinaryOperator::Add,
        BinaryOperator::AddAssign => ir::BinaryOperator::Add,
        BinaryOperator::SubtractAssign => ir::BinaryOperator::Add,
        BinaryOperator::MultiplyAssign => ir::BinaryOperator::Add,
        BinaryOperator::DivideAssign => ir::BinaryOperator::Add,
        BinaryOperator::RemainderAssign => ir::BinaryOperator::Add,
        BinaryOperator::BitwiseAndAssign => ir::BinaryOperator::Add,
        BinaryOperator::BitwiseXorAssign => ir::BinaryOperator::Add,
        BinaryOperator::BitwiseOrAssign => ir::BinaryOperator::Add,
        BinaryOperator::LeftShiftAssign => ir::BinaryOperator::Add,
        BinaryOperator::RightShiftAssign => ir::BinaryOperator::Add,
    }
}

/// The operator that a token stands for.
pub open spec fn spec_from_token(t: Token) -> Option<BinaryOperator> {
    match t {
        Token::Plus => Some(BinaryOperator::Add),
        Token::Hyphen => Some(BinaryOperator::Subtract),
        Token::Asterisk => Some(BinaryOperator::Multiply),
        Token::Slash => Some(BinaryOperator::Divide),
        Token::Percent => Some(BinaryOperator::Remainder),
        Token::LeftShift => Some(BinaryOperator::LeftShift),
        Token::RightShift => Some(BinaryOperator::RightShift),
        Token::Ampersand => Some(BinaryOperator::BitwiseAnd),
        Token::Caret => Some(BinaryOperator::BitwiseXor),
        Token::Pipe => Some(BinaryOperator::BitwiseOr),
        Token::LogicalAnd => Some(BinaryOperator::And),
        Token::LogicalOr => Some(BinaryOperator::Or),
        Token::Equal => Some(BinaryOperator::Equal),
        Token::NotEqual => Some(BinaryOperator::NotEqual),
        Token::LessThan => Some(BinaryOperator::LessThan),
        Token::LessEqual => Some(BinaryOperator::LessEqual),
        Token::GreaterThan => Some(BinaryOperator::GreaterThan),
        Token::GreaterEqual => Some(BinaryOperator::GreaterEqual),
        Token::Assign => Some(BinaryOperator::Assign),
        Token::AddAssign => Some(BinaryOperator::AddAssign),
        Token::SubtractAssign => Some(BinaryOperator::SubtractAssign),
        Token::MultiplyAssign => Some(BinaryOperator::MultiplyAssign),
        Token::DivideAssign => Some(BinaryOperator::DivideAssign),
        Token::RemainderAssign => Some(BinaryOperator::RemainderAssign),
        Token::BitwiseAndAssign => Some(BinaryOperator::BitwiseAndAssign),
        Token::BitwiseXorAssign => Some(BinaryOperator::BitwiseXorAssign),
        Token::BitwiseOrAssign => Some(BinaryOperator::BitwiseOrAssign),
        Token::LeftShiftAssign => Some(BinaryOperator::LeftShiftAssign),
        Token::RightShiftAssign => Some(BinaryOperator::RightShiftAssign),
        _ => None,
    }
}

impl BinaryOperator {
    pub fn is_assign(self) -> (r: bool)
        ensures
            r == (self == BinaryOperator::Assign),
    {
        self == BinaryOperator::Assign
    }

    pub fn is_logical(self) -> (r: bool)
        ensures
            r == (self == BinaryOperator::And || self == BinaryOperator::Or),
    {
        self == BinaryOperator::And || self == BinaryOperator::Or
    }

    pub fn is_shift(self) -> (r: bool)
        ensures
            r == (self == BinaryOperator::LeftShift || self == BinaryOperator::RightShift),
    {
        self == BinaryOperator::LeftShift || self == BinaryOperator::RightShift
    }

    pub fn is_arithmetic(self) -> (r: bool)
        ensures
            r == (self == BinaryOperator::Add || self == BinaryOperator::Subtract
                || self == BinaryOperator::Multiply || self == BinaryOperator::Divide
                || self == BinaryOperator::Remainder),
    {
        self == BinaryOperator::Add || self == BinaryOperator::Subtract
            || self == BinaryOperator::Multiply || self == BinaryOperator::Divide
            || self == BinaryOperator::Remainder
    }

    pub fn is_comparison(self) -> (r: bool)
        ensures
            r == (self == BinaryOperator::Equal || self == BinaryOperator::NotEqual
                || self == BinaryOperator::LessThan || self == BinaryOperator::LessEqual
                || self == BinaryOperator::GreaterThan || self == BinaryOperator::GreaterEqual),
    {
        self == BinaryOperator::Equal || self == BinaryOperator::NotEqual
            || self == BinaryOperator::LessThan || self == BinaryOperator::LessEqual
            || self == BinaryOperator::GreaterThan || self == BinaryOperator::GreaterEqual
    }

    pub fn precedence(self) -> (r: u32)
        ensures
            r == spec_precedence(self),
    {
        match self {
            BinaryOperator::Add => 45,
            BinaryOperator::Subtract => 45,
            BinaryOperator::Multiply => 50,
            BinaryOperator::Divide => 50,
            BinaryOperator::Remainder => 50,
            BinaryOperator::LeftShift => 40,
            BinaryOperator::RightShift => 40,
            BinaryOperator::BitwiseAnd => 35,
            BinaryOperator::BitwiseXor => 30,
            BinaryOperator::BitwiseOr => 25,
            BinaryOperator::And => 20,
            BinaryOperator::Or => 15,
            BinaryOperator::Equal => 38,
            BinaryOperator::NotEqual => 38,
            BinaryOperator::LessThan => 39,
            BinaryOperator::LessEqual => 39,
            BinaryOperator::GreaterThan => 39,
            BinaryOperator::GreaterEqual => 39,
            BinaryOperator::Assign => 5,
            BinaryOperator::AddAssign => 5,
            BinaryOperator::SubtractAssign => 5,
            BinaryOperator::MultiplyAssign => 5,
            BinaryOperator::DivideAssign => 5,
            BinaryOperator::RemainderAssign => 5,
            BinaryOperator::BitwiseAndAssign => 5,
            BinaryOperator::BitwiseXorAssign => 5,
            BinaryOperator::BitwiseOrAssign => 5,
            BinaryOperator::LeftShiftAssign => 5,
            BinaryOperator::RightShiftAssign => 5,
        }
    }

    pub fn can_be_lowered(self) -> (r: bool)
        ensures
            r == spec_can_be_lowered(self),
    {
        match self {
            BinaryOperator::Add => true,
            BinaryOperator::Subtract => true,
            BinaryOperator::Multiply => true,
            BinaryOperator::Divide => true,
            BinaryOperator::Remainder => true,
            BinaryOperator::LeftShift => true,
            BinaryOperator::RightShift => true,
            BinaryOperator::BitwiseAnd => true,
            BinaryOperator::BitwiseXor => true,
            BinaryOperator::BitwiseOr => true,
            BinaryOperator::And => false,
            BinaryOperator::Or => false,
            BinaryOperator::Equal => true,
            BinaryOperator::NotEqual => true,
            BinaryOperator::LessThan => true,
            BinaryOperator::LessEqual => true,
            BinaryOperator::GreaterThan => true,
            BinaryOperator::GreaterEqual => true,
            BinaryOperator::Assign => false,
            BinaryOperator::AddAssign => false,
            BinaryOperator::SubtractAssign => false,
            BinaryOperator::MultiplyAssign => false,
            BinaryOperator::DivideAssign => false,
            BinaryOperator::RemainderAssign => false,
            BinaryOperator::BitwiseAndAssign => false,
            BinaryOperator::BitwiseXorAssign => false,
            BinaryOperator::BitwiseOrAssign => false,
            BinaryOperator::LeftShiftAssign => false,
            BinaryOperator::RightShiftAssign => false,
        }
    }

    pub fn compound_assign(self) -> (r: Option<BinaryOperator>)
        ensures
            r == spec_compound_assign(self),
    {
        match self {
            BinaryOperator::Add => None,
            BinaryOperator::Subtract => None,
            BinaryOperator::Multiply => None,
            BinaryOperator::Divide => None,
            BinaryOperator::Remainder => None,
            BinaryOperator::LeftShift => None,
            BinaryOperator::RightShift => None,
            BinaryOperator::BitwiseAnd => None,
            BinaryOperator::BitwiseXor => None,
            BinaryOperator::BitwiseOr => None,
            BinaryOperator::And => None,
            BinaryOperator::Or => None,
            BinaryOperator::Equal => None,
            BinaryOperator::NotEqual => None,
            BinaryOperator::LessThan => None,
            BinaryOperator::LessEqual => None,
            BinaryOperator::GreaterThan => None,
            BinaryOperator::GreaterEqual => None,
            BinaryOperator::Assign => None,
            BinaryOperator::AddAssign => Some(Self::Add),
            BinaryOperator::SubtractAssign => Some(Self::Subtract),
            BinaryOperator::MultiplyAssign => Some(Self::Multiply),
            BinaryOperator::DivideAssign => Some(Self::Divide),
            BinaryOperator::RemainderAssign => Some(Self::Remainder),
            BinaryOperator::BitwiseAndAssign => Some(Self::BitwiseAnd),
            BinaryOperator::BitwiseXorAssign => Some(Self::BitwiseXor),
            BinaryOperator::BitwiseOrAssign => Some(Self::BitwiseOr),
            BinaryOperator::LeftShiftAssign => Some(Self::LeftShift),
            BinaryOperator::RightShiftAssign => Some(Self::RightShift),
        }
    }

    pub fn is_compound_assign(self) -> (r: bool)
        ensures
            r == spec_is_compound_assign(self),
    {
        match self {
            BinaryOperator::Add => false,
            BinaryOperator::Subtract => false,
            BinaryOperator::Multiply => false,
            BinaryOperator::Divide => false,
            BinaryOperator::Remainder => false,
            BinaryOperator::LeftShift => false,
            BinaryOperator::RightShift => false,
            BinaryOperator::BitwiseAnd => false,
            BinaryOperator::BitwiseXor => false,
            BinaryOperator::BitwiseOr => false,
            BinaryOperator::And => false,
            BinaryOperator::Or => false,
            BinaryOperator::Equal => false,
            BinaryOperator::NotEqual => false,
            BinaryOperator::LessThan => false,
            BinaryOperator::LessEqual => false,
            BinaryOperator::GreaterThan => false,
            BinaryOperator::GreaterEqual => false,
            BinaryOperator::Assign => false,
            BinaryOperator::AddAssign => true,
            BinaryOperator::SubtractAssign => true,
            BinaryOperator::MultiplyAssign => true,
            BinaryOperator::DivideAssign => true,
            BinaryOperator::RemainderAssign => true,
            BinaryOperator::BitwiseAndAssign => true,
            BinaryOperator::BitwiseXorAssign => true,
            BinaryOperator::BitwiseOrAssign => true,
            BinaryOperator::LeftShiftAssign => true,
            BinaryOperator::RightShiftAssign => true,
        }
    }

    pub fn name(self) -> (s: &'static str)
        ensures
            s@ == binary_name(self),
    {
        match self {
            BinaryOperator::Add => "add",
            BinaryOperator::Subtract => "sub",
            BinaryOperator::Multiply => "mul",
            BinaryOperator::Divide => "div",
            BinaryOperator::Remainder => "rem",
            BinaryOperator::LeftShift => "shl",
            BinaryOperator::RightShift => "shr",
            BinaryOperator::BitwiseAnd => "and",
            BinaryOperator::BitwiseXor => "xor",
            BinaryOperator::BitwiseOr => "or",
            BinaryOperator::And => "and",
            BinaryOperator::Or => "or",
            BinaryOperator::Equal => "eq",
            BinaryOperator::NotEqual => "ne",
            BinaryOperator::LessThan => "lt",
            BinaryOperator::LessEqual => "le",
            BinaryOperator::GreaterThan => "gt",
            BinaryOperator::GreaterEqual => "ge",
            BinaryOperator::Assign => "assign",
            BinaryOperator::AddAssign => "add_assign",
            BinaryOperator::SubtractAssign => "sub_assign",
            BinaryOperator::MultiplyAssign => "mul_assign",
            BinaryOperator::DivideAssign => "div_assign",
            BinaryOperator::RemainderAssign => "rem_assign",
            BinaryOperator::BitwiseAndAssign => "and_assign",
            BinaryOperator::BitwiseXorAssign => "xor_assign",
            BinaryOperator::BitwiseOrAssign => "or_assign",
            BinaryOperator::LeftShiftAssign => "shl_assign",
            BinaryOperator::RightShiftAssign => "shr_assign",
        }
    }

    pub fn symbol(self) -> (s: &'static str)
        ensures
            s@ == binary_symbol(self),
    {
        match self {
            BinaryOperator::Add => "+",
            BinaryOperator::Subtract => "-",
            BinaryOperator::Multiply => "*",
            BinaryOperator::Divide => "/",
            BinaryOperator::Remainder => "%",
            BinaryOperator::LeftShift => "<<",
            BinaryOperator::RightShift => ">>",
            BinaryOperator::BitwiseAnd => "&",
            BinaryOperator::BitwiseXor => "^",
            BinaryOperator::BitwiseOr => "|",
            BinaryOperator::And => "&&",
            BinaryOperator::Or => "||",
            BinaryOperator::Equal => "==",
            BinaryOperator::NotEqual => "!=",
            BinaryOperator::LessThan => "<",
            BinaryOperator::LessEqual => "<=",
            BinaryOperator::GreaterThan => ">",
            BinaryOperator::GreaterEqual => ">=",
            BinaryOperator::Assign => "=",
            BinaryOperator::AddAssign => "+=",
            BinaryOperator::SubtractAssign => "-=",
            BinaryOperator::MultiplyAssign => "*=",
            BinaryOperator::DivideAssign => "/=",
            BinaryOperator::RemainderAssign => "%=",
            BinaryOperator::BitwiseAndAssign => "&=",
            BinaryOperator::BitwiseXorAssign => "^=",
            BinaryOperator::BitwiseOrAssign => "|=",
            BinaryOperator::LeftShiftAssign => "<<=",
            BinaryOperator::RightShiftAssign => ">>=",
        }
    }

    /// The IR operator; only the operators that become one IR instruction have one.
    pub fn lower(self) -> (r: ir::BinaryOperator)
        requires
            spec_can_be_lowered(self),
        ensures
            r == spec_binary_lower(self),
    {
        match self {
            BinaryOperator::Add => ir::BinaryOperator::Add,
            BinaryOperator::Subtract => ir::BinaryOperator::Subtract,
            BinaryOperator::Multiply => ir::BinaryOperator::Multiply,
            BinaryOperator::Divide => ir::BinaryOperator::Divide,
            BinaryOperator::Remainder => ir::BinaryOperator::Remainder,
            BinaryOperator::LeftShift => ir::BinaryOperator::LeftShift,
            BinaryOperator::RightShift => ir::BinaryOperator::RightShift,
            BinaryOperator::BitwiseAnd => ir::BinaryOperator::BitwiseAnd,
            BinaryOperator::BitwiseXor => ir::BinaryOperator::BitwiseXor,
            BinaryOperator::BitwiseOr => ir::BinaryOperator::BitwiseOr,
            BinaryOperator::And => ir::BinaryOperator::Add,
            BinaryOperator::Or => ir::BinaryOperator::Add,
            BinaryOperator::Equal => ir::BinaryOperator::Equal,
            BinaryOperator::NotEqual => ir::BinaryOperator::NotEqual,
            BinaryOperator::LessThan => ir::BinaryOperator::LessThan,
            BinaryOperator::LessEqual => ir::BinaryOperator::LessEqual,
            BinaryOperator::GreaterThan => ir::BinaryOperator::GreaterThan,
            BinaryOperator::GreaterEqual => ir::BinaryOperator::GreaterEqual,
            BinaryOperator::Assign => ir::BinaryOperator::Add,
            BinaryOperator::AddAssign => ir::BinaryOperator::Add,
            BinaryOperator::SubtractAssign => ir::BinaryOperator::Add,
            BinaryOperator::MultiplyAssign => ir::BinaryOperator::Add,
            BinaryOperator::DivideAssign => ir::BinaryOperator::Add,
            BinaryOperator::RemainderAssign => ir::BinaryOperator::Add,
            BinaryOperator::BitwiseAndAssign => ir::BinaryOperator::Add,
            BinaryOperator::BitwiseXorAssign => ir::BinaryOperator::Add,
            BinaryOperator::BitwiseOrAssign => ir::BinaryOperator::Add,
            BinaryOperator::LeftShiftAssign => ir::BinaryOperator::Add,
            BinaryOperator::RightShiftAssign => ir::BinaryOperator::Add,
        }
    }

    pub fn from_token(token: Token) -> (r: Option<BinaryOperator>)
        ensures
            r == spec_from_token(token),
    {
        match token {
            Token::Plus => Some(BinaryOperator::Add),
            Token::Hyphen => Some(BinaryOperator::Subtract),
            Token::Asterisk => Some(BinaryOperator::Multiply),
            Token::Slash => Some(BinaryOperator::Divide),
            Token::Percent => Some(BinaryOperator::Remainder),
            Token::LeftShift => Some(BinaryOperator::LeftShift),
            Token::RightShift => Some(BinaryOperator::RightShift),
            Token::Ampersand => Some(BinaryOperator::BitwiseAnd),
            Token::Caret => Some(BinaryOperator::BitwiseXor),
            Token::Pipe => Some(BinaryOperator::BitwiseOr),
            Token::LogicalAnd => Some(BinaryOperator::And),
            Token::LogicalOr => Some(BinaryOperator::Or),
            Token::Equal => Some(BinaryOperator::Equal),
            Token::NotEqual => Some(BinaryOperator::NotEqual),
            Token::LessThan => Some(BinaryOperator::LessThan),
            Token::LessEqual => Some(BinaryOperator::LessEqual),
            Token::GreaterThan => Some(BinaryOperator::GreaterThan),
            Token::GreaterEqual => Some(BinaryOperator::GreaterEqual),
            Token::Assign => Some(BinaryOperator::Assign),
            Token::AddAssign => Some(BinaryOperator::AddAssign),
            Token::SubtractAssign => Some(BinaryOperator::SubtractAssign),
            Token::MultiplyAssign => Some(BinaryOperator::MultiplyAssign),
            Token::DivideAssign => Some(BinaryOperator::DivideAssign),
            Token::RemainderAssign => Some(BinaryOperator::RemainderAssign),
            Token::BitwiseAndAssign => Some(BinaryOperator::BitwiseAndAssign),
            Token::BitwiseXorAssign => Some(BinaryOperator::BitwiseXorAssign),
            Token::BitwiseOrAssign => Some(BinaryOperator::BitwiseOrAssign),
            Token::LeftShiftAssign => Some(BinaryOperator::LeftShiftAssign),
            Token::RightShiftAssign => Some(BinaryOperator::RightShiftAssign),
            _ => None,
        }
    }
}

/// An operator is a compound assignment exactly when it has an underlying
/// operator, and that operator becomes one IR instruction.
pub proof fn lemma_compound_assign(op: BinaryOperator)
    ensures
        spec_is_compound_assign(op) <==> spec_compound_assign(op) is Some,
        spec_compound_assign(op) matches Some(inner) ==> spec_can_be_lowered(inner) && !spec_is_compound_assign(inner),
        spec_is_compound_assign(op) ==> spec_precedence(op) == 5,
{
}

/// An operator read from a token is written as that token's text.
pub proof fn lemma_from_token_symbol(t: crate::lexer::Token)
    ensures
        spec_from_token(t) matches Some(op) ==> binary_symbol(op) == crate::lexer::token_text(t),
{
}

/// Assignment operators bind loosest and multiplicative ones tightest.
pub proof fn lemma_precedence_range(op: BinaryOperator)
    ensures
        5 <= spec_precedence(op) <= 50,
        spec_precedence(op) == 5 <==> (op == BinaryOperator::Assign || spec_is_compound_assign(op)),
        spec_precedence(op) < CONDITIONAL_PRECEDENCE <==> spec_precedence(op) == 5,
{
}

/// The rows of C's table of binary operators, tightest first:
/// multiplicative, additive, shift, relational, equality, `&`, `^`, `|`,
/// `&&`, `||`, and last the assignments.
pub open spec fn c_operator_row(op: BinaryOperator) -> int {
    if op == BinaryOperator::Multiply || op == BinaryOperator::Divide || op == BinaryOperator::Remainder {
        1
    } else if op == BinaryOperator::Add || op == BinaryOperator::Subtract {
        2
    } else if op == BinaryOperator::LeftShift || op == BinaryOperator::RightShift {
        3
    } else if op == BinaryOperator::LessThan || op == BinaryOperator::LessEqual || op == BinaryOperator::GreaterThan
        || op == BinaryOperator::GreaterEqual {
        4
    } else if op == BinaryOperator::Equal || op == BinaryOperator::NotEqual {
        5
    } else if op == BinaryOperator::BitwiseAnd {
        6
    } else if op == BinaryOperator::BitwiseXor {
        7
    } else if op == BinaryOperator::BitwiseOr {
        8
    } else if op == BinaryOperator::And {
        9
    } else if op == BinaryOperator::Or {
        10
    } else {
        11
    }
}

/// Precedence follows C's table: two operators bind equally tightly exactly
/// when they stand in the same row, and one binds more tightly exactly when
/// its row comes first. (So `a - b + c` groups as `(a - b) + c`.)
pub proof fn lemma_precedence_follows_c(a: BinaryOperator, b: BinaryOperator)
    ensures
        spec_precedence(a) == spec_precedence(b) <==> c_operator_row(a) == c_operator_row(b),
        spec_precedence(a) > spec_precedence(b) <==> c_operator_row(a) < c_operator_row(b),
{
}

/// A compound assignment applies the operator that its symbol spells
/// without the `=`: `-=` subtracts, `<<=` shifts left, and so on.
pub proof fn lemma_compound_assign_spelled(op: BinaryOperator)
    ensures
        spec_compound_assign(op) matches Some(inner) ==> binary_symbol(inner) + "="@ == binary_symbol(op),
{
    reveal_strlit("+");
    reveal_strlit("-");
    reveal_strlit("*");
    reveal_strlit("/");
    reveal_strlit("%");
    reveal_strlit("<<");
    reveal_strlit(">>");
    reveal_strlit("&");
    reveal_strlit("^");
    reveal_strlit("|");
    reveal_strlit("=");
    reveal_strlit("+=");
    reveal_strlit("-=");
    reveal_strlit("*=");
    reveal_strlit("/=");
    reveal_strlit("%=");
    reveal_strlit("<<=");
    reveal_strlit(">>=");
    reveal_strlit("&=");
    reveal_strlit("^=");
    reveal_strlit("|=");
    match op {
        BinaryOperator::AddAssign => assert("+"@ + "="@ =~= "+="@),
        BinaryOperator::SubtractAssign => assert("-"@ + "="@ =~= "-="@),
        BinaryOperator::MultiplyAssign => assert("*"@ + "="@ =~= "*="@),
        BinaryOperator::DivideAssign => assert("/"@ + "="@ =~= "/="@),
        BinaryOperator::RemainderAssign => assert("%"@ + "="@ =~= "%="@),
        BinaryOperator::BitwiseAndAssign => assert("&"@ + "="@ =~= "&="@),
        BinaryOperator::BitwiseXorAssign => assert("^"@ + "="@ =~= "^="@),
        BinaryOperator::BitwiseOrAssign => assert("|"@ + "="@ =~= "|="@),
        BinaryOperator::LeftShiftAssign => assert("<<"@ + "="@ =~= "<<="@),
        BinaryOperator::RightShiftAssign => assert(">>"@ + "="@ =~= ">>="@),
        _ => {},
    }
}

/// An operator that becomes one IR instruction becomes the IR operator
/// written with the same symbol, and on integers it computes what the
/// source operator means: `+ - * / %` as in `arith`, comparisons as in
/// `relation` (1 for true, 0 for false).
pub proof fn lemma_binary_lower_meaning(op: BinaryOperator, x: int, y: int)
    requires
        spec_can_be_lowered(op),
    ensures
        ir::binary_text(spec_binary_lower(op)) == binary_symbol(op),
        crate::parser::eval::is_arith(op) ==> ir::binary_value(spec_binary_lower(op), x, y)
            == crate::parser::eval::arith(op, x, y),
        crate::parser::eval::is_relation(op) ==> ir::binary_value(spec_binary_lower(op), x, y)
            == if crate::parser::eval::relation(op, x, y) { 1int } else { 0int },
{
}

/// A unary operator becomes the IR operator written with the same symbol,
/// which computes on integers what the operator means in C: `-` negates,
/// `~` complements (`-x - 1`), `!` gives 1 for zero and 0 otherwise.
pub proof fn lemma_unary_lower_meaning(op: UnaryOperator, x: int)
    ensures
        ir::unary_text(spec_unary_lower(op)) == unary_symbol(op),
        ir::unary_value(spec_unary_lower(op), x) == match op {
            UnaryOperator::Negate => -x,
            UnaryOperator::BitwiseNot => -x - 1,
            UnaryOperator::Not => if x == 0 { 1int } else { 0int },
        },
{
}

/// `++` steps by one and `--` by minus one, in the type of the operand.
pub proof fn lemma_inc_dec_step(op: IncDec, ty: ConstantType)
    ensures
        crate::parser::constant_value(spec_inc_dec_step(op, ty)) == match op {
            IncDec::Increment => 1int,
            IncDec::Decrement => -1int,
        },
        crate::parser::constant_type(spec_inc_dec_step(op, ty)) == ty,
{
}

/// A prefix operator or increment read from a token is the one that token
/// spells.
pub proof fn lemma_prefix_tokens_spelled(t: Token)
    ensures
        crate::parser::grammar::unary_token(t) matches Some(op) ==> unary_symbol(op) == crate::lexer::token_text(t),
        crate::parser::grammar::inc_dec_token(t) matches Some(op) ==> crate::lexer::token_text(t) == match op {
            IncDec::Increment => "++"@,
            IncDec::Decrement => "--"@,
        },
{
}

} // verus!
