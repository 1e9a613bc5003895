//! The three-address intermediate representation.
use vstd::prelude::*;
use crate::analysis::{StaticInit, Type, TypeView};
use crate::analysis::checker::Symbols;
use crate::codegen::AssemblyType;
use crate::parser::{Constant, ConstantType, FunctionParameter, Identifier};

verus! {

#[derive(Debug)]
pub struct Program(pub Vec<TopLevel>);

#[derive(Debug)]
pub enum TopLevel {
    F(FunctionDefinition),
    V(StaticVariable),
}

#[derive(Debug)]
pub struct FunctionDefinition {
    pub name: Identifier,
    pub params: Vec<FunctionParameter>,
    pub body: Vec<Instruction>,
    pub global: bool,
}

#[derive(Debug)]
pub struct StaticVariable {
    pub name: Identifier,
    pub global: bool,
    pub init: StaticInit,
    pub ty: Type,
}

#[derive(Debug)]
pub enum Instruction {
    Return(Value),
    Unary { operator: UnaryOperator, src: Value, dst: Value },
    Binary { operator: BinaryOperator, lhs: Value, rhs: Value, dst: Value },
    Copy { src: Value, dst: Value },
    Jump(Identifier),
    JumpIfZero { condition: Value, target: Identifier },
    JumpNotZero { condition: Value, target: Identifier },
    Label(Identifier),
    Comment(&'static str),
    FunctionCall { name: Identifier, args: Vec<Value>, dst: Value },
    SignExtend { src: Value, dst: Value },
    Truncate { src: Value, dst: Value },
}

#[derive(Debug, Clone, Copy, PartialEq, Eq, Structural)]
pub enum BinaryOperator {
    Add,
    Subtract,
    Multiply,
    Divide,
    Remainder,
    LeftShift,
    RightShift,
    BitwiseAnd,
    BitwiseXor,
    BitwiseOr,
    Equal,
    NotEqual,
    LessThan,
    LessEqual,
    GreaterThan,
    GreaterEqual,
}

#[derive(Debug, Clone, Copy, PartialEq, Eq, Structural)]
pub enum UnaryOperator {
    BitwiseNot,
    Negate,
    Not,
}

/// An operand of an IR instruction.
#[derive(Debug)]
pub enum Value {
    Constant(Constant),
    Var(Identifier),
}

impl Clone for Value {
    fn clone(&self) -> (r: Self)
        ensures
            r == *self,
    {
        match self {
            Value::Constant(c) => Value::Constant(*c),
            Value::Var(i) => Value::Var(i.clone()),
        }
    }
}

/// The type of a value: a constant's own, a variable's as the symbol table
/// records it (`int` for a name the table does not know).
pub open spec fn value_type(v: Value, symbols: Symbols) -> TypeView {
    match v {
        Value::Constant(Constant::Int(_)) => TypeView::Int,
        Value::Constant(Constant::Long(_)) => TypeView::Long,
        Value::Var(i) => if symbols@.dom().contains(i@) { symbols@[i@].ty@ } else { TypeView::Int },
    }
}

/// The assembly type of a value: a quadword for a `long`, a longword otherwise.
pub open spec fn value_asm_type(v: Value, symbols: Symbols) -> AssemblyType {
    if value_type(v, symbols) is Long { AssemblyType::Quadword } else { AssemblyType::Longword }
}

/// The constant kind of a value, when its type is an integer type.
pub open spec fn value_const_type(v: Value, symbols: Symbols) -> Option<ConstantType> {
    match value_type(v, symbols) {
        TypeView::Int => Some(ConstantType::Int),
        TypeView::Long => Some(ConstantType::Long),
        _ => None,
    }
}

impl Value {
    pub fn ty(&self, symbols: &Symbols) -> (t: Type)
        ensures
            t@ == value_type(*self, *symbols),
    {
        match self {
            Value::Constant(c) => c.ty(),
            Value::Var(i) => match symbols.get(i) {
                Some(s) => crate::analysis::clone_type(&s.ty),
                None => Type::Int,
            },
        }
    }

    pub fn const_ty(&self, symbols: &Symbols) -> (r: Option<ConstantType>)
        ensures
            r == value_const_type(*self, *symbols),
    {
        let t = self.ty(symbols);
        t.to_constant()
    }

    pub fn asm_type(&self, symbols: &Symbols) -> (r: AssemblyType)
        ensures
            r == value_asm_type(*self, *symbols),
    {
        match self.ty(symbols) {
            Type::Long => AssemblyType::Quadword,
            _ => AssemblyType::Longword,
        }
    }
}

/// Whether `after` is `before` with instructions appended.
pub open spec fn emitted(before: Seq<Instruction>, after: Seq<Instruction>) -> bool {
    before.is_prefix_of(after)
}

pub broadcast proof fn lemma_emitted_trans(a: Seq<Instruction>, b: Seq<Instruction>, c: Seq<Instruction>)
    requires
        #[trigger] emitted(a, b),
        #[trigger] emitted(b, c),
    ensures
        emitted(a, c),
{
    assert(c.subrange(0, a.len() as int) =~= b.subrange(0, a.len() as int));
}

pub broadcast proof fn lemma_emitted_push(a: Seq<Instruction>, x: Instruction)
    ensures
        emitted(a, #[trigger] a.push(x)),
{
    assert(a.push(x).subrange(0, a.len() as int) =~= a);
}

pub proof fn lemma_emitted_refl(a: Seq<Instruction>)
    ensures
        emitted(a, a),
{
    assert(a.subrange(0, a.len() as int) =~= a);
}

} // verus!
