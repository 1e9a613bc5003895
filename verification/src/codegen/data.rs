//! The assembly program that code generation builds.
use vstd::prelude::*;
use crate::analysis::StaticInit;
use crate::parser::Identifier;
use crate::table::Table;

verus! {

#[derive(Debug)]
pub struct Program(pub Vec<TopLevel>);

/// The size of an operand: a 32-bit longword or a 64-bit quadword.
#[derive(Debug, Clone, Copy, PartialEq, Eq, Structural)]
pub enum AssemblyType {
    Longword,
    Quadword,
}

pub open spec fn spec_size_bytes(t: AssemblyType) -> u32 {
    match t {
        AssemblyType::Longword => 4,
        AssemblyType::Quadword => 8,
    }
}

impl AssemblyType {
    pub fn size_bytes(self) -> (r: u32)
        ensures
            r == spec_size_bytes(self),
    {
        match self {
            AssemblyType::Longword => 4,
            AssemblyType::Quadword => 8,
        }
    }

    pub fn alignment(self) -> (r: i32)
        ensures
            r == spec_size_bytes(self),
    {
        match self {
            AssemblyType::Longword => 4,
            AssemblyType::Quadword => 8,
        }
    }

    pub fn is_quadword(self) -> (r: bool)
        ensures
            r == (self == AssemblyType::Quadword),
    {
        self == AssemblyType::Quadword
    }
}

/// What the code generator knows of a name.
#[derive(Debug, Clone, Copy, PartialEq, Eq, Structural)]
pub enum AsmSymbol {
    Object { ty: AssemblyType, is_static: bool },
    Function { defined: bool },
}

pub type AsmSymbols = Table<AsmSymbol>;

/// Replaces the code generator's symbol table with `symbols`.
pub fn set_asm_symbol_table(table: &mut AsmSymbols, symbols: AsmSymbols)
    ensures
        final(table)@ == symbols@,
{
    *table = symbols;
}

impl AsmSymbol {
    pub fn is_static(&self) -> (r: bool)
        ensures
            r == (match *self {
                AsmSymbol::Object { is_static, .. } => is_static,
                AsmSymbol::Function { .. } => false,
            }),
    {
        match self {
            Self::Object { is_static, .. } => *is_static,
            Self::Function { .. } => false,
        }
    }

    pub fn ty(&self) -> (r: Option<AssemblyType>)
        ensures
            r == (match *self {
                AsmSymbol::Object { ty, .. } => Some(ty),
                AsmSymbol::Function { .. } => None,
            }),
    {
        match self {
            Self::Object { ty, .. } => Some(*ty),
            Self::Function { .. } => None,
        }
    }

    pub fn defined(&self) -> (r: bool)
        ensures
            r == (match *self {
                AsmSymbol::Object { .. } => true,
                AsmSymbol::Function { defined } => defined,
            }),
    {
        match self {
            Self::Object { .. } => true,
            Self::Function { defined } => *defined,
        }
    }
}

#[derive(Debug)]
pub enum TopLevel {
    F(FunctionDefinition),
    V(StaticVariable),
}

#[derive(Debug)]
pub struct FunctionDefinition {
    pub name: Identifier,
    pub instructions: Vec<Instruction>,
    pub global: bool,
}

#[derive(Debug)]
pub struct StaticVariable {
    pub name: Identifier,
    pub global: bool,
    pub init: StaticInit,
    pub alignment: u32,
}

#[derive(Debug)]
pub enum Instruction {
    Mov { ty: AssemblyType, src: Operand, dst: Operand },
    Movsx { src: Operand, dst: Operand },
    Unary { ty: AssemblyType, operator: UnaryOperator, operand: Operand },
    Binary { ty: AssemblyType, operator: BinaryOperator, src: Operand, dst: Operand },
    Cmp(AssemblyType, Operand, Operand),
    Idiv(AssemblyType, Operand),
    Cdq(AssemblyType),
    Jump(Identifier),
    JumpCC(CondCode, Identifier),
    SetCC(CondCode, Operand),
    Label(Identifier),
    Push(Operand),
    Call(Identifier),
    Comment(&'static str),
    Ret,
}

impl Clone for Instruction {
    fn clone(&self) -> (r: Self)
        ensures
            r == *self,
    {
        match self {
            Instruction::Mov { ty, src, dst } => Instruction::Mov { ty: *ty, src: src.clone(), dst: dst.clone() },
            Instruction::Movsx { src, dst } => Instruction::Movsx { src: src.clone(), dst: dst.clone() },
            Instruction::Unary { ty, operator, operand } => Instruction::Unary { ty: *ty, operator: *operator, operand: operand.clone() },
            Instruction::Binary { ty, operator, src, dst } => Instruction::Binary { ty: *ty, operator: *operator, src: src.clone(), dst: dst.clone() },
            Instruction::Cmp(ty, a, b) => Instruction::Cmp(*ty, a.clone(), b.clone()),
            Instruction::Idiv(ty, a) => Instruction::Idiv(*ty, a.clone()),
            Instruction::Cdq(ty) => Instruction::Cdq(*ty),
            Instruction::Jump(l) => Instruction::Jump(l.clone()),
            Instruction::JumpCC(c, l) => Instruction::JumpCC(*c, l.clone()),
            Instruction::SetCC(c, o) => Instruction::SetCC(*c, o.clone()),
            Instruction::Label(l) => Instruction::Label(l.clone()),
            Instruction::Push(o) => Instruction::Push(o.clone()),
            Instruction::Call(l) => Instruction::Call(l.clone()),
            Instruction::Comment(c) => Instruction::Comment(c),
            Instruction::Ret => Instruction::Ret,
        }
    }
}

impl Instruction {
    /// `addq $bytes, %rsp`
    pub fn deallocate_stack(bytes: u32) -> (r: Self)
        ensures
            r == (Instruction::Binary {
                ty: AssemblyType::Quadword,
                operator: BinaryOperator::Add,
                src: Operand::Imm(bytes as i64),
                dst: Operand::Reg(Register::StackPointer),
            }),
    {
        Self::Binary {
            ty: AssemblyType::Quadword,
            operator: BinaryOperator::Add,
            src: Operand::Imm(bytes as i64),
            dst: Operand::Reg(Register::StackPointer),
        }
    }

    /// `subq $bytes, %rsp`
    pub fn allocate_stack(bytes: u32) -> (r: Self)
        ensures
            r == (Instruction::Binary {
                ty: AssemblyType::Quadword,
                operator: BinaryOperator::Sub,
                src: Operand::Imm(bytes as i64),
                dst: Operand::Reg(Register::StackPointer),
            }),
    {
        Self::Binary {
            ty: AssemblyType::Quadword,
            operator: BinaryOperator::Sub,
            src: Operand::Imm(bytes as i64),
            dst: Operand::Reg(Register::StackPointer),
        }
    }
}

#[derive(Debug, Clone, Copy, PartialEq, Eq, Structural)]
pub enum CondCode {
    Eq,
    Ne,
    Gt,
    Ge,
    Lt,
    Le,
}

pub open spec fn cond_code_text(c: CondCode) -> Seq<char> {
    match c {
        CondCode::Eq => "e"@,
        CondCode::Ne => "ne"@,
        CondCode::Lt => "l"@,
        CondCode::Gt => "g"@,
        CondCode::Le => "le"@,
        CondCode::Ge => "ge"@,
    }
}

impl CondCode {
    /// The condition suffix of `j` and `set` instructions.
    pub fn format(self) -> (s: &'static str)
        ensures
            s@ == cond_code_text(self),
    {
        match self {
            Self::Eq => "e",
            Self::Ne => "ne",
            Self::Lt => "l",
            Self::Gt => "g",
            Self::Le => "le",
            Self::Ge => "ge",
        }
    }
}

#[derive(Debug, Clone, Copy, PartialEq, Eq, Structural)]
pub enum Register {
    Ax,
    Cx,
    Dx,
    Di,
    Si,
    R8,
    R9,
    R10,
    R11,
    StackPointer,
}

#[derive(Debug, Clone, Copy, PartialEq, Eq, Structural)]
pub enum BinaryOperator {
    Add,
    Sub,
    Mul,
    LeftShift,
    RightShift,
    BitwiseAnd,
    BitwiseXor,
    BitwiseOr,
    NotEqual,
    GreaterThan,
    GreaterEqual,
    LessThan,
    LessEqual,
}

#[derive(Debug, Clone, Copy, PartialEq, Eq, Structural)]
pub enum UnaryOperator {
    BitwiseNot,
    Negate,
    Not,
}

#[derive(Debug)]
pub enum Operand {
    Imm(i64),
    Reg(Register),
    Pseudo(Identifier),
    Stack(i32),
    Data(Identifier),
}

impl Clone for Operand {
    fn clone(&self) -> (r: Self)
        ensures
            r == *self,
    {
        match self {
            Operand::Imm(i) => Operand::Imm(*i),
            Operand::Reg(r) => Operand::Reg(*r),
            Operand::Pseudo(i) => Operand::Pseudo(i.clone()),
            Operand::Stack(o) => Operand::Stack(*o),
            Operand::Data(i) => Operand::Data(i.clone()),
        }
    }
}

/// The mnemonic of an operator that has one (comparisons have none).
pub open spec fn binary_op_text(op: BinaryOperator) -> Seq<char> {
    match op {
        BinaryOperator::Add => "add"@,
        BinaryOperator::Sub => "sub"@,
        BinaryOperator::Mul => "imul"@,
        BinaryOperator::LeftShift => "sal"@,
        BinaryOperator::RightShift => "sar"@,
        BinaryOperator::BitwiseAnd => "and"@,
        BinaryOperator::BitwiseXor => "xor"@,
        BinaryOperator::BitwiseOr => "or"@,
        _ => Seq::empty(),
    }
}

pub open spec fn has_mnemonic(op: BinaryOperator) -> bool {
    match op {
        BinaryOperator::NotEqual | BinaryOperator::GreaterThan | BinaryOperator::GreaterEqual
        | BinaryOperator::LessThan | BinaryOperator::LessEqual => false,
        _ => true,
    }
}

impl BinaryOperator {
    /// The mnemonic; comparisons have none.
    pub fn op_str(&self) -> (s: &'static str)
        requires
            has_mnemonic(*self),
        ensures
            s@ == binary_op_text(*self),
    {
        match self {
            Self::Add => "add",
            Self::Sub => "sub",
            Self::Mul => "imul",
            Self::LeftShift => "sal",
            Self::RightShift => "sar",
            Self::BitwiseAnd => "and",
            Self::BitwiseXor => "xor",
            _ => "or",
        }
    }

    /// The size of the source operand when it is fixed: shifts take their
    /// count in one byte.
    pub fn src_size(&self) -> (r: Option<u32>)
        ensures
            r == (if *self == BinaryOperator::LeftShift || *self == BinaryOperator::RightShift {
                Some(1u32)
            } else {
                None
            }),
    {
        match self {
            Self::LeftShift | Self::RightShift => Some(1),
            _ => None,
        }
    }

    pub fn cant_have_double_memory(&self) -> (r: bool)
        ensures
            r == spec_cant_have_double_memory(*self),
    {
        match self {
            Self::Add | Self::Sub | Self::BitwiseAnd | Self::BitwiseXor | Self::BitwiseOr => true,
            _ => false,
        }
    }

    pub fn cant_have_large_imm(&self) -> (r: bool)
        ensures
            r == spec_cant_have_large_imm(*self),
    {
        match self {
            Self::Add | Self::Sub | Self::Mul | Self::BitwiseOr | Self::BitwiseAnd | Self::BitwiseXor => true,
            _ => false,
        }
    }

    pub fn is_shift(&self) -> (r: bool)
        ensures
            r == (*self == BinaryOperator::LeftShift || *self == BinaryOperator::RightShift),
    {
        match self {
            Self::LeftShift | Self::RightShift => true,
            _ => false,
        }
    }

    #[must_use]
    pub fn is_mult(&self) -> (r: bool)
        ensures
            r == (*self == BinaryOperator::Mul),
    {
        match self {
            Self::Mul => true,
            _ => false,
        }
    }
}

pub open spec fn spec_cant_have_double_memory(op: BinaryOperator) -> bool {
    match op {
        BinaryOperator::Add | BinaryOperator::Sub | BinaryOperator::BitwiseAnd
        | BinaryOperator::BitwiseXor | BinaryOperator::BitwiseOr => true,
        _ => false,
    }
}

pub open spec fn spec_cant_have_large_imm(op: BinaryOperator) -> bool {
    match op {
        BinaryOperator::Add | BinaryOperator::Sub | BinaryOperator::Mul | BinaryOperator::BitwiseOr
        | BinaryOperator::BitwiseAnd | BinaryOperator::BitwiseXor => true,
        _ => false,
    }
}

impl UnaryOperator {
    /// The mnemonic; logical not has none.
    pub fn op_str(&self) -> (s: &'static str)
        requires
            *self != UnaryOperator::Not,
        ensures
            s@ == (if *self == UnaryOperator::BitwiseNot { "not"@ } else { "neg"@ }),
    {
        match self {
            Self::BitwiseNot => "not",
            _ => "neg",
        }
    }
}

pub open spec fn spec_is_memory(o: Operand) -> bool {
    o is Stack || o is Data
}

impl Operand {
    #[must_use]
    pub fn is_memory(&self) -> (r: bool)
        ensures
            r == spec_is_memory(*self),
    {
        match self {
            Self::Stack(_) | Self::Data(_) => true,
            _ => false,
        }
    }

    pub fn is_constant(&self) -> (r: bool)
        ensures
            r == (*self is Imm),
    {
        match self {
            Self::Imm(_) => true,
            _ => false,
        }
    }
}

/// Each operator that has a mnemonic has its own, and each condition code
/// its own suffix: no two instructions print alike.
pub proof fn lemma_mnemonics_distinct(a: BinaryOperator, b: BinaryOperator, c: CondCode, d: CondCode)
    ensures
        has_mnemonic(a) && has_mnemonic(b) && binary_op_text(a) == binary_op_text(b) ==> a == b,
        cond_code_text(c) == cond_code_text(d) ==> c == d,
{
    reveal_strlit("add");
    reveal_strlit("sub");
    reveal_strlit("imul");
    reveal_strlit("sal");
    reveal_strlit("sar");
    reveal_strlit("and");
    reveal_strlit("xor");
    reveal_strlit("or");
    reveal_strlit("e");
    reveal_strlit("ne");
    reveal_strlit("l");
    reveal_strlit("g");
    reveal_strlit("le");
    reveal_strlit("ge");
    if has_mnemonic(a) && has_mnemonic(b) && a != b {
        assert(binary_op_text(a) != binary_op_text(b)) by {
            if binary_op_text(a) == binary_op_text(b) {
                assert(binary_op_text(a).len() == binary_op_text(b).len());
                assert(binary_op_text(a)[0] == binary_op_text(b)[0]);
                if binary_op_text(a).len() > 1 {
                    assert(binary_op_text(a)[1] == binary_op_text(b)[1]);
                }
                if binary_op_text(a).len() > 2 {
                    assert(binary_op_text(a)[2] == binary_op_text(b)[2]);
                }
            }
        }
    }
    if c != d {
        assert(cond_code_text(c) != cond_code_text(d)) by {
            if cond_code_text(c) == cond_code_text(d) {
                assert(cond_code_text(c).len() == cond_code_text(d).len());
                assert(cond_code_text(c)[0] == cond_code_text(d)[0]);
                if cond_code_text(c).len() > 1 {
                    assert(cond_code_text(c)[1] == cond_code_text(d)[1]);
                }
            }
        }
    }
}

} // verus!
