//! Instruction selection: lowering the IR to x86-64 assembly instructions.
use vstd::prelude::*;
use crate::analysis::{Symbol, Type, TypeView};
use crate::analysis::checker::Symbols;
use crate::codegen::{self, AsmSymbol, AsmSymbols, AssemblyType, CondCode, Operand, Register};
use crate::ir::data::{
    BinaryOperator, FunctionDefinition, Instruction, Program, StaticVariable, TopLevel, UnaryOperator, Value,
    value_asm_type,
};
use crate::parser::ast::{Constant, FunctionParameter, Identifier, constant_value};
use crate::table::{Table, Key, entries_map};
use crate::utils::{lemma_prefix_index, lemma_prefix_refl};

verus! {

broadcast use vstd::std_specs::vec::axiom_spec_len, crate::utils::lemma_prefix_push, crate::utils::lemma_prefix_trans;

/// The operand that stands for a value.
pub open spec fn value_operand(v: Value) -> Operand {
    match v {
        Value::Constant(c) => Operand::Imm(constant_value(c) as i64),
        Value::Var(i) => Operand::Pseudo(i),
    }
}

impl Value {
    pub fn lower(self) -> (r: Operand)
        ensures
            r == value_operand(self),
    {
        match self {
            Value::Constant(c) => Operand::Imm(c.i64()),
            Value::Var(ident) => Operand::Pseudo(ident),
        }
    }
}

/// The register that carries argument `i` (of the first six).
pub open spec fn spec_arg_register(i: int) -> Register {
    if i == 0 {
        Register::Di
    } else if i == 1 {
        Register::Si
    } else if i == 2 {
        Register::Dx
    } else if i == 3 {
        Register::Cx
    } else if i == 4 {
        Register::R8
    } else {
        Register::R9
    }
}

fn arg_register(i: usize) -> (r: Register)
    requires
        i < 6,
    ensures
        r == spec_arg_register(i as int),
{
    if i == 0 {
        Register::Di
    } else if i == 1 {
        Register::Si
    } else if i == 2 {
        Register::Dx
    } else if i == 3 {
        Register::Cx
    } else if i == 4 {
        Register::R8
    } else {
        Register::R9
    }
}

pub open spec fn spec_unary_lower(op: UnaryOperator) -> codegen::UnaryOperator {
    match op {
        UnaryOperator::Negate => codegen::UnaryOperator::Negate,
        UnaryOperator::BitwiseNot => codegen::UnaryOperator::BitwiseNot,
        UnaryOperator::Not => codegen::UnaryOperator::Not,
    }
}

/// Whether an IR operator has an assembly operator of its own (division,
/// remainder and equality are lowered otherwise).
pub open spec fn has_asm_operator(op: BinaryOperator) -> bool {
    !(op == BinaryOperator::Divide || op == BinaryOperator::Remainder || op == BinaryOperator::Equal)
}

pub open spec fn spec_binary_lower(op: BinaryOperator) -> codegen::BinaryOperator {
    match op {
        BinaryOperator::Add => codegen::BinaryOperator::Add,
        BinaryOperator::Subtract => codegen::BinaryOperator::Sub,
        BinaryOperator::Multiply => codegen::BinaryOperator::Mul,
        BinaryOperator::LeftShift => codegen::BinaryOperator::LeftShift,
        BinaryOperator::RightShift => codegen::BinaryOperator::RightShift,
        BinaryOperator::BitwiseAnd => codegen::BinaryOperator::BitwiseAnd,
        BinaryOperator::BitwiseXor => codegen::BinaryOperator::BitwiseXor,
        BinaryOperator::BitwiseOr => codegen::BinaryOperator::BitwiseOr,
        BinaryOperator::NotEqual => codegen::BinaryOperator::NotEqual,
        BinaryOperator::LessThan => codegen::BinaryOperator::LessThan,
        BinaryOperator::LessEqual => codegen::BinaryOperator::LessEqual,
        BinaryOperator::GreaterThan => codegen::BinaryOperator::GreaterThan,
        _ => codegen::BinaryOperator::GreaterEqual,
    }
}

impl UnaryOperator {
    pub fn lower(self) -> (r: codegen::UnaryOperator)
        ensures
            r == spec_unary_lower(self),
    {
        match self {
            Self::Negate => codegen::UnaryOperator::Negate,
            Self::BitwiseNot => codegen::UnaryOperator::BitwiseNot,
            Self::Not => codegen::UnaryOperator::Not,
        }
    }
}

impl BinaryOperator {
    pub fn lower(self) -> (r: codegen::BinaryOperator)
        requires
            has_asm_operator(self),
        ensures
            r == spec_binary_lower(self),
    {
        match self {
            Self::Add => codegen::BinaryOperator::Add,
            Self::Subtract => codegen::BinaryOperator::Sub,
            Self::Multiply => codegen::BinaryOperator::Mul,
            Self::LeftShift => codegen::BinaryOperator::LeftShift,
            Self::RightShift => codegen::BinaryOperator::RightShift,
            Self::BitwiseAnd => codegen::BinaryOperator::BitwiseAnd,
            Self::BitwiseXor => codegen::BinaryOperator::BitwiseXor,
            Self::BitwiseOr => codegen::BinaryOperator::BitwiseOr,
            Self::NotEqual => codegen::BinaryOperator::NotEqual,
            Self::LessThan => codegen::BinaryOperator::LessThan,
            Self::LessEqual => codegen::BinaryOperator::LessEqual,
            Self::GreaterThan => codegen::BinaryOperator::GreaterThan,
            _ => codegen::BinaryOperator::GreaterEqual,
        }
    }
}

/// The condition code that a comparison sets its result by.
pub open spec fn comparison_code(op: BinaryOperator) -> Option<CondCode> {
    match op {
        BinaryOperator::GreaterThan => Some(CondCode::Gt),
        BinaryOperator::LessThan => Some(CondCode::Lt),
        BinaryOperator::GreaterEqual => Some(CondCode::Ge),
        BinaryOperator::LessEqual => Some(CondCode::Le),
        BinaryOperator::Equal => Some(CondCode::Eq),
        BinaryOperator::NotEqual => Some(CondCode::Ne),
        _ => None,
    }
}

/// The assembly that an IR instruction other than a call is lowered to.
pub open spec fn selected(i: Instruction, symbols: Symbols) -> Seq<codegen::Instruction> {
    match i {
        Instruction::Return(v) => seq![
            codegen::Instruction::Mov { ty: value_asm_type(v, symbols), src: value_operand(v), dst: Operand::Reg(Register::Ax) },
            codegen::Instruction::Ret,
        ],
        Instruction::Unary { operator, src, dst } => if operator == UnaryOperator::Not {
            seq![
                codegen::Instruction::Cmp(value_asm_type(src, symbols), Operand::Imm(0), value_operand(src)),
                codegen::Instruction::Mov { ty: value_asm_type(dst, symbols), src: Operand::Imm(0), dst: value_operand(dst) },
                codegen::Instruction::SetCC(CondCode::Eq, value_operand(dst)),
            ]
        } else {
            seq![
                codegen::Instruction::Mov { ty: value_asm_type(dst, symbols), src: value_operand(src), dst: value_operand(dst) },
                codegen::Instruction::Unary { ty: value_asm_type(dst, symbols), operator: spec_unary_lower(operator), operand: value_operand(dst) },
            ]
        },
        Instruction::Binary { operator, lhs, rhs, dst } => {
            let ty = value_asm_type(lhs, symbols);
            if operator == BinaryOperator::Divide || operator == BinaryOperator::Remainder {
                seq![
                    codegen::Instruction::Mov { ty, src: value_operand(lhs), dst: Operand::Reg(Register::Ax) },
                    codegen::Instruction::Cdq(ty),
                    codegen::Instruction::Idiv(ty, value_operand(rhs)),
                    codegen::Instruction::Mov {
                        ty,
                        src: Operand::Reg(if operator == BinaryOperator::Divide { Register::Ax } else { Register::Dx }),
                        dst: value_operand(dst),
                    },
                ]
            } else if comparison_code(operator) is Some {
                seq![
                    codegen::Instruction::Cmp(ty, value_operand(rhs), value_operand(lhs)),
                    codegen::Instruction::Mov { ty: value_asm_type(dst, symbols), src: Operand::Imm(0), dst: value_operand(dst) },
                    codegen::Instruction::SetCC(comparison_code(operator).unwrap(), value_operand(dst)),
                ]
            } else {
                seq![
                    codegen::Instruction::Mov { ty, src: value_operand(lhs), dst: value_operand(dst) },
                    codegen::Instruction::Binary { ty, operator: spec_binary_lower(operator), src: value_operand(rhs), dst: value_operand(dst) },
                ]
            }
        },
        Instruction::Jump(l) => seq![codegen::Instruction::Jump(l)],
        Instruction::JumpIfZero { condition, target } => seq![
            codegen::Instruction::Cmp(value_asm_type(condition, symbols), Operand::Imm(0), value_operand(condition)),
            codegen::Instruction::JumpCC(CondCode::Eq, target),
        ],
        Instruction::JumpNotZero { condition, target } => seq![
            codegen::Instruction::Cmp(value_asm_type(condition, symbols), Operand::Imm(0), value_operand(condition)),
            codegen::Instruction::JumpCC(CondCode::Ne, target),
        ],
        Instruction::Label(l) => seq![codegen::Instruction::Label(l)],
        Instruction::Copy { src, dst } => seq![
            codegen::Instruction::Mov { ty: value_asm_type(src, symbols), src: value_operand(src), dst: value_operand(dst) },
        ],
        Instruction::Comment(c) => seq![codegen::Instruction::Comment(c)],
        Instruction::SignExtend { src, dst } => seq![codegen::Instruction::Movsx { src: value_operand(src), dst: value_operand(dst) }],
        Instruction::Truncate { src, dst } => seq![
            codegen::Instruction::Mov { ty: AssemblyType::Longword, src: value_operand(src), dst: value_operand(dst) },
        ],
        Instruction::FunctionCall { .. } => seq![],
    }
}

/// The bytes that a call's stack arguments and padding take.
fn stack_bytes(count: usize, padding: u32) -> (r: u32)
    requires
        count < 0x1000_0000,
        padding <= 8,
    ensures
        r == 8 * count + padding,
{
    8 * (count as u32) + padding
}

/// `%rsp` moved by `bytes`: down with `Sub`, up with `Add`.
pub open spec fn stack_adjust(operator: codegen::BinaryOperator, bytes: int) -> codegen::Instruction {
    codegen::Instruction::Binary {
        ty: AssemblyType::Quadword,
        operator,
        src: Operand::Imm(bytes as i64),
        dst: Operand::Reg(Register::StackPointer),
    }
}

/// The moves of the first six arguments into their registers.
pub open spec fn register_moves(args: Seq<Value>, symbols: Symbols) -> Seq<codegen::Instruction> {
    Seq::new(if args.len() < 6 { args.len() } else { 6 }, |i: int| codegen::Instruction::Mov {
        ty: value_asm_type(args[i], symbols),
        src: value_operand(args[i]),
        dst: Operand::Reg(spec_arg_register(i)),
    })
}

/// The push of one stack argument: directly for a register, an immediate or
/// a quadword; through `%eax` for a longword in memory.
pub open spec fn push_argument(v: Value, symbols: Symbols) -> Seq<codegen::Instruction> {
    let op = value_operand(v);
    if op is Reg || op is Imm || value_asm_type(v, symbols) == AssemblyType::Quadword {
        seq![codegen::Instruction::Push(op)]
    } else {
        seq![
            codegen::Instruction::Mov { ty: AssemblyType::Longword, src: op, dst: Operand::Reg(Register::Ax) },
            codegen::Instruction::Push(Operand::Reg(Register::Ax)),
        ]
    }
}

/// The pushes of arguments `j - 1` down to `6`, last argument first.
pub open spec fn stack_pushes(args: Seq<Value>, symbols: Symbols, j: int) -> Seq<codegen::Instruction>
    decreases j,
{
    if j <= 6 {
        seq![]
    } else {
        push_argument(args[j - 1], symbols) + stack_pushes(args, symbols, j - 1)
    }
}

/// The number of arguments a call passes on the stack.
pub open spec fn stack_count(n: int) -> int {
    if n > 6 { n - 6 } else { 0 }
}

/// The padding that keeps the stack 16-byte aligned at the call.
pub open spec fn stack_padding(n: int) -> int {
    if stack_count(n) % 2 == 0 { 0 } else { 8 }
}

/// The assembly of a call: padding, register arguments, stack arguments
/// (last first), the call, the release of the stack arguments and padding,
/// and the copy of `%rax` to the destination.
pub open spec fn call_sequence(name: Identifier, args: Seq<Value>, dst: Value, symbols: Symbols) -> Seq<codegen::Instruction> {
    let n = args.len() as int;
    let removed = 8 * stack_count(n) + stack_padding(n);
    (if stack_padding(n) != 0 { seq![stack_adjust(codegen::BinaryOperator::Sub, stack_padding(n))] } else { seq![] })
        + register_moves(args, symbols)
        + stack_pushes(args, symbols, n)
        + seq![codegen::Instruction::Call(name)]
        + (if removed != 0 { seq![stack_adjust(codegen::BinaryOperator::Add, removed)] } else { seq![] })
        + seq![codegen::Instruction::Mov { ty: value_asm_type(dst, symbols), src: Operand::Reg(Register::Ax), dst: value_operand(dst) }]
}

/// The most arguments a call may pass (the bytes they take on the stack must
/// fit in 32 bits).
pub open spec fn call_fits(i: Instruction) -> bool {
    i matches Instruction::FunctionCall { args, .. } ==> args@.len() < 0x1000_0000
}

fn condition_of(op: BinaryOperator) -> (r: Option<CondCode>)
    ensures
        r == comparison_code(op),
{
    match op {
        BinaryOperator::GreaterThan => Some(CondCode::Gt),
        BinaryOperator::LessThan => Some(CondCode::Lt),
        BinaryOperator::GreaterEqual => Some(CondCode::Ge),
        BinaryOperator::LessEqual => Some(CondCode::Le),
        BinaryOperator::Equal => Some(CondCode::Eq),
        BinaryOperator::NotEqual => Some(CondCode::Ne),
        _ => None,
    }
}

impl Instruction {
    /// Appends the assembly of the instruction: the table of `selected` for
    /// all but calls; a call passes its first six arguments in registers and
    /// the rest on the stack, calls, and copies `%rax` to its destination.
    pub fn lower(self, instructions: &mut Vec<codegen::Instruction>, symbols: &Symbols)
        requires
            call_fits(self),
        ensures
            !(self is FunctionCall) ==> final(instructions)@ == old(instructions)@ + selected(self, *symbols),
            self matches Instruction::FunctionCall { name, args, dst } ==>
                final(instructions)@ == old(instructions)@ + call_sequence(name, args@, dst, *symbols),
            final(instructions)@ == old(instructions)@ + instruction_code(self, *symbols),
    {
        let ghost start = instructions@;
        match self {
            Instruction::Return(val) => {
                let ty = val.asm_type(symbols);
                instructions.push(codegen::Instruction::Mov { ty, src: val.lower(), dst: Operand::Reg(Register::Ax) });
                instructions.push(codegen::Instruction::Ret);
            },
            Instruction::Unary { operator, src, dst } => {
                if operator == UnaryOperator::Not {
                    let ty = src.asm_type(symbols);
                    let src = src.lower();
                    let dst_ty = dst.asm_type(symbols);
                    let dst = dst.lower();
                    instructions.push(codegen::Instruction::Cmp(ty, Operand::Imm(0), src));
                    instructions.push(codegen::Instruction::Mov { ty: dst_ty, src: Operand::Imm(0), dst: dst.clone() });
                    instructions.push(codegen::Instruction::SetCC(CondCode::Eq, dst));
                } else {
                    let ty = dst.asm_type(symbols);
                    let dst = dst.lower();
                    instructions.push(codegen::Instruction::Mov { ty, src: src.lower(), dst: dst.clone() });
                    instructions.push(codegen::Instruction::Unary { ty, operator: operator.lower(), operand: dst });
                }
            },
            Instruction::Binary { operator, lhs, rhs, dst } => {
                let ty = lhs.asm_type(symbols);
                let dst_ty = dst.asm_type(symbols);
                let dst = dst.lower();
                let lhs = lhs.lower();
                let rhs = rhs.lower();
                if operator == BinaryOperator::Divide || operator == BinaryOperator::Remainder {
                    let register = if operator == BinaryOperator::Divide { Register::Ax } else { Register::Dx };
                    instructions.push(codegen::Instruction::Mov { ty, src: lhs, dst: Operand::Reg(Register::Ax) });
                    instructions.push(codegen::Instruction::Cdq(ty));
                    instructions.push(codegen::Instruction::Idiv(ty, rhs));
                    instructions.push(codegen::Instruction::Mov { ty, src: Operand::Reg(register), dst });
                } else {
                    match condition_of(operator) {
                        Some(cond_code) => {
                            instructions.push(codegen::Instruction::Cmp(ty, rhs, lhs));
                            instructions.push(codegen::Instruction::Mov { ty: dst_ty, src: Operand::Imm(0), dst: dst.clone() });
                            instructions.push(codegen::Instruction::SetCC(cond_code, dst));
                        },
                        None => {
                            instructions.push(codegen::Instruction::Mov { ty, src: lhs, dst: dst.clone() });
                            instructions.push(codegen::Instruction::Binary { ty, operator: operator.lower(), src: rhs, dst });
                        },
                    }
                }
            },
            Instruction::Jump(label) => instructions.push(codegen::Instruction::Jump(label)),
            Instruction::JumpIfZero { condition, target } => {
                let ty = condition.asm_type(symbols);
                let c = condition.lower();
                instructions.push(codegen::Instruction::Cmp(ty, Operand::Imm(0), c));
                instructions.push(codegen::Instruction::JumpCC(CondCode::Eq, target));
            },
            Instruction::JumpNotZero { condition, target } => {
                let ty = condition.asm_type(symbols);
                let c = condition.lower();
                instructions.push(codegen::Instruction::Cmp(ty, Operand::Imm(0), c));
                instructions.push(codegen::Instruction::JumpCC(CondCode::Ne, target));
            },
            Instruction::Label(label) => instructions.push(codegen::Instruction::Label(label)),
            Instruction::Copy { src, dst } => {
                let ty = src.asm_type(symbols);
                instructions.push(codegen::Instruction::Mov { ty, src: src.lower(), dst: dst.lower() });
            },
            Instruction::Comment(c) => instructions.push(codegen::Instruction::Comment(c)),
            Instruction::FunctionCall { name, args, dst } => {
                let ty = dst.asm_type(symbols);
                let n = args.len();
                let stack_count: usize = if n > 6 { n - 6 } else { 0 };
                let stack_padding: u32 = if stack_count % 2 == 0 { 0 } else { 8 };
                if stack_padding != 0 {
                    instructions.push(codegen::Instruction::allocate_stack(stack_padding));
                }
                let ghost padded = instructions@;
                let bytes_to_remove: u32 = stack_bytes(stack_count, stack_padding);
                let mut i: usize = 0;
                while i < n && i < 6
                    invariant
                        i <= n,
                        i <= 6,
                        n == args@.len(),
                        instructions@ == padded + register_moves(args@.subrange(0, i as int), *symbols),
                    decreases n - i,
                {
                    let r = arg_register(i);
                    let arg_ty = args[i].asm_type(symbols);
                    let operand = args[i].clone().lower();
                    instructions.push(codegen::Instruction::Mov { ty: arg_ty, src: operand, dst: Operand::Reg(r) });
                    proof {
                        assert(register_moves(args@.subrange(0, i + 1), *symbols)
                            =~= register_moves(args@.subrange(0, i as int), *symbols).push(instructions@.last()));
                        assert(instructions@ =~= padded + register_moves(args@.subrange(0, i + 1), *symbols));
                    }
                    i = i + 1;
                }
                proof {
                    assert(register_moves(args@.subrange(0, i as int), *symbols) =~= register_moves(args@, *symbols));
                }
                let ghost moved = instructions@;
                let mut j: usize = n;
                while j > 6
                    invariant
                        j <= n,
                        n == args@.len(),
                        instructions@ + stack_pushes(args@, *symbols, j as int) == moved + stack_pushes(args@, *symbols, n as int),
                    decreases j,
                {
                    let ghost before = instructions@;
                    let arg = &args[j - 1];
                    let asm_type = arg.asm_type(symbols);
                    let operand = arg.clone().lower();
                    let direct = match operand {
                        Operand::Reg(_) | Operand::Imm(_) => true,
                        _ => false,
                    };
                    if direct || asm_type == AssemblyType::Quadword {
                        instructions.push(codegen::Instruction::Push(operand));
                    } else {
                        instructions.push(codegen::Instruction::Mov { ty: AssemblyType::Longword, src: operand, dst: Operand::Reg(Register::Ax) });
                        instructions.push(codegen::Instruction::Push(Operand::Reg(Register::Ax)));
                    }
                    proof {
                        assert(instructions@ =~= before + push_argument(args@[j - 1], *symbols));
                        assert(stack_pushes(args@, *symbols, j as int)
                            == push_argument(args@[j - 1], *symbols) + stack_pushes(args@, *symbols, j - 1));
                        assert(instructions@ + stack_pushes(args@, *symbols, j - 1)
                            =~= before + stack_pushes(args@, *symbols, j as int));
                    }
                    j = j - 1;
                }
                proof {
                    assert(stack_pushes(args@, *symbols, j as int) =~= seq![]);
                    assert(instructions@ =~= moved + stack_pushes(args@, *symbols, n as int));
                }
                instructions.push(codegen::Instruction::Call(name));
                if bytes_to_remove != 0 {
                    instructions.push(codegen::Instruction::deallocate_stack(bytes_to_remove));
                }
                let d = dst.lower();
                instructions.push(codegen::Instruction::Mov { ty, src: Operand::Reg(Register::Ax), dst: d });
                proof {
                    assert(instructions@ =~= start + call_sequence(name, args@, dst, *symbols));
                }
            },
            Instruction::SignExtend { src, dst } => {
                let src = src.lower();
                let dst = dst.lower();
                instructions.push(codegen::Instruction::Movsx { src, dst });
            },
            Instruction::Truncate { src, dst } => {
                let src = src.lower();
                let dst = dst.lower();
                instructions.push(codegen::Instruction::Mov { ty: AssemblyType::Longword, src, dst });
            },
        }
        proof {
            if !(self is FunctionCall) {
                assert(instructions@ =~= start + selected(self, *symbols));
            }
        }
    }
}

/// The assembly type of a parameter (a longword unless it is a `long`).
fn param_asm_type(t: &Type) -> (r: AssemblyType)
    ensures
        r == (if t@ is Long { AssemblyType::Quadword } else { AssemblyType::Longword }),
{
    match t.to_asm_type() {
        Some(a) => a,
        None => AssemblyType::Longword,
    }
}

/// The frame offset of stack parameter `i` (counting from the seventh).
fn stack_param_offset(i: usize) -> (r: i32)
    requires
        6 <= i < 0x1000_0000,
    ensures
        r == 8 * (i - 6) + 16,
{
    (8 * (i - 6) + 16) as i32
}

/// Whether every call of a body passes few enough arguments.
pub open spec fn calls_fit(body: Seq<Instruction>) -> bool {
    forall|k: int| 0 <= k < body.len() ==> call_fits(#[trigger] body[k])
}

/// The assembly of one IR instruction.
pub open spec fn instruction_code(i: Instruction, symbols: Symbols) -> Seq<codegen::Instruction> {
    match i {
        Instruction::FunctionCall { name, args, dst } => call_sequence(name, args@, dst, symbols),
        _ => selected(i, symbols),
    }
}

/// The assembly of a sequence of IR instructions, one after another.
pub open spec fn body_code(body: Seq<Instruction>, symbols: Symbols) -> Seq<codegen::Instruction>
    decreases body.len(),
{
    if body.len() == 0 {
        seq![]
    } else {
        body_code(body.drop_last(), symbols) + instruction_code(body.last(), symbols)
    }
}

/// The copy of each parameter from its register (the first six) or its
/// stack slot into its pseudo-register.
pub open spec fn param_moves(params: Seq<FunctionParameter>) -> Seq<codegen::Instruction> {
    Seq::new(params.len(), |i: int| codegen::Instruction::Mov {
        ty: if params[i].ty@ is Long { AssemblyType::Quadword } else { AssemblyType::Longword },
        src: if i < 6 { Operand::Reg(spec_arg_register(i)) } else { Operand::Stack((8 * (i - 6) + 16) as i32) },
        dst: Operand::Pseudo(params[i].name),
    })
}

impl FunctionDefinition {
    /// The assembly of a function: its parameters copied from their
    /// registers or stack slots into their pseudo-registers, then its body.
    pub fn lower(self, symbols: &Symbols) -> (r: codegen::FunctionDefinition)
        requires
            self.params@.len() < 0x1000_0000,
            calls_fit(self.body@),
        ensures
            r.name == self.name,
            r.global == self.global,
            r.instructions@.len() >= self.params@.len(),
            forall|i: int| 0 <= i < self.params@.len() && i < 6 ==> (#[trigger] r.instructions@[i] matches
                codegen::Instruction::Mov { src, dst, .. } && src == Operand::Reg(spec_arg_register(i))
                && dst == Operand::Pseudo(self.params@[i].name)),
            forall|i: int| 6 <= i < self.params@.len() ==> (#[trigger] r.instructions@[i] matches
                codegen::Instruction::Mov { src, dst, .. } && src == Operand::Stack((8 * (i - 6) + 16) as i32)
                && dst == Operand::Pseudo(self.params@[i].name)),
            r.instructions@ == param_moves(self.params@) + body_code(self.body@, *symbols),
    {
        let mut instructions: Vec<codegen::Instruction> = Vec::new();
        let FunctionDefinition { name, params, body, global } = self;
        let np = params.len();
        let mut i: usize = 0;
        while i < np
            invariant
                i <= np,
                np == params@.len(),
                np < 0x1000_0000,
                instructions@.len() == i,
                forall|j: int| 0 <= j < i && j < 6 ==> (#[trigger] instructions@[j] matches
                    codegen::Instruction::Mov { src, dst, .. } && src == Operand::Reg(spec_arg_register(j))
                    && dst == Operand::Pseudo(params@[j].name)),
                forall|j: int| 6 <= j < i ==> (#[trigger] instructions@[j] matches
                    codegen::Instruction::Mov { src, dst, .. } && src == Operand::Stack((8 * (j - 6) + 16) as i32)
                    && dst == Operand::Pseudo(params@[j].name)),
                instructions@ == param_moves(params@.take(i as int)),
            decreases np - i,
        {
            let ty = param_asm_type(&params[i].ty);
            let src = if i < 6 { Operand::Reg(arg_register(i)) } else { Operand::Stack(stack_param_offset(i)) };
            instructions.push(codegen::Instruction::Mov { ty, src, dst: Operand::Pseudo(params[i].name.clone()) });
            proof {
                assert(instructions@ =~= param_moves(params@.take(i + 1)));
            }
            i = i + 1;
        }
        proof {
            assert(params@.take(np as int) =~= params@);
        }
        let ghost head = instructions@;
        proof { lemma_prefix_refl(head); }
        let ghost orig = body;
        let mut body = body;
        let nb = body.len();
        let mut k: usize = 0;
        while k < nb
            invariant
                k <= nb,
                nb == orig@.len(),
                body@ == orig@.subrange(k as int, nb as int),
                calls_fit(orig@),
                head.is_prefix_of(instructions@),
                instructions@ == head + body_code(orig@.take(k as int), *symbols),
            decreases nb - k,
        {
            let instruction = body.remove(0);
            proof {
                assert(instruction == orig@[k as int]);
                assert(body@ =~= orig@.subrange(k + 1, nb as int));
            }
            let ghost before = instructions@;
            let ghost gi = instruction;
            instruction.lower(&mut instructions, symbols);
            proof {
                assert(orig@.take(k + 1).drop_last() =~= orig@.take(k as int));
                assert(orig@.take(k + 1).last() == gi);
                assert(instructions@ =~= head + body_code(orig@.take(k + 1), *symbols));
                if !(instruction is FunctionCall) {
                    assert(before.is_prefix_of(instructions@)) by {
                        assert(instructions@.subrange(0, before.len() as int) =~= before);
                    }
                }
            }
            k = k + 1;
        }
        proof {
            assert forall|j: int| 0 <= j < np implies #[trigger] instructions@[j] == head[j] by {
                lemma_prefix_index(head, instructions@, j);
            }
            assert(orig@.take(nb as int) =~= orig@);
        }
        codegen::FunctionDefinition { name, instructions, global }
    }
}

impl StaticVariable {
    pub fn lower(self) -> (r: codegen::StaticVariable)
        ensures
            r.name == self.name,
            r.global == self.global,
            r.init == self.init,
            r.alignment == (if self.ty@ is Int { 4u32 } else { 8u32 }),
    {
        let alignment = self.ty.alignment();
        codegen::StaticVariable { alignment, name: self.name, global: self.global, init: self.init }
    }
}

/// Whether a top-level item can be lowered.
pub open spec fn top_level_fits(t: TopLevel) -> bool {
    t matches TopLevel::F(f) ==> f.params@.len() < 0x1000_0000 && calls_fit(f.body@)
}

impl TopLevel {
    pub fn lower(self, symbols: &Symbols) -> (r: codegen::TopLevel)
        requires
            top_level_fits(self),
        ensures
            self is F <==> r is F,
            self matches TopLevel::F(f) ==> r->F_0.name == f.name && r->F_0.global == f.global
                && r->F_0.instructions@ == param_moves(f.params@) + body_code(f.body@, *symbols),
            self matches TopLevel::V(v) ==> r->V_0.name == v.name && r->V_0.init == v.init && r->V_0.global == v.global
                && r->V_0.alignment == (if v.ty@ is Int { 4u32 } else { 8u32 }),
    {
        match self {
            TopLevel::F(f) => codegen::TopLevel::F(f.lower(symbols)),
            TopLevel::V(v) => codegen::TopLevel::V(v.lower()),
        }
    }
}

/// What the code generator records of a symbol: the size and storage of an
/// object, whether a function is defined.
pub open spec fn asm_symbol_of(s: Symbol) -> AsmSymbol {
    match s.ty@ {
        TypeView::Function { defined, .. } => AsmSymbol::Function { defined },
        TypeView::Long => AsmSymbol::Object { ty: AssemblyType::Quadword, is_static: s.attributes is Static },
        TypeView::Int => AsmSymbol::Object { ty: AssemblyType::Longword, is_static: s.attributes is Static },
    }
}

fn asm_symbol(s: &Symbol) -> (r: AsmSymbol)
    ensures
        r == asm_symbol_of(*s),
{
    match &s.ty {
        Type::Int => AsmSymbol::Object { ty: AssemblyType::Longword, is_static: s.attributes.is_static() },
        Type::Long => AsmSymbol::Object { ty: AssemblyType::Quadword, is_static: s.attributes.is_static() },
        Type::Function(f) => {
            proof { crate::analysis::typechecking::lemma_function_view(*f); }
            AsmSymbol::Function { defined: f.defined }
        },
    }
}

/// The code generator's table has an entry for each name of the front end's,
/// converted.
pub proof fn lemma_entries_map_converted(front: Seq<(crate::parser::ast::Identifier, Symbol)>, back: Seq<(crate::parser::ast::Identifier, AsmSymbol)>)
    requires
        front.len() == back.len(),
        forall|k: int| 0 <= k < front.len() ==> (#[trigger] back[k]).0@ == front[k].0@ && back[k].1 == asm_symbol_of(front[k].1),
    ensures
        entries_map(back).dom() == entries_map(front).dom(),
        forall|key: Key| #[trigger] entries_map(back).dom().contains(key) ==> entries_map(back)[key] == asm_symbol_of(entries_map(front)[key]),
    decreases front.len(),
{
    if front.len() > 0 {
        lemma_entries_map_converted(front.drop_last(), back.drop_last());
        assert(entries_map(back).dom() =~= entries_map(front).dom());
    }
}

impl Program {
    /// Whether every function is small enough for instruction selection:
    /// fewer than 2^28 parameters and arguments to each call.
    pub fn fits(&self) -> (r: bool)
        ensures
            r == forall|k: int| 0 <= k < self.0@.len() ==> top_level_fits(#[trigger] self.0@[k]),
    {
        let mut k: usize = 0;
        while k < self.0.len()
            invariant
                k <= self.0@.len(),
                forall|j: int| 0 <= j < k ==> top_level_fits(#[trigger] self.0@[j]),
            decreases self.0@.len() - k,
        {
            if let TopLevel::F(f) = &self.0[k] {
                if f.params.len() >= 0x1000_0000 {
                    return false;
                }
                let mut i: usize = 0;
                while i < f.body.len()
                    invariant
                        k < self.0@.len(),
                        self.0@[k as int] == TopLevel::F(*f),
                        i <= f.body@.len(),
                        forall|j: int| 0 <= j < i ==> call_fits(#[trigger] f.body@[j]),
                    decreases f.body@.len() - i,
                {
                    if let Instruction::FunctionCall { args, .. } = &f.body[i] {
                        if args.len() >= 0x1000_0000 {
                            proof {
                                assert(!call_fits(f.body@[i as int]));
                                assert(!calls_fit(f.body@));
                                assert(!top_level_fits(self.0@[k as int]));
                            }
                            return false;
                        }
                    }
                    i = i + 1;
                }
            }
            k = k + 1;
        }
        true
    }
}

impl Program {
    /// Lowers every top-level item, and records in `asm_symbols` what the code
    /// generator needs of each symbol.
    pub fn lower(self, symbols: &Symbols, asm_symbols: &mut AsmSymbols) -> (r: codegen::Program)
        requires
            forall|k: int| 0 <= k < self.0@.len() ==> top_level_fits(#[trigger] self.0@[k]),
        ensures
            r.0@.len() == self.0@.len(),
            forall|k: int| 0 <= k < r.0@.len() ==> (#[trigger] r.0@[k] is F <==> self.0@[k] is F),
            forall|k: int| 0 <= k < r.0@.len() ==> (#[trigger] self.0@[k] matches TopLevel::F(f) ==> {
                &&& r.0@[k]->F_0.name == f.name
                &&& r.0@[k]->F_0.global == f.global
                &&& r.0@[k]->F_0.instructions@ == param_moves(f.params@) + body_code(f.body@, *symbols)
            }),
            forall|k: int| 0 <= k < r.0@.len() ==> (#[trigger] self.0@[k] matches TopLevel::V(v)
                ==> r.0@[k]->V_0.name == v.name && r.0@[k]->V_0.init == v.init && r.0@[k]->V_0.global == v.global
                && r.0@[k]->V_0.alignment == (if v.ty@ is Int { 4u32 } else { 8u32 })),
            final(asm_symbols)@.dom() == symbols@.dom(),
            forall|key: Key| #[trigger] final(asm_symbols)@.dom().contains(key) ==> final(asm_symbols)@[key] == asm_symbol_of(symbols@[key]),
    {
        let ghost orig = self.0;
        let mut items = self.0;
        let mut lowered: Vec<codegen::TopLevel> = Vec::new();
        let n = items.len();
        let mut k: usize = 0;
        while k < n
            invariant
                k <= n,
                n == orig@.len(),
                items@ == orig@.subrange(k as int, n as int),
                forall|j: int| 0 <= j < n ==> top_level_fits(#[trigger] orig@[j]),
                lowered@.len() == k,
                forall|j: int| 0 <= j < k ==> (#[trigger] lowered@[j] is F <==> orig@[j] is F),
                forall|j: int| 0 <= j < k ==> (#[trigger] orig@[j] matches TopLevel::F(f) ==> {
                    &&& lowered@[j]->F_0.name == f.name
                    &&& lowered@[j]->F_0.global == f.global
                    &&& lowered@[j]->F_0.instructions@ == param_moves(f.params@) + body_code(f.body@, *symbols)
                }),
                forall|j: int| 0 <= j < k ==> (#[trigger] orig@[j] matches TopLevel::V(v)
                    ==> lowered@[j]->V_0.name == v.name && lowered@[j]->V_0.init == v.init && lowered@[j]->V_0.global == v.global
                    && lowered@[j]->V_0.alignment == (if v.ty@ is Int { 4u32 } else { 8u32 })),
            decreases n - k,
        {
            let item = items.remove(0);
            proof {
                assert(item == orig@[k as int]);
                assert(items@ =~= orig@.subrange(k + 1, n as int));
            }
            lowered.push(item.lower(symbols));
            k = k + 1;
        }
        let mut backend: AsmSymbols = Table::new();
        let m = symbols.entries.len();
        let mut i: usize = 0;
        while i < m
            invariant
                i <= m,
                m == symbols.entries@.len(),
                backend.entries@.len() == i,
                forall|j: int| 0 <= j < i ==> (#[trigger] backend.entries@[j]).0@ == symbols.entries@[j].0@
                    && backend.entries@[j].1 == asm_symbol_of(symbols.entries@[j].1),
            decreases m - i,
        {
            let s = asm_symbol(&symbols.entries[i].1);
            backend.insert(symbols.entries[i].0.clone(), s);
            i = i + 1;
        }
        proof {
            lemma_entries_map_converted(symbols.entries@, backend.entries@);
        }
        codegen::set_asm_symbol_table(asm_symbols, backend);
        codegen::Program(lowered)
    }
}

/// A machine state: the values that registers and pseudoregisters hold, and
/// the two values that the last comparison compared (its destination, then
/// its source).
pub type MachineState = (Map<Operand, int>, int, int);

/// The value an operand holds; an immediate holds itself.
pub open spec fn operand_value(s: MachineState, o: Operand) -> int {
    match o {
        Operand::Imm(v) => v as int,
        _ => s.0[o],
    }
}

/// Whether a condition code holds after comparing `l` with `r`.
pub open spec fn condition_holds(cc: CondCode, l: int, r: int) -> bool {
    match cc {
        CondCode::Eq => l == r,
        CondCode::Ne => l != r,
        CondCode::Gt => l > r,
        CondCode::Ge => l >= r,
        CondCode::Lt => l < r,
        CondCode::Le => l <= r,
    }
}

/// What the instructions that operations are lowered to do, on values that
/// fit, as x86-64 defines them (AT&T order: source, then destination):
/// `mov` and `movslq` copy; `add`, `sub`, `imul` combine the destination with the
/// source; `neg` negates and `not` complements; `cmp` compares its
/// destination with its source, and `setCC` writes 1 or 0 as the condition
/// holds; `cdq`/`cqo` fill `%edx` with the sign of `%eax`; `idiv` divides
/// `%edx:%eax` (when `%edx` holds that sign) by its operand, rounding toward
/// zero, and leaves the quotient in `%eax` and the remainder in `%edx`.
/// Other instructions are not described.
pub open spec fn machine_step(s: MachineState, i: codegen::Instruction) -> MachineState {
    let ax = Operand::Reg(Register::Ax);
    let dx = Operand::Reg(Register::Dx);
    match i {
        codegen::Instruction::Mov { src, dst, .. } => (s.0.insert(dst, operand_value(s, src)), s.1, s.2),
        codegen::Instruction::Binary { operator, src, dst, .. } => {
            let d = operand_value(s, dst);
            let v = operand_value(s, src);
            let r = match operator {
                codegen::BinaryOperator::Add => d + v,
                codegen::BinaryOperator::Sub => d - v,
                codegen::BinaryOperator::Mul => d * v,
                _ => arbitrary(),
            };
            (s.0.insert(dst, r), s.1, s.2)
        },
        codegen::Instruction::Unary { operator, operand, .. } => {
            let v = operand_value(s, operand);
            let r = match operator {
                codegen::UnaryOperator::Negate => -v,
                codegen::UnaryOperator::BitwiseNot => -v - 1,
                _ => arbitrary(),
            };
            (s.0.insert(operand, r), s.1, s.2)
        },
        codegen::Instruction::Movsx { src, dst } => (s.0.insert(dst, operand_value(s, src)), s.1, s.2),
        codegen::Instruction::Cmp(_, a, b) => (s.0, operand_value(s, b), operand_value(s, a)),
        codegen::Instruction::SetCC(cc, o) => (s.0.insert(o, if condition_holds(cc, s.1, s.2) { 1 } else { 0 }), s.1, s.2),
        codegen::Instruction::Cdq(_) => (s.0.insert(dx, if s.0[ax] < 0 { -1 } else { 0 }), s.1, s.2),
        codegen::Instruction::Idiv(_, o) => if s.0[dx] == (if s.0[ax] < 0 { -1int } else { 0int }) {
            (s.0.insert(ax, crate::parser::eval::trunc_div(s.0[ax], operand_value(s, o)))
                .insert(dx, crate::parser::eval::trunc_rem(s.0[ax], operand_value(s, o))), s.1, s.2)
        } else {
            arbitrary()
        },
        _ => arbitrary(),
    }
}

/// The machine state after running `code` from `s`, one instruction after
/// another.
pub open spec fn machine_run(s: MachineState, code: Seq<codegen::Instruction>) -> MachineState
    decreases code.len(),
{
    if code.len() == 0 {
        s
    } else {
        machine_run(machine_step(s, code[0]), code.drop_first())
    }
}

pub(crate) proof fn lemma_run_one(s: MachineState, code: Seq<codegen::Instruction>)
    requires
        code.len() == 1,
    ensures
        machine_run(s, code) == machine_step(s, code[0]),
{
    let rest = code.drop_first();
    assert(rest =~= Seq::<codegen::Instruction>::empty());
    assert(machine_run(s, code) == machine_run(machine_step(s, code[0]), rest));
    assert(machine_run(machine_step(s, code[0]), rest) == machine_step(s, code[0]));
}

pub(crate) proof fn lemma_run_two(s: MachineState, code: Seq<codegen::Instruction>)
    requires
        code.len() == 2,
    ensures
        machine_run(s, code) == machine_step(machine_step(s, code[0]), code[1]),
{
    let c1 = code.drop_first();
    let s1 = machine_step(s, code[0]);
    assert(c1 =~= seq![code[1]]);
    assert(c1.drop_first() =~= Seq::<codegen::Instruction>::empty());
    assert(machine_run(s, code) == machine_run(s1, c1));
    assert(machine_run(s1, c1) == machine_run(machine_step(s1, c1[0]), c1.drop_first()));
}

pub(crate) proof fn lemma_run_three(s: MachineState, code: Seq<codegen::Instruction>)
    requires
        code.len() == 3,
    ensures
        machine_run(s, code) == machine_step(machine_step(machine_step(s, code[0]), code[1]), code[2]),
{
    let c1 = code.drop_first();
    assert(c1 =~= seq![code[1], code[2]]);
    assert(machine_run(s, code) == machine_run(machine_step(s, code[0]), c1));
    lemma_run_two(machine_step(s, code[0]), c1);
}

pub(crate) proof fn lemma_run_four(s: MachineState, code: Seq<codegen::Instruction>)
    requires
        code.len() == 4,
    ensures
        machine_run(s, code) == machine_step(machine_step(machine_step(machine_step(s, code[0]), code[1]), code[2]), code[3]),
{
    let c1 = code.drop_first();
    assert(c1 =~= seq![code[1], code[2], code[3]]);
    assert(machine_run(s, code) == machine_run(machine_step(s, code[0]), c1));
    lemma_run_three(machine_step(s, code[0]), c1);
}

/// The code selected for an IR arithmetic operation or comparison leaves in
/// its destination what the operation computes on its operands' values
/// (`ir::binary_value`): `%` the remainder that `idiv` leaves in `%edx`, `/`
/// the quotient in `%eax`, `>=` 1 exactly when the left operand is at least
/// the right one. The destination is a variable; for `+ - *`, whose code
/// first copies the left operand into the destination, it is not the right
/// operand.
pub proof fn lemma_binary_selected(
    operator: BinaryOperator, lhs: Value, rhs: Value, dst: Value, symbols: Symbols, s: MachineState,
)
    requires
        operator == BinaryOperator::Add || operator == BinaryOperator::Subtract || operator == BinaryOperator::Multiply
            || operator == BinaryOperator::Divide || operator == BinaryOperator::Remainder
            || comparison_code(operator) is Some,
        dst is Var,
        operator == BinaryOperator::Add || operator == BinaryOperator::Subtract || operator == BinaryOperator::Multiply
            ==> value_operand(dst) != value_operand(rhs),
    ensures
        operand_value(machine_run(s, selected(Instruction::Binary { operator, lhs, rhs, dst }, symbols)), value_operand(dst))
            == crate::ir::binary_value(operator, operand_value(s, value_operand(lhs)), operand_value(s, value_operand(rhs))),
{
    let code = selected(Instruction::Binary { operator, lhs, rhs, dst }, symbols);
    let x = operand_value(s, value_operand(lhs));
    let y = operand_value(s, value_operand(rhs));
    let ax = Operand::Reg(Register::Ax);
    let dx = Operand::Reg(Register::Dx);
    let d = value_operand(dst);
    if operator == BinaryOperator::Divide || operator == BinaryOperator::Remainder {
        lemma_run_four(s, code);
        let s1 = machine_step(s, code[0]);
        assert(s1.0[ax] == x);
        assert(operand_value(s1, value_operand(rhs)) == y);
        let s2 = machine_step(s1, code[1]);
        assert(operand_value(s2, value_operand(rhs)) == y);
        let s3 = machine_step(s2, code[2]);
        assert(s3.0[ax] == crate::parser::eval::trunc_div(x, y));
        assert(s3.0[dx] == crate::parser::eval::trunc_rem(x, y));
    } else if comparison_code(operator) is Some {
        lemma_run_three(s, code);
        let s1 = machine_step(s, code[0]);
        assert(s1.1 == x && s1.2 == y);
    } else {
        lemma_run_two(s, code);
        let s1 = machine_step(s, code[0]);
        assert(operand_value(s1, d) == x);
        assert(operand_value(s1, value_operand(rhs)) == y);
    }
}

/// The code selected for an IR unary operation leaves in its destination
/// what the operation computes on its operand's value (`ir::unary_value`).
/// The destination is a variable.
pub proof fn lemma_unary_selected(operator: UnaryOperator, src: Value, dst: Value, symbols: Symbols, s: MachineState)
    requires
        dst is Var,
    ensures
        operand_value(machine_run(s, selected(Instruction::Unary { operator, src, dst }, symbols)), value_operand(dst))
            == crate::ir::unary_value(operator, operand_value(s, value_operand(src))),
{
    let code = selected(Instruction::Unary { operator, src, dst }, symbols);
    if operator == UnaryOperator::Not {
        lemma_run_three(s, code);
    } else {
        lemma_run_two(s, code);
    }
}

} // verus!
