//! The passes that turn selected instructions into encodable x86-64: stack
//! slots for pseudo-registers, the frame, and the rewrites of operand
//! combinations the processor does not accept.
use vstd::prelude::*;
use crate::codegen::data::{
    AsmSymbol, AsmSymbols, AssemblyType, BinaryOperator, FunctionDefinition, Instruction, Operand, Program, Register,
    TopLevel, spec_cant_have_double_memory, spec_cant_have_large_imm, spec_is_memory, spec_size_bytes,
};
use crate::parser::ast::Identifier;
use crate::table::Table;
use crate::utils::{align_to, can_fit_in_i32, round_up_16, spec_align_to, spec_can_fit_in_i32};

verus! {

broadcast use vstd::std_specs::vec::axiom_spec_len;

pub open spec fn r10() -> Operand {
    Operand::Reg(Register::R10)
}

pub open spec fn r11() -> Operand {
    Operand::Reg(Register::R11)
}

/// The instructions `f` expands each of `s` into, in order.
pub open spec fn expand_all(s: Seq<Instruction>, f: spec_fn(Instruction) -> Seq<Instruction>) -> Seq<Instruction>
    decreases s.len(),
{
    if s.len() == 0 {
        seq![]
    } else {
        expand_all(s.drop_last(), f) + f(s.last())
    }
}

/// Every instruction of an expansion meets `p` when every expansion of one
/// instruction does.
pub proof fn lemma_expand_all_preserves(s: Seq<Instruction>, f: spec_fn(Instruction) -> Seq<Instruction>, p: spec_fn(Instruction) -> bool, q: spec_fn(Instruction) -> bool)
    requires
        forall|k: int| 0 <= k < s.len() ==> q(#[trigger] s[k]),
        forall|i: Instruction, k: int| q(i) && 0 <= k < f(i).len() ==> p(#[trigger] f(i)[k]),
    ensures
        forall|k: int| 0 <= k < expand_all(s, f).len() ==> p(#[trigger] expand_all(s, f)[k]),
    decreases s.len(),
{
    if s.len() > 0 {
        lemma_expand_all_preserves(s.drop_last(), f, p, q);
        let a = expand_all(s.drop_last(), f);
        let b = f(s.last());
        assert(q(s[s.len() - 1]));
        assert forall|k: int| 0 <= k < expand_all(s, f).len() implies p(#[trigger] expand_all(s, f)[k]) by {
            if k < a.len() {
                assert(expand_all(s, f)[k] == a[k]);
            } else {
                assert(expand_all(s, f)[k] == b[k - a.len()]);
            }
        }
    }
}

/// Rewrites each instruction of `instructions` by `f`, whose expansions
/// `spec` gives.
fn expand_instructions(instructions: &Vec<Instruction>, spec: Ghost<spec_fn(Instruction) -> Seq<Instruction>>, kind: u8) -> (r: Vec<Instruction>)
    requires
        kind < 4,
        spec@ == expansion_of_kind(kind),
    ensures
        r@ == expand_all(instructions@, spec@),
{
    let mut out: Vec<Instruction> = Vec::new();
    let mut k: usize = 0;
    while k < instructions.len()
        invariant
            k <= instructions@.len(),
            out@ == expand_all(instructions@.take(k as int), spec@),
            spec@ == expansion_of_kind(kind),
            kind < 4,
        decreases instructions@.len() - k,
    {
        let e = expand_one(&instructions[k], kind);
        proof {
            assert(instructions@.take(k + 1).drop_last() =~= instructions@.take(k as int));
        }
        let mut j: usize = 0;
        let ghost base = out@;
        while j < e.len()
            invariant
                j <= e@.len(),
                out@ == base + e@.take(j as int),
            decreases e@.len() - j,
        {
            out.push(e[j].clone());
            proof {
                assert(e@.take(j + 1) =~= e@.take(j as int).push(e@[j as int]));
            }
            j = j + 1;
        }
        proof {
            assert(e@.take(e@.len() as int) =~= e@);
        }
        k = k + 1;
    }
    proof {
        assert(instructions@.take(instructions@.len() as int) =~= instructions@);
    }
    out
}

/// The rewrite of an instruction with two memory operands where x86 allows
/// one, a shift count in memory, a comparison with an immediate second
/// operand, and a sign extension from an immediate or into memory.
pub open spec fn fix_double_memory(i: Instruction) -> Seq<Instruction> {
    match i {
        Instruction::Mov { ty, src, dst } => if spec_is_memory(src) && spec_is_memory(dst) {
            seq![Instruction::Mov { ty, src, dst: r10() }, Instruction::Mov { ty, src: r10(), dst }]
        } else {
            seq![i]
        },
        Instruction::Binary { ty, operator, src, dst } => if spec_cant_have_double_memory(operator) && spec_is_memory(src) && spec_is_memory(dst) {
            seq![Instruction::Mov { ty, src, dst: r10() }, Instruction::Binary { ty, operator, src: r10(), dst }]
        } else if (operator == BinaryOperator::LeftShift || operator == BinaryOperator::RightShift) && spec_is_memory(src) {
            seq![
                Instruction::Mov { ty, src, dst: Operand::Reg(Register::Cx) },
                Instruction::Binary { ty, operator, src: Operand::Reg(Register::Cx), dst },
            ]
        } else {
            seq![i]
        },
        Instruction::Cmp(ty, a, b) => if spec_is_memory(a) && spec_is_memory(b) {
            seq![Instruction::Mov { ty, src: a, dst: r10() }, Instruction::Cmp(ty, r10(), b)]
        } else if b is Imm {
            seq![Instruction::Mov { ty, src: b, dst: r11() }, Instruction::Cmp(ty, a, r11())]
        } else {
            seq![i]
        },
        Instruction::Movsx { src, dst } => {
            let inner = if src is Imm { r10() } else { src };
            let pre = if src is Imm { seq![Instruction::Mov { ty: AssemblyType::Longword, src, dst: r10() }] } else { seq![] };
            if spec_is_memory(dst) {
                pre + seq![Instruction::Movsx { src: inner, dst: r11() }, Instruction::Mov { ty: AssemblyType::Quadword, src: r11(), dst }]
            } else {
                pre + seq![Instruction::Movsx { src: inner, dst }]
            }
        },
        _ => seq![i],
    }
}

/// `imul` cannot write to memory: the product goes through `%r11`.
pub open spec fn fix_imul(i: Instruction) -> Seq<Instruction> {
    match i {
        Instruction::Binary { ty, operator, src, dst } => if operator == BinaryOperator::Mul && spec_is_memory(dst) {
            seq![
                Instruction::Mov { ty, src: dst, dst: r11() },
                Instruction::Binary { ty, operator, src, dst: r11() },
                Instruction::Mov { ty, src: r11(), dst },
            ]
        } else {
            seq![i]
        },
        _ => seq![i],
    }
}

/// `idiv` cannot take an immediate: it goes through `%r10`.
pub open spec fn fix_idiv(i: Instruction) -> Seq<Instruction> {
    match i {
        Instruction::Idiv(ty, operand) => if operand is Imm {
            seq![Instruction::Mov { ty, src: operand, dst: r10() }, Instruction::Idiv(ty, r10())]
        } else {
            seq![i]
        },
        _ => seq![i],
    }
}

pub open spec fn large_imm(o: Operand) -> bool {
    o matches Operand::Imm(n) && !spec_can_fit_in_i32(n as int)
}

/// A quadword immediate that does not fit in 32 bits goes through `%r10`
/// where x86 takes only 32-bit immediates.
pub open spec fn fix_large_imm(i: Instruction) -> Seq<Instruction> {
    match i {
        Instruction::Mov { ty, src, dst } => if ty == AssemblyType::Quadword && spec_is_memory(dst) && large_imm(src) {
            seq![Instruction::Mov { ty, src, dst: r10() }, Instruction::Mov { ty, src: r10(), dst }]
        } else {
            seq![i]
        },
        Instruction::Binary { ty, operator, src, dst } => if spec_cant_have_large_imm(operator) && ty == AssemblyType::Quadword && large_imm(src) {
            seq![Instruction::Mov { ty, src, dst: r10() }, Instruction::Binary { ty, operator, src: r10(), dst }]
        } else {
            seq![i]
        },
        Instruction::Cmp(ty, src, dst) => if ty == AssemblyType::Quadword && large_imm(src) {
            seq![Instruction::Mov { ty, src, dst: r10() }, Instruction::Cmp(ty, r10(), dst)]
        } else {
            seq![i]
        },
        Instruction::Push(op) => if large_imm(op) {
            seq![Instruction::Mov { ty: AssemblyType::Quadword, src: op, dst: r10() }, Instruction::Push(r10())]
        } else {
            seq![i]
        },
        _ => seq![i],
    }
}

pub open spec fn expansion_of_kind(kind: u8) -> spec_fn(Instruction) -> Seq<Instruction> {
    if kind == 0 {
        |i: Instruction| fix_double_memory(i)
    } else if kind == 1 {
        |i: Instruction| fix_imul(i)
    } else if kind == 2 {
        |i: Instruction| fix_idiv(i)
    } else {
        |i: Instruction| fix_large_imm(i)
    }
}

fn is_memory(o: &Operand) -> (r: bool)
    ensures
        r == spec_is_memory(*o),
{
    o.is_memory()
}

fn is_large_imm(o: &Operand) -> (r: bool)
    ensures
        r == large_imm(*o),
{
    match o {
        Operand::Imm(n) => !can_fit_in_i32(*n),
        _ => false,
    }
}

/// The expansion of one instruction by the rewrite `kind`.
fn expand_one(i: &Instruction, kind: u8) -> (r: Vec<Instruction>)
    requires
        kind < 4,
    ensures
        r@ == (expansion_of_kind(kind))(*i),
{
    let r10 = Operand::Reg(Register::R10);
    let r11 = Operand::Reg(Register::R11);
    if kind == 0 {
        match i {
            Instruction::Mov { ty, src, dst } => if is_memory(src) && is_memory(dst) {
                return vec![
                    Instruction::Mov { ty: *ty, src: src.clone(), dst: r10.clone() },
                    Instruction::Mov { ty: *ty, src: r10, dst: dst.clone() },
                ];
            },
            Instruction::Binary { ty, operator, src, dst } => {
                if operator.cant_have_double_memory() && is_memory(src) && is_memory(dst) {
                    return vec![
                        Instruction::Mov { ty: *ty, src: src.clone(), dst: r10.clone() },
                        Instruction::Binary { ty: *ty, operator: *operator, src: r10, dst: dst.clone() },
                    ];
                } else if operator.is_shift() && is_memory(src) {
                    return vec![
                        Instruction::Mov { ty: *ty, src: src.clone(), dst: Operand::Reg(Register::Cx) },
                        Instruction::Binary { ty: *ty, operator: *operator, src: Operand::Reg(Register::Cx), dst: dst.clone() },
                    ];
                }
            },
            Instruction::Cmp(ty, a, b) => {
                if is_memory(a) && is_memory(b) {
                    return vec![Instruction::Mov { ty: *ty, src: a.clone(), dst: r10.clone() }, Instruction::Cmp(*ty, r10, b.clone())];
                } else if b.is_constant() {
                    return vec![Instruction::Mov { ty: *ty, src: b.clone(), dst: r11.clone() }, Instruction::Cmp(*ty, a.clone(), r11)];
                }
            },
            Instruction::Movsx { src, dst } => {
                let mut out: Vec<Instruction> = Vec::new();
                let inner = if src.is_constant() {
                    out.push(Instruction::Mov { ty: AssemblyType::Longword, src: src.clone(), dst: r10.clone() });
                    r10
                } else {
                    src.clone()
                };
                if is_memory(dst) {
                    out.push(Instruction::Movsx { src: inner, dst: r11.clone() });
                    out.push(Instruction::Mov { ty: AssemblyType::Quadword, src: r11, dst: dst.clone() });
                } else {
                    out.push(Instruction::Movsx { src: inner, dst: dst.clone() });
                }
                proof {
                    assert(out@ =~= fix_double_memory(*i));
                }
                return out;
            },
            _ => {},
        }
    } else if kind == 1 {
        match i {
            Instruction::Binary { ty, operator, src, dst } => if operator.is_mult() && is_memory(dst) {
                return vec![
                    Instruction::Mov { ty: *ty, src: dst.clone(), dst: r11.clone() },
                    Instruction::Binary { ty: *ty, operator: *operator, src: src.clone(), dst: r11.clone() },
                    Instruction::Mov { ty: *ty, src: r11, dst: dst.clone() },
                ];
            },
            _ => {},
        }
    } else if kind == 2 {
        match i {
            Instruction::Idiv(ty, operand) => if operand.is_constant() {
                return vec![Instruction::Mov { ty: *ty, src: operand.clone(), dst: r10.clone() }, Instruction::Idiv(*ty, r10)];
            },
            _ => {},
        }
    } else {
        match i {
            Instruction::Mov { ty, src, dst } => if ty.is_quadword() && is_memory(dst) && is_large_imm(src) {
                return vec![
                    Instruction::Mov { ty: *ty, src: src.clone(), dst: r10.clone() },
                    Instruction::Mov { ty: *ty, src: r10, dst: dst.clone() },
                ];
            },
            Instruction::Binary { ty, operator, src, dst } => if operator.cant_have_large_imm() && ty.is_quadword() && is_large_imm(src) {
                return vec![
                    Instruction::Mov { ty: *ty, src: src.clone(), dst: r10.clone() },
                    Instruction::Binary { ty: *ty, operator: *operator, src: r10, dst: dst.clone() },
                ];
            },
            Instruction::Cmp(ty, src, dst) => if ty.is_quadword() && is_large_imm(src) {
                return vec![Instruction::Mov { ty: *ty, src: src.clone(), dst: r10.clone() }, Instruction::Cmp(*ty, r10, dst.clone())];
            },
            Instruction::Push(op) => if is_large_imm(op) {
                return vec![Instruction::Mov { ty: AssemblyType::Quadword, src: op.clone(), dst: r10.clone() }, Instruction::Push(r10)];
            },
            _ => {},
        }
    }
    vec![i.clone()]
}

/// Splits every instruction that has two memory operands where x86 allows
/// one (and the other operand combinations `fix_double_memory` lists).
pub fn rewrite_invalid_double_memory_instructions(function: &mut FunctionDefinition)
    ensures
        final(function).name == old(function).name,
        final(function).global == old(function).global,
        final(function).instructions@ == expand_all(old(function).instructions@, |i: Instruction| fix_double_memory(i)),
{
    function.instructions = expand_instructions(&function.instructions, Ghost(|i: Instruction| fix_double_memory(i)), 0);
}

/// Routes every `imul` whose destination is in memory through `%r11`.
pub fn rewrite_invalid_imul_memory_dst(function: &mut FunctionDefinition)
    ensures
        final(function).name == old(function).name,
        final(function).global == old(function).global,
        final(function).instructions@ == expand_all(old(function).instructions@, |i: Instruction| fix_imul(i)),
{
    function.instructions = expand_instructions(&function.instructions, Ghost(|i: Instruction| fix_imul(i)), 1);
}

/// Moves every immediate divisor into `%r10`.
pub fn rewrite_constant_idiv_operands(function: &mut FunctionDefinition)
    ensures
        final(function).name == old(function).name,
        final(function).global == old(function).global,
        final(function).instructions@ == expand_all(old(function).instructions@, |i: Instruction| fix_idiv(i)),
{
    function.instructions = expand_instructions(&function.instructions, Ghost(|i: Instruction| fix_idiv(i)), 2);
}

/// Moves every quadword immediate that does not fit in 32 bits into `%r10`
/// where an instruction takes only a 32-bit immediate.
pub fn rewrite_large_imm_values(function: &mut FunctionDefinition)
    ensures
        final(function).name == old(function).name,
        final(function).global == old(function).global,
        final(function).instructions@ == expand_all(old(function).instructions@, |i: Instruction| fix_large_imm(i)),
{
    function.instructions = expand_instructions(&function.instructions, Ghost(|i: Instruction| fix_large_imm(i)), 3);
}

/// A `movl` of an immediate that does not fit in 32 bits moves its low 32
/// bits (sign-extended back into the operand).
pub open spec fn truncated(i: Instruction) -> Instruction {
    match i {
        Instruction::Mov { ty, src: Operand::Imm(n), dst } => if ty == AssemblyType::Longword && !spec_can_fit_in_i32(n as int) {
            Instruction::Mov { ty, src: Operand::Imm((n as i32) as i64), dst }
        } else {
            i
        },
        _ => i,
    }
}

fn truncate_one(n: i64) -> (r: i64)
    ensures
        r == (n as i32) as i64,
{
    (n as i32) as i64
}

/// Truncates the immediates of `movl` instructions to 32 bits.
pub fn truncate_movl_imm_value(function: &mut FunctionDefinition)
    ensures
        final(function).name == old(function).name,
        final(function).global == old(function).global,
        final(function).instructions@.len() == old(function).instructions@.len(),
        forall|k: int| 0 <= k < final(function).instructions@.len() ==> #[trigger] final(function).instructions@[k]
            == truncated(old(function).instructions@[k]),
{
    let n = function.instructions.len();
    let mut k: usize = 0;
    while k < n
        invariant
            k <= n,
            n == function.instructions@.len(),
            function.name == old(function).name,
            function.global == old(function).global,
            forall|j: int| 0 <= j < k ==> #[trigger] function.instructions@[j] == truncated(old(function).instructions@[j]),
            forall|j: int| k <= j < n ==> #[trigger] function.instructions@[j] == old(function).instructions@[j],
        decreases n - k,
    {
        let replacement = match &function.instructions[k] {
            Instruction::Mov { ty, src: Operand::Imm(v), dst } => {
                if *ty == AssemblyType::Longword && !can_fit_in_i32(*v) {
                    Some(Instruction::Mov { ty: *ty, src: Operand::Imm(truncate_one(*v)), dst: dst.clone() })
                } else {
                    None
                }
            },
            _ => None,
        };
        match replacement {
            Some(r) => {
                function.instructions.set(k, r);
            },
            None => {},
        }
        k = k + 1;
    }
}

/// Opens the frame: `subq` of the bytes required, rounded up to 16, at the
/// start of the function.
pub fn allocate_stack_space(function: &mut FunctionDefinition, bytes_required: u32)
    requires
        bytes_required <= 0x7fff_0000,
    ensures
        final(function).name == old(function).name,
        final(function).global == old(function).global,
        final(function).instructions@ == seq![Instruction::Binary {
            ty: AssemblyType::Quadword,
            operator: BinaryOperator::Sub,
            src: Operand::Imm(spec_align_to(bytes_required as int, 16) as i64),
            dst: Operand::Reg(Register::StackPointer),
        }] + old(function).instructions@,
{
    proof {
        crate::utils::lemma_align_to_bounds(bytes_required as int, 16);
    }
    let bytes = round_up_16(bytes_required);
    function.instructions.insert(0, Instruction::allocate_stack(bytes));
    proof {
        assert(function.instructions@ =~= seq![Instruction::Binary {
            ty: AssemblyType::Quadword,
            operator: BinaryOperator::Sub,
            src: Operand::Imm(bytes as i64),
            dst: Operand::Reg(Register::StackPointer),
        }] + old(function).instructions@);
    }
}

/// Whether `n` is operand `o` with its pseudo-register, if it is one, given a
/// place: the static object of that name, or a stack slot in the frame of
/// `bytes` bytes.
pub open spec fn operand_replaced(o: Operand, n: Operand, bytes: int) -> bool {
    match o {
        Operand::Pseudo(x) => n == Operand::Data(x) || (n matches Operand::Stack(off) && -bytes <= off < 0),
        _ => n == o,
    }
}

/// Whether `n` is instruction `o` with its pseudo-registers given places.
pub open spec fn instruction_replaced(o: Instruction, n: Instruction, bytes: int) -> bool {
    match (o, n) {
        (Instruction::Mov { ty: t1, src: s1, dst: d1 }, Instruction::Mov { ty: t2, src: s2, dst: d2 }) =>
            t1 == t2 && operand_replaced(s1, s2, bytes) && operand_replaced(d1, d2, bytes),
        (Instruction::Movsx { src: s1, dst: d1 }, Instruction::Movsx { src: s2, dst: d2 }) =>
            operand_replaced(s1, s2, bytes) && operand_replaced(d1, d2, bytes),
        (Instruction::Unary { ty: t1, operator: p1, operand: a1 }, Instruction::Unary { ty: t2, operator: p2, operand: a2 }) =>
            t1 == t2 && p1 == p2 && operand_replaced(a1, a2, bytes),
        (Instruction::Binary { ty: t1, operator: p1, src: s1, dst: d1 }, Instruction::Binary { ty: t2, operator: p2, src: s2, dst: d2 }) =>
            t1 == t2 && p1 == p2 && operand_replaced(s1, s2, bytes) && operand_replaced(d1, d2, bytes),
        (Instruction::Cmp(t1, a1, b1), Instruction::Cmp(t2, a2, b2)) =>
            t1 == t2 && operand_replaced(a1, a2, bytes) && operand_replaced(b1, b2, bytes),
        (Instruction::Idiv(t1, a1), Instruction::Idiv(t2, a2)) => t1 == t2 && operand_replaced(a1, a2, bytes),
        (Instruction::SetCC(c1, a1), Instruction::SetCC(c2, a2)) => c1 == c2 && operand_replaced(a1, a2, bytes),
        (Instruction::Push(a1), Instruction::Push(a2)) => operand_replaced(a1, a2, bytes),
        _ => n == o && !has_operand(o),
    }
}

/// Whether an instruction has operands.
pub open spec fn has_operand(i: Instruction) -> bool {
    i is Mov || i is Movsx || i is Unary || i is Binary || i is Cmp || i is Idiv || i is SetCC || i is Push
}

/// Whether no operand of an instruction is a pseudo-register.
pub open spec fn no_pseudo(i: Instruction) -> bool {
    match i {
        Instruction::Mov { src, dst, .. } => !(src is Pseudo) && !(dst is Pseudo),
        Instruction::Movsx { src, dst } => !(src is Pseudo) && !(dst is Pseudo),
        Instruction::Unary { operand, .. } => !(operand is Pseudo),
        Instruction::Binary { src, dst, .. } => !(src is Pseudo) && !(dst is Pseudo),
        Instruction::Cmp(_, a, b) => !(a is Pseudo) && !(b is Pseudo),
        Instruction::Idiv(_, a) => !(a is Pseudo),
        Instruction::SetCC(_, a) => !(a is Pseudo),
        Instruction::Push(a) => !(a is Pseudo),
        _ => true,
    }
}

/// A replaced instruction has no pseudo-register left.
pub proof fn lemma_replaced_no_pseudo(o: Instruction, n: Instruction, bytes: int)
    requires
        instruction_replaced(o, n, bytes),
    ensures
        no_pseudo(n),
{
}

proof fn lemma_replaced_monotone(o: Instruction, n: Instruction, b1: int, b2: int)
    requires
        instruction_replaced(o, n, b1),
        b1 <= b2,
    ensures
        instruction_replaced(o, n, b2),
{
}

/// Whether every recorded slot lies in the frame of `bytes` bytes.
pub open spec fn slots_in_frame(map: Table<i32>, bytes: int) -> bool {
    forall|k: crate::table::Key| #[trigger] map@.dom().contains(k) ==> -bytes <= map@[k] < 0
}

/// The key under which a pseudo-register's slot is recorded: its name.
pub open spec fn slot_key(x: Identifier) -> crate::table::Key {
    (x.0@, Seq::<char>::empty())
}

/// Whether the code generator's table records `x` as an object of static
/// storage duration.
pub open spec fn is_static_object(asm_symbols: AsmSymbols, x: Identifier) -> bool {
    &&& asm_symbols@.dom().contains(x@)
    &&& asm_symbols@[x@] matches AsmSymbol::Object { is_static, .. }
    &&& is_static
}

/// Whether `n` is operand `o` in its place: a pseudo-register is the stack
/// slot recorded for its name, or, for an object of static storage, its name
/// in the data section.
pub open spec fn operand_placed(o: Operand, n: Operand, slots: Map<crate::table::Key, i32>, asm_symbols: AsmSymbols) -> bool {
    match o {
        Operand::Pseudo(x) => {
            ||| slots.dom().contains(slot_key(x)) && n == Operand::Stack(slots[slot_key(x)])
            ||| is_static_object(asm_symbols, x) && n == Operand::Data(x)
        },
        _ => n == o,
    }
}

/// Whether `n` is instruction `o` with every operand in its place.
pub open spec fn instruction_placed(o: Instruction, n: Instruction, slots: Map<crate::table::Key, i32>, asm_symbols: AsmSymbols) -> bool {
    match (o, n) {
        (Instruction::Mov { ty: t1, src: s1, dst: d1 }, Instruction::Mov { ty: t2, src: s2, dst: d2 }) =>
            t1 == t2 && operand_placed(s1, s2, slots, asm_symbols) && operand_placed(d1, d2, slots, asm_symbols),
        (Instruction::Movsx { src: s1, dst: d1 }, Instruction::Movsx { src: s2, dst: d2 }) =>
            operand_placed(s1, s2, slots, asm_symbols) && operand_placed(d1, d2, slots, asm_symbols),
        (Instruction::Unary { ty: t1, operator: p1, operand: a1 }, Instruction::Unary { ty: t2, operator: p2, operand: a2 }) =>
            t1 == t2 && p1 == p2 && operand_placed(a1, a2, slots, asm_symbols),
        (Instruction::Binary { ty: t1, operator: p1, src: s1, dst: d1 }, Instruction::Binary { ty: t2, operator: p2, src: s2, dst: d2 }) =>
            t1 == t2 && p1 == p2 && operand_placed(s1, s2, slots, asm_symbols) && operand_placed(d1, d2, slots, asm_symbols),
        (Instruction::Cmp(t1, a1, b1), Instruction::Cmp(t2, a2, b2)) =>
            t1 == t2 && operand_placed(a1, a2, slots, asm_symbols) && operand_placed(b1, b2, slots, asm_symbols),
        (Instruction::Idiv(t1, a1), Instruction::Idiv(t2, a2)) => t1 == t2 && operand_placed(a1, a2, slots, asm_symbols),
        (Instruction::SetCC(c1, a1), Instruction::SetCC(c2, a2)) => c1 == c2 && operand_placed(a1, a2, slots, asm_symbols),
        (Instruction::Push(a1), Instruction::Push(a2)) => operand_placed(a1, a2, slots, asm_symbols),
        _ => n == o && !has_operand(o),
    }
}

/// Whether the slots lie in a frame of `bytes` bytes, each of 4 or 8 bytes,
/// aligned to its size, and no two overlapping.
pub open spec fn slots_disjoint(slots: Map<crate::table::Key, i32>, sizes: Map<crate::table::Key, int>, bytes: int) -> bool {
    &&& slots.dom() == sizes.dom()
    &&& forall|k: crate::table::Key| #[trigger] slots.dom().contains(k) ==> {
        &&& sizes[k] == 4 || sizes[k] == 8
        &&& -bytes <= slots[k]
        &&& slots[k] + sizes[k] <= 0
        &&& (slots[k] as int) % sizes[k] == 0
    }
    &&& forall|k1: crate::table::Key, k2: crate::table::Key|
        #[trigger] slots.dom().contains(k1) && #[trigger] slots.dom().contains(k2) && k1 != k2
        ==> slots[k1] + sizes[k1] <= slots[k2] || slots[k2] + sizes[k2] <= slots[k1]
}

/// Placements under fewer slots stay placements under more.
proof fn lemma_operand_placed_grow(o: Operand, n: Operand, s1: Map<crate::table::Key, i32>, s2: Map<crate::table::Key, i32>, asm_symbols: AsmSymbols)
    requires
        operand_placed(o, n, s1, asm_symbols),
        s1.submap_of(s2),
    ensures
        operand_placed(o, n, s2, asm_symbols),
{
    if let Operand::Pseudo(x) = o {
        if s1.dom().contains(slot_key(x)) && n == Operand::Stack(s1[slot_key(x)]) {
            assert(s2.dom().contains(slot_key(x)));
        }
    }
}

/// Placements under fewer slots stay placements under more.
proof fn lemma_placed_grow(o: Instruction, n: Instruction, s1: Map<crate::table::Key, i32>, s2: Map<crate::table::Key, i32>, asm_symbols: AsmSymbols)
    requires
        instruction_placed(o, n, s1, asm_symbols),
        s1.submap_of(s2),
    ensures
        instruction_placed(o, n, s2, asm_symbols),
{
    match (o, n) {
        (Instruction::Mov { src: s1o, dst: d1o, .. }, Instruction::Mov { src: s2o, dst: d2o, .. }) => {
            lemma_operand_placed_grow(s1o, s2o, s1, s2, asm_symbols);
            lemma_operand_placed_grow(d1o, d2o, s1, s2, asm_symbols);
        },
        (Instruction::Movsx { src: s1o, dst: d1o }, Instruction::Movsx { src: s2o, dst: d2o }) => {
            lemma_operand_placed_grow(s1o, s2o, s1, s2, asm_symbols);
            lemma_operand_placed_grow(d1o, d2o, s1, s2, asm_symbols);
        },
        (Instruction::Unary { operand: a1, .. }, Instruction::Unary { operand: a2, .. }) => {
            lemma_operand_placed_grow(a1, a2, s1, s2, asm_symbols);
        },
        (Instruction::Binary { src: s1o, dst: d1o, .. }, Instruction::Binary { src: s2o, dst: d2o, .. }) => {
            lemma_operand_placed_grow(s1o, s2o, s1, s2, asm_symbols);
            lemma_operand_placed_grow(d1o, d2o, s1, s2, asm_symbols);
        },
        (Instruction::Cmp(_, a1, b1), Instruction::Cmp(_, a2, b2)) => {
            lemma_operand_placed_grow(a1, a2, s1, s2, asm_symbols);
            lemma_operand_placed_grow(b1, b2, s1, s2, asm_symbols);
        },
        (Instruction::Idiv(_, a1), Instruction::Idiv(_, a2)) => {
            lemma_operand_placed_grow(a1, a2, s1, s2, asm_symbols);
        },
        (Instruction::SetCC(_, a1), Instruction::SetCC(_, a2)) => {
            lemma_operand_placed_grow(a1, a2, s1, s2, asm_symbols);
        },
        (Instruction::Push(a1), Instruction::Push(a2)) => {
            lemma_operand_placed_grow(a1, a2, s1, s2, asm_symbols);
        },
        _ => {},
    }
}

/// The type of the slot a pseudo-register gets: its type in the code
/// generator's table, or a longword where the table gives none.
pub open spec fn slot_type(asm_symbols: AsmSymbols, x: Identifier) -> AssemblyType {
    if asm_symbols@.dom().contains(x@) {
        match asm_symbols@[x@] {
            AsmSymbol::Object { ty, .. } => ty,
            AsmSymbol::Function { .. } => AssemblyType::Longword,
        }
    } else {
        AssemblyType::Longword
    }
}

/// Placing one operand, given the slots so far and the bytes they take: the
/// operand in its place, then the slots and the bytes after. A new slot sits
/// below the others, aligned to its size.
pub open spec fn place_operand(o: Operand, slots: Map<crate::table::Key, i32>, bytes: int, asm_symbols: AsmSymbols)
    -> (Operand, Map<crate::table::Key, i32>, int)
{
    match o {
        Operand::Pseudo(x) => if slots.dom().contains(slot_key(x)) {
            (Operand::Stack(slots[slot_key(x)]), slots, bytes)
        } else if is_static_object(asm_symbols, x) {
            (Operand::Data(x), slots, bytes)
        } else {
            let size = spec_size_bytes(slot_type(asm_symbols, x)) as int;
            let end = spec_align_to(bytes, size) + size;
            (Operand::Stack((-end) as i32), slots.insert(slot_key(x), (-end) as i32), end)
        },
        _ => (o, slots, bytes),
    }
}

/// Placing the operands of one instruction, the first operand first.
pub open spec fn place_instruction(i: Instruction, slots: Map<crate::table::Key, i32>, bytes: int, asm_symbols: AsmSymbols)
    -> (Instruction, Map<crate::table::Key, i32>, int)
{
    match i {
        Instruction::Mov { ty, src, dst } => {
            let p = place_operand(src, slots, bytes, asm_symbols);
            let q = place_operand(dst, p.1, p.2, asm_symbols);
            (Instruction::Mov { ty, src: p.0, dst: q.0 }, q.1, q.2)
        },
        Instruction::Movsx { src, dst } => {
            let p = place_operand(src, slots, bytes, asm_symbols);
            let q = place_operand(dst, p.1, p.2, asm_symbols);
            (Instruction::Movsx { src: p.0, dst: q.0 }, q.1, q.2)
        },
        Instruction::Unary { ty, operator, operand } => {
            let p = place_operand(operand, slots, bytes, asm_symbols);
            (Instruction::Unary { ty, operator, operand: p.0 }, p.1, p.2)
        },
        Instruction::Binary { ty, operator, src, dst } => {
            let p = place_operand(src, slots, bytes, asm_symbols);
            let q = place_operand(dst, p.1, p.2, asm_symbols);
            (Instruction::Binary { ty, operator, src: p.0, dst: q.0 }, q.1, q.2)
        },
        Instruction::Cmp(ty, a, b) => {
            let p = place_operand(a, slots, bytes, asm_symbols);
            let q = place_operand(b, p.1, p.2, asm_symbols);
            (Instruction::Cmp(ty, p.0, q.0), q.1, q.2)
        },
        Instruction::Idiv(ty, a) => {
            let p = place_operand(a, slots, bytes, asm_symbols);
            (Instruction::Idiv(ty, p.0), p.1, p.2)
        },
        Instruction::SetCC(c, a) => {
            let p = place_operand(a, slots, bytes, asm_symbols);
            (Instruction::SetCC(c, p.0), p.1, p.2)
        },
        Instruction::Push(a) => {
            let p = place_operand(a, slots, bytes, asm_symbols);
            (Instruction::Push(p.0), p.1, p.2)
        },
        _ => (i, slots, bytes),
    }
}

/// Placing the operands of a function's code in order, from no slots: the
/// code, the slots and the bytes they take.
pub open spec fn place_all(s: Seq<Instruction>, asm_symbols: AsmSymbols) -> (Seq<Instruction>, Map<crate::table::Key, i32>, int)
    decreases s.len(),
{
    if s.len() == 0 {
        (seq![], Map::empty(), 0)
    } else {
        let p = place_all(s.drop_last(), asm_symbols);
        let q = place_instruction(s.last(), p.1, p.2, asm_symbols);
        (p.0.push(q.0), q.1, q.2)
    }
}

/// The place of one operand: a pseudo-register seen before keeps its slot, a
/// static object is addressed by name, any other pseudo-register gets a new
/// slot, aligned, at the bottom of the frame.
fn replace_operand(
    o: &Operand,
    map: &mut Table<i32>,
    bytes: &mut u32,
    asm_symbols: &AsmSymbols,
    sizes: &mut Ghost<Map<crate::table::Key, int>>,
) -> (r: Operand)
    requires
        *old(bytes) <= 0x7000_0000,
        slots_in_frame(*old(map), *old(bytes) as int),
        slots_disjoint(old(map)@, old(sizes)@, *old(bytes) as int),
    ensures
        operand_replaced(*o, r, *final(bytes) as int),
        *old(bytes) <= *final(bytes) <= *old(bytes) + 16,
        slots_in_frame(*final(map), *final(bytes) as int),
        slots_disjoint(final(map)@, final(sizes)@, *final(bytes) as int),
        old(map)@.submap_of(final(map)@),
        operand_placed(*o, r, final(map)@, *asm_symbols),
        (r, final(map)@, *final(bytes) as int) == place_operand(*o, old(map)@, *old(bytes) as int, *asm_symbols),
{
    match o {
        Operand::Pseudo(ident) => {
            let key = Identifier(ident.0.clone(), String::new());
            proof {
                assert(key@ == slot_key(*ident));
            }
            match map.get(&key) {
                Some(offset) => {
                    return Operand::Stack(*offset);
                },
                None => {},
            }
            let ty = match asm_symbols.get(ident) {
                Some(data) => {
                    if data.is_static() {
                        return Operand::Data(ident.clone());
                    }
                    match data.ty() {
                        Some(t) => t,
                        None => AssemblyType::Longword,
                    }
                },
                None => AssemblyType::Longword,
            };
            let size = ty.size_bytes();
            let alignment = ty.size_bytes();
            proof {
                crate::utils::lemma_align_to_bounds(*bytes as int, alignment as int);
            }
            let aligned = align_to(*bytes, alignment);
            let ghost b_old = *bytes as int;
            let ghost old_slots = map@;
            *bytes = aligned + size;
            let offset: i32 = -(*bytes as i32);
            map.insert(key, offset);
            *sizes = Ghost(sizes@.insert(key@, size as int));
            proof {
                let k0 = key@;
                assert(offset as int == -(aligned as int) - size as int);
                assert((offset as int) % (size as int) == 0) by {
                    assert((aligned as int) % (size as int) == 0);
                    assert(size == 4 || size == 8);
                    vstd::arithmetic::div_mod::lemma_mod_add_multiples_vanish(-(aligned as int), size as int);
                    vstd::arithmetic::div_mod::lemma_mod_sub_multiples_vanish(-(aligned as int), size as int);
                    assert((-(aligned as int)) % (size as int) == 0) by {
                        vstd::arithmetic::div_mod::lemma_mod_multiples_vanish(
                            -((aligned as int) / (size as int)), 0, size as int);
                        assert(-(aligned as int) == (size as int) * (-((aligned as int) / (size as int)))) by (nonlinear_arith)
                            requires (aligned as int) % (size as int) == 0, size > 0;
                    }
                }
                assert forall|k: crate::table::Key| #[trigger] map@.dom().contains(k) implies {
                    &&& sizes@[k] == 4 || sizes@[k] == 8
                    &&& -(*bytes as int) <= map@[k]
                    &&& map@[k] + sizes@[k] <= 0
                    &&& (map@[k] as int) % sizes@[k] == 0
                } by {
                    if k != k0 {
                        assert(old_slots.dom().contains(k));
                    }
                }
                assert forall|k1: crate::table::Key, k2: crate::table::Key|
                    #[trigger] map@.dom().contains(k1) && #[trigger] map@.dom().contains(k2) && k1 != k2
                    implies map@[k1] + sizes@[k1] <= map@[k2] || map@[k2] + sizes@[k2] <= map@[k1] by {
                    if k1 != k0 {
                        assert(old_slots.dom().contains(k1));
                    }
                    if k2 != k0 {
                        assert(old_slots.dom().contains(k2));
                    }
                }
                assert(old_slots.submap_of(map@));
            }
            Operand::Stack(offset)
        },
        _ => o.clone(),
    }
}

/// The places of two operands of one instruction, the first placed first.
fn replace_pair(
    a: &Operand,
    b: &Operand,
    map: &mut Table<i32>,
    bytes: &mut u32,
    asm_symbols: &AsmSymbols,
    sizes: &mut Ghost<Map<crate::table::Key, int>>,
) -> (r: (Operand, Operand))
    requires
        *old(bytes) <= 0x6000_0000,
        slots_in_frame(*old(map), *old(bytes) as int),
        slots_disjoint(old(map)@, old(sizes)@, *old(bytes) as int),
    ensures
        operand_replaced(*a, r.0, *final(bytes) as int),
        operand_replaced(*b, r.1, *final(bytes) as int),
        *old(bytes) <= *final(bytes) <= *old(bytes) + 32,
        slots_in_frame(*final(map), *final(bytes) as int),
        slots_disjoint(final(map)@, final(sizes)@, *final(bytes) as int),
        old(map)@.submap_of(final(map)@),
        operand_placed(*a, r.0, final(map)@, *asm_symbols),
        operand_placed(*b, r.1, final(map)@, *asm_symbols),
        ({
            let p = place_operand(*a, old(map)@, *old(bytes) as int, *asm_symbols);
            let q = place_operand(*b, p.1, p.2, *asm_symbols);
            r == (p.0, q.0) && final(map)@ == q.1 && *final(bytes) as int == q.2
        }),
{
    let ghost m0 = map@;
    let x = replace_operand(a, map, bytes, asm_symbols, sizes);
    let ghost m1 = map@;
    let ghost b1 = *bytes;
    let y = replace_operand(b, map, bytes, asm_symbols, sizes);
    proof {
        lemma_operand_placed_grow(*a, x, m1, map@, *asm_symbols);
        assert forall|k: crate::table::Key| #[trigger] m0.dom().contains(k) implies map@.dom().contains(k) && map@[k] == m0[k] by {
            assert(m1.dom().contains(k));
        }
        assert(m0.submap_of(map@));
        if let Operand::Pseudo(_) = *a {
            if let Operand::Stack(off) = x {
                assert(-(b1 as int) <= off);
            }
        }
    }
    (x, y)
}

/// Gives every pseudo-register of the function a place (see
/// `replace_operand`) and returns the bytes of stack its slots take.
pub fn replace_pseudoregisters(function: &mut FunctionDefinition, asm_symbols: &AsmSymbols) -> (bytes: u32)
    requires
        old(function).instructions@.len() < 0x100_0000,
    ensures
        final(function).name == old(function).name,
        final(function).global == old(function).global,
        final(function).instructions@.len() == old(function).instructions@.len(),
        forall|k: int| 0 <= k < final(function).instructions@.len() ==> instruction_replaced(
            old(function).instructions@[k], #[trigger] final(function).instructions@[k], bytes as int),
        forall|k: int| 0 <= k < final(function).instructions@.len() ==> no_pseudo(#[trigger] final(function).instructions@[k]),
        bytes <= 32 * old(function).instructions@.len(),
        final(function).instructions@ == place_all(old(function).instructions@, *asm_symbols).0,
        bytes as int == place_all(old(function).instructions@, *asm_symbols).2,
        exists|slots: Map<crate::table::Key, i32>, sizes: Map<crate::table::Key, int>| {
            &&& slots_disjoint(slots, sizes, bytes as int)
            &&& forall|k: int| 0 <= k < final(function).instructions@.len() ==> instruction_placed(
                old(function).instructions@[k], #[trigger] final(function).instructions@[k], slots, *asm_symbols)
        },
{
    let mut bytes: u32 = 0;
    let mut map: Table<i32> = Table::new();
    let mut sizes: Ghost<Map<crate::table::Key, int>> = Ghost(Map::empty());
    proof {
        assert(map@.dom() =~= sizes@.dom());
    }
    let n = function.instructions.len();
    let mut k: usize = 0;
    while k < n
        invariant
            k <= n,
            n == function.instructions@.len(),
            n == old(function).instructions@.len(),
            n < 0x100_0000,
            bytes <= 32 * k,
            slots_in_frame(map, bytes as int),
            function.name == old(function).name,
            function.global == old(function).global,
            forall|j: int| 0 <= j < k ==> instruction_replaced(old(function).instructions@[j], #[trigger] function.instructions@[j], bytes as int),
            forall|j: int| k <= j < n ==> #[trigger] function.instructions@[j] == old(function).instructions@[j],
            slots_disjoint(map@, sizes@, bytes as int),
            forall|j: int| 0 <= j < k ==> instruction_placed(old(function).instructions@[j], #[trigger] function.instructions@[j],
                map@, *asm_symbols),
            function.instructions@.take(k as int) == place_all(old(function).instructions@.take(k as int), *asm_symbols).0,
            map@ == place_all(old(function).instructions@.take(k as int), *asm_symbols).1,
            bytes as int == place_all(old(function).instructions@.take(k as int), *asm_symbols).2,
        decreases n - k,
    {
        let ghost b0 = bytes;
        let ghost m0 = map@;
        let ghost before = function.instructions@;
        let instruction = function.instructions[k].clone();
        let new_instruction = match instruction {
            Instruction::Mov { ty, src, dst } => {
                let (s, d) = replace_pair(&src, &dst, &mut map, &mut bytes, asm_symbols, &mut sizes);
                Instruction::Mov { ty, src: s, dst: d }
            },
            Instruction::Movsx { src, dst } => {
                let (s, d) = replace_pair(&src, &dst, &mut map, &mut bytes, asm_symbols, &mut sizes);
                Instruction::Movsx { src: s, dst: d }
            },
            Instruction::Unary { ty, operator, operand } => {
                let a = replace_operand(&operand, &mut map, &mut bytes, asm_symbols, &mut sizes);
                Instruction::Unary { ty, operator, operand: a }
            },
            Instruction::Binary { ty, operator, src, dst } => {
                let (s, d) = replace_pair(&src, &dst, &mut map, &mut bytes, asm_symbols, &mut sizes);
                Instruction::Binary { ty, operator, src: s, dst: d }
            },
            Instruction::Cmp(ty, a, b) => {
                let (x, y) = replace_pair(&a, &b, &mut map, &mut bytes, asm_symbols, &mut sizes);
                Instruction::Cmp(ty, x, y)
            },
            Instruction::Idiv(ty, a) => {
                let x = replace_operand(&a, &mut map, &mut bytes, asm_symbols, &mut sizes);
                Instruction::Idiv(ty, x)
            },
            Instruction::SetCC(c, a) => {
                let x = replace_operand(&a, &mut map, &mut bytes, asm_symbols, &mut sizes);
                Instruction::SetCC(c, x)
            },
            Instruction::Push(a) => {
                let x = replace_operand(&a, &mut map, &mut bytes, asm_symbols, &mut sizes);
                Instruction::Push(x)
            },
            other => other,
        };
        proof {
            assert forall|j: int| 0 <= j < k implies instruction_replaced(old(function).instructions@[j], #[trigger] function.instructions@[j], bytes as int) by {
                lemma_replaced_monotone(old(function).instructions@[j], function.instructions@[j], b0 as int, bytes as int);
            }
            assert forall|j: int| 0 <= j < k implies instruction_placed(old(function).instructions@[j], #[trigger] function.instructions@[j],
                map@, *asm_symbols) by {
                lemma_placed_grow(old(function).instructions@[j], function.instructions@[j], m0, map@, *asm_symbols);
            }
        }
        proof {
            assert((new_instruction, map@, bytes as int) == place_instruction(old(function).instructions@[k as int], m0, b0 as int, *asm_symbols));
        }
        function.instructions.set(k, new_instruction);
        proof {
            let t = old(function).instructions@.take(k + 1);
            assert(t.drop_last() =~= old(function).instructions@.take(k as int));
            assert(t.last() == old(function).instructions@[k as int]);
            assert(function.instructions@.take(k + 1) =~= before.take(k as int).push(new_instruction));
        }
        k = k + 1;
    }
    proof {
        assert(old(function).instructions@.take(n as int) =~= old(function).instructions@);
        assert(function.instructions@.take(n as int) =~= function.instructions@);
    }
    proof {
        assert forall|j: int| 0 <= j < n implies no_pseudo(#[trigger] function.instructions@[j]) by {
            lemma_replaced_no_pseudo(old(function).instructions@[j], function.instructions@[j], bytes as int);
        }
        assert(slots_disjoint(map@, sizes@, bytes as int));
    }
    bytes
}

/// Whether an instruction's operands are a combination x86 encodes: at most
/// one memory operand, a shift count not in memory, a comparison's second
/// operand not an immediate, a sign extension neither from an immediate nor
/// into memory.
pub open spec fn memory_ok(i: Instruction) -> bool {
    match i {
        Instruction::Mov { src, dst, .. } => !(spec_is_memory(src) && spec_is_memory(dst)),
        Instruction::Binary { operator, src, dst, .. } => {
            &&& !(spec_cant_have_double_memory(operator) && spec_is_memory(src) && spec_is_memory(dst))
            &&& !((operator == BinaryOperator::LeftShift || operator == BinaryOperator::RightShift) && spec_is_memory(src))
        },
        Instruction::Cmp(_, a, b) => !(spec_is_memory(a) && spec_is_memory(b)) && !(b is Imm),
        Instruction::Movsx { src, dst } => !(src is Imm) && !spec_is_memory(dst),
        _ => true,
    }
}

/// Whether an `imul` writes to a register.
pub open spec fn imul_ok(i: Instruction) -> bool {
    match i {
        Instruction::Binary { operator, dst, .. } => operator == BinaryOperator::Mul ==> !spec_is_memory(dst),
        _ => true,
    }
}

/// Whether an `idiv` divides by something other than an immediate.
pub open spec fn idiv_ok(i: Instruction) -> bool {
    i matches Instruction::Idiv(_, a) ==> !(a is Imm)
}

/// Whether every immediate fits in the 32 bits the instruction takes.
pub open spec fn imm_ok(i: Instruction) -> bool {
    match i {
        Instruction::Mov { ty, src, dst } => !(ty == AssemblyType::Quadword && spec_is_memory(dst) && large_imm(src)),
        Instruction::Binary { ty, operator, src, .. } => !(spec_cant_have_large_imm(operator) && ty == AssemblyType::Quadword && large_imm(src)),
        Instruction::Cmp(ty, src, _) => !(ty == AssemblyType::Quadword && large_imm(src)),
        Instruction::Push(op) => !large_imm(op),
        _ => true,
    }
}

/// Whether an instruction can be emitted as it is.
pub open spec fn encodable(i: Instruction) -> bool {
    no_pseudo(i) && memory_ok(i) && imul_ok(i) && idiv_ok(i) && imm_ok(i)
}

pub proof fn lemma_fix_double_memory_ok()
    ensures
        forall|i: Instruction, k: int| no_pseudo(i) && 0 <= k < fix_double_memory(i).len() ==> {
            let j = #[trigger] fix_double_memory(i)[k];
            no_pseudo(j) && memory_ok(j)
        },
{
    assert forall|i: Instruction, k: int| no_pseudo(i) && 0 <= k < fix_double_memory(i).len() implies {
        let j = #[trigger] fix_double_memory(i)[k];
        no_pseudo(j) && memory_ok(j)
    } by {
        match i {
            Instruction::Movsx { src, dst } => {
                if src is Imm {
                    if spec_is_memory(dst) {
                        assert(fix_double_memory(i) =~= seq![
                            Instruction::Mov { ty: AssemblyType::Longword, src, dst: r10() },
                            Instruction::Movsx { src: r10(), dst: r11() },
                            Instruction::Mov { ty: AssemblyType::Quadword, src: r11(), dst },
                        ]);
                    } else {
                        assert(fix_double_memory(i) =~= seq![
                            Instruction::Mov { ty: AssemblyType::Longword, src, dst: r10() },
                            Instruction::Movsx { src: r10(), dst },
                        ]);
                    }
                } else {
                    if spec_is_memory(dst) {
                        assert(fix_double_memory(i) =~= seq![
                            Instruction::Movsx { src, dst: r11() },
                            Instruction::Mov { ty: AssemblyType::Quadword, src: r11(), dst },
                        ]);
                    } else {
                        assert(fix_double_memory(i) =~= seq![Instruction::Movsx { src, dst }]);
                    }
                }
            },
            _ => {},
        }
    }
}

pub proof fn lemma_fix_imul_ok()
    ensures
        forall|i: Instruction, k: int| no_pseudo(i) && memory_ok(i) && 0 <= k < fix_imul(i).len() ==> {
            let j = #[trigger] fix_imul(i)[k];
            no_pseudo(j) && memory_ok(j) && imul_ok(j)
        },
{
}

pub proof fn lemma_fix_idiv_ok()
    ensures
        forall|i: Instruction, k: int| no_pseudo(i) && memory_ok(i) && imul_ok(i) && 0 <= k < fix_idiv(i).len() ==> {
            let j = #[trigger] fix_idiv(i)[k];
            no_pseudo(j) && memory_ok(j) && imul_ok(j) && idiv_ok(j)
        },
{
}

pub proof fn lemma_fix_large_imm_ok()
    ensures
        forall|i: Instruction, k: int| no_pseudo(i) && memory_ok(i) && imul_ok(i) && idiv_ok(i) && 0 <= k < fix_large_imm(i).len() ==> {
            let j = #[trigger] fix_large_imm(i)[k];
            encodable(j)
        },
{
}

/// Truncating a `movl` immediate keeps an instruction encodable.
pub proof fn lemma_truncated_ok(i: Instruction)
    requires
        encodable(i),
    ensures
        encodable(truncated(i)),
{
}

/// The `subq` that opens a frame for `bytes` bytes of slots, rounded up to 16.
pub open spec fn frame_allocation(bytes: int) -> Instruction {
    Instruction::Binary {
        ty: AssemblyType::Quadword,
        operator: BinaryOperator::Sub,
        src: Operand::Imm(spec_align_to(bytes, 16) as i64),
        dst: Operand::Reg(Register::StackPointer),
    }
}

/// The code the rewrites make of a function's code once its pseudo-registers
/// are placed and its frame opened: the four rewrites in turn, then the
/// truncation of `movl` immediates.
pub open spec fn rewritten(s: Seq<Instruction>) -> Seq<Instruction> {
    let s1 = expand_all(s, |i: Instruction| fix_double_memory(i));
    let s2 = expand_all(s1, |i: Instruction| fix_imul(i));
    let s3 = expand_all(s2, |i: Instruction| fix_idiv(i));
    let s4 = expand_all(s3, |i: Instruction| fix_large_imm(i));
    s4.map_values(|i: Instruction| truncated(i))
}

/// Whether `n` is function `o` after the passes, with `replaced` its code
/// with the pseudo-registers placed (`place_all`) in slots that take `bytes`
/// bytes: the frame allocation, then that code, rewritten.
pub open spec fn transformed_via(
    o: FunctionDefinition,
    n: FunctionDefinition,
    replaced: Seq<Instruction>,
    bytes: int,
    asm_symbols: AsmSymbols,
) -> bool {
    &&& n.name == o.name
    &&& n.global == o.global
    &&& 0 <= bytes <= 32 * o.instructions@.len()
    &&& replaced.len() == o.instructions@.len()
    &&& forall|k: int| 0 <= k < replaced.len() ==> instruction_replaced(o.instructions@[k], #[trigger] replaced[k], bytes)
    &&& exists|slots: Map<crate::table::Key, i32>, sizes: Map<crate::table::Key, int>| {
        &&& #[trigger] slots_disjoint(slots, sizes, bytes)
        &&& forall|k: int| 0 <= k < replaced.len() ==> instruction_placed(
            o.instructions@[k], #[trigger] replaced[k], slots, asm_symbols)
    }
    &&& replaced == place_all(o.instructions@, asm_symbols).0
    &&& bytes == place_all(o.instructions@, asm_symbols).2
    &&& n.instructions@ == rewritten(seq![frame_allocation(bytes)] + replaced)
}

/// Whether `n` is function `o` after the passes.
pub open spec fn transformed(o: FunctionDefinition, n: FunctionDefinition, asm_symbols: AsmSymbols) -> bool {
    exists|replaced: Seq<Instruction>, bytes: int| #[trigger] transformed_via(o, n, replaced, bytes, asm_symbols)
}

/// Runs the passes on one function: places for pseudo-registers, the frame,
/// and the rewrites, in the order the processor's rules need.
fn transform_function(function: &mut FunctionDefinition, asm_symbols: &AsmSymbols)
    requires
        old(function).instructions@.len() < 0x100_0000,
    ensures
        final(function).name == old(function).name,
        final(function).global == old(function).global,
        forall|k: int| 0 <= k < final(function).instructions@.len() ==> encodable(#[trigger] final(function).instructions@[k]),
        transformed(*old(function), *final(function), *asm_symbols),
{
    let bytes_required = replace_pseudoregisters(function, asm_symbols);
    let ghost replaced = function.instructions@;
    let ghost s0 = function.instructions@;
    allocate_stack_space(function, bytes_required);
    proof {
        crate::utils::lemma_align_to_bounds(bytes_required as int, 16);
        assert forall|k: int| 0 <= k < function.instructions@.len() implies no_pseudo(#[trigger] function.instructions@[k]) by {
            if k > 0 {
                assert(function.instructions@[k] == replaced[k - 1]);
            }
        }
    }
    let ghost s1 = function.instructions@;
    rewrite_invalid_double_memory_instructions(function);
    proof {
        lemma_fix_double_memory_ok();
        lemma_expand_all_preserves(s1, |i: Instruction| fix_double_memory(i),
            |j: Instruction| no_pseudo(j) && memory_ok(j), |i: Instruction| no_pseudo(i));
    }
    let ghost s2 = function.instructions@;
    rewrite_invalid_imul_memory_dst(function);
    proof {
        lemma_fix_imul_ok();
        lemma_expand_all_preserves(s2, |i: Instruction| fix_imul(i),
            |j: Instruction| no_pseudo(j) && memory_ok(j) && imul_ok(j), |i: Instruction| no_pseudo(i) && memory_ok(i));
    }
    let ghost s3 = function.instructions@;
    rewrite_constant_idiv_operands(function);
    proof {
        lemma_fix_idiv_ok();
        lemma_expand_all_preserves(s3, |i: Instruction| fix_idiv(i),
            |j: Instruction| no_pseudo(j) && memory_ok(j) && imul_ok(j) && idiv_ok(j),
            |i: Instruction| no_pseudo(i) && memory_ok(i) && imul_ok(i));
    }
    let ghost s4 = function.instructions@;
    rewrite_large_imm_values(function);
    proof {
        lemma_fix_large_imm_ok();
        lemma_expand_all_preserves(s4, |i: Instruction| fix_large_imm(i),
            |j: Instruction| encodable(j),
            |i: Instruction| no_pseudo(i) && memory_ok(i) && imul_ok(i) && idiv_ok(i));
    }
    let ghost s5 = function.instructions@;
    truncate_movl_imm_value(function);
    proof {
        assert forall|k: int| 0 <= k < function.instructions@.len() implies encodable(#[trigger] function.instructions@[k]) by {
            lemma_truncated_ok(s5[k]);
        }
        assert(s1 == seq![frame_allocation(bytes_required as int)] + replaced);
        assert(function.instructions@ =~= rewritten(s1));
        assert(transformed_via(*old(function), *function, replaced, bytes_required as int, *asm_symbols));
    }
}

/// Whether every function is small enough for the passes: fewer than 2^24
/// instructions, so that each pseudo-register's stack slot has an offset that
/// fits in 32 bits.
pub fn is_transformable(program: &Program) -> (r: bool)
    ensures
        r == forall|k: int| 0 <= k < program.0@.len() ==> (#[trigger] program.0@[k] matches TopLevel::F(f)
            ==> f.instructions@.len() < 0x100_0000),
{
    let mut k: usize = 0;
    while k < program.0.len()
        invariant
            k <= program.0@.len(),
            forall|j: int| 0 <= j < k ==> (#[trigger] program.0@[j] matches TopLevel::F(f)
                ==> f.instructions@.len() < 0x100_0000),
        decreases program.0@.len() - k,
    {
        if let TopLevel::F(f) = &program.0[k] {
            if f.instructions.len() >= 0x100_0000 {
                return false;
            }
        }
        k = k + 1;
    }
    true
}

/// Runs the code generation passes on every function of the program; every
/// instruction that comes out can be emitted as it is.
pub fn transform(program: &mut Program, asm_symbols: &AsmSymbols)
    requires
        forall|k: int| 0 <= k < old(program).0@.len() ==> (#[trigger] old(program).0@[k] matches TopLevel::F(f)
            ==> f.instructions@.len() < 0x100_0000),
    ensures
        final(program).0@.len() == old(program).0@.len(),
        forall|k: int| 0 <= k < final(program).0@.len() ==> (#[trigger] final(program).0@[k] is F <==> old(program).0@[k] is F),
        forall|k: int| 0 <= k < final(program).0@.len() ==> (#[trigger] final(program).0@[k] matches TopLevel::F(f) ==> {
            &&& f.name == old(program).0@[k]->F_0.name
            &&& forall|j: int| 0 <= j < f.instructions@.len() ==> encodable(#[trigger] f.instructions@[j])
            &&& transformed(old(program).0@[k]->F_0, f, *asm_symbols)
        }),
        forall|k: int| 0 <= k < final(program).0@.len() ==> (#[trigger] final(program).0@[k] is V ==> final(program).0@[k] == old(program).0@[k]),
{
    let n = program.0.len();
    let mut k: usize = 0;
    while k < n
        invariant
            k <= n,
            n == program.0@.len(),
            forall|j: int| k <= j < n ==> #[trigger] program.0@[j] == old(program).0@[j],
            forall|j: int| 0 <= j < n ==> (#[trigger] program.0@[j] is F <==> old(program).0@[j] is F),
            forall|j: int| 0 <= j < k ==> (#[trigger] program.0@[j] matches TopLevel::F(f) ==> {
                &&& f.name == old(program).0@[j]->F_0.name
                &&& forall|m: int| 0 <= m < f.instructions@.len() ==> encodable(#[trigger] f.instructions@[m])
                &&& transformed(old(program).0@[j]->F_0, f, *asm_symbols)
            }),
            forall|j: int| 0 <= j < k ==> (#[trigger] program.0@[j] is V ==> program.0@[j] == old(program).0@[j]),
            forall|j: int| 0 <= j < n ==> (#[trigger] old(program).0@[j] matches TopLevel::F(f)
                ==> f.instructions@.len() < 0x100_0000),
        decreases n - k,
    {
        match &mut program.0[k] {
            TopLevel::F(function) => transform_function(function, asm_symbols),
            _ => {},
        }
        k = k + 1;
    }
}

/// The scratch registers that the rewrites use.
pub open spec fn scratch(o: Operand) -> bool {
    o == r10() || o == r11() || o == Operand::Reg(Register::Cx)
}

/// Whether an instruction uses no scratch register (selected code does not).
pub open spec fn scratch_free(i: Instruction) -> bool {
    match i {
        Instruction::Mov { src, dst, .. } => !scratch(src) && !scratch(dst),
        Instruction::Binary { src, dst, .. } => !scratch(src) && !scratch(dst),
        Instruction::Cmp(_, a, b) => !scratch(a) && !scratch(b),
        Instruction::Idiv(_, o) => !scratch(o),
        Instruction::Movsx { src, dst } => !scratch(src) && !scratch(dst),
        Instruction::Push(o) => !scratch(o),
        _ => true,
    }
}

/// Whether two machine states agree on everything but the scratch registers.
pub open spec fn agree_but_scratch(a: crate::ir::lowering::MachineState, b: crate::ir::lowering::MachineState) -> bool {
    &&& a.1 == b.1
    &&& a.2 == b.2
    &&& forall|o: Operand| !scratch(o) ==> #[trigger] a.0[o] == b.0[o]
}

/// Each rewrite of an instruction the processor does not accept does what
/// the instruction does: run on a machine, its instructions leave every
/// register and memory operand but the scratch registers, and the compared
/// values, as the one instruction would.
pub proof fn lemma_rewrites_keep_meaning(i: Instruction, s: crate::ir::lowering::MachineState)
    requires
        scratch_free(i),
    ensures
        agree_but_scratch(crate::ir::lowering::machine_run(s, fix_double_memory(i)), crate::ir::lowering::machine_step(s, i)),
        agree_but_scratch(crate::ir::lowering::machine_run(s, fix_imul(i)), crate::ir::lowering::machine_step(s, i)),
        agree_but_scratch(crate::ir::lowering::machine_run(s, fix_idiv(i)), crate::ir::lowering::machine_step(s, i)),
        agree_but_scratch(crate::ir::lowering::machine_run(s, fix_large_imm(i)), crate::ir::lowering::machine_step(s, i)),
{
    lemma_rewrite_keeps_meaning(i, s, fix_double_memory(i));
    lemma_rewrite_keeps_meaning(i, s, fix_imul(i));
    lemma_rewrite_keeps_meaning(i, s, fix_idiv(i));
    lemma_rewrite_keeps_meaning(i, s, fix_large_imm(i));
}

proof fn lemma_rewrite_keeps_meaning(i: Instruction, s: crate::ir::lowering::MachineState, code: Seq<Instruction>)
    requires
        scratch_free(i),
        code == fix_double_memory(i) || code == fix_imul(i) || code == fix_idiv(i) || code == fix_large_imm(i),
    ensures
        agree_but_scratch(crate::ir::lowering::machine_run(s, code), crate::ir::lowering::machine_step(s, i)),
{
    let t = crate::ir::lowering::machine_step(s, i);
    if code.len() == 1 {
        crate::ir::lowering::lemma_run_one(s, code);
        assert(code[0] == i);
    } else if code.len() == 2 {
        crate::ir::lowering::lemma_run_two(s, code);
    } else if code.len() == 3 {
        crate::ir::lowering::lemma_run_three(s, code);
    }
    let u = crate::ir::lowering::machine_run(s, code);
    assert forall|o: Operand| !scratch(o) implies #[trigger] u.0[o] == t.0[o] by {}
}

} // verus!
