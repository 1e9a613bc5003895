//! Printing the assembly program as GNU assembler text (AT&T syntax).
use vstd::prelude::*;
use crate::analysis::StaticInit;
use crate::analysis::typechecking::spec_static_value;
use crate::codegen::data::{
    AsmSymbol, AsmSymbols, AssemblyType, BinaryOperator, CondCode, FunctionDefinition, Instruction, Operand, Program,
    Register, StaticVariable, TopLevel, UnaryOperator, binary_op_text, cond_code_text, has_mnemonic,
};
use crate::text::{decimal, int_text, push_int, push_decimal, push_str, push_string, string_of};

verus! {

broadcast use vstd::std_specs::vec::axiom_spec_len;

/// The suffix of a mnemonic for an operand size.
pub open spec fn type_suffix(t: AssemblyType) -> Seq<char> {
    match t {
        AssemblyType::Longword => "l"@,
        AssemblyType::Quadword => "q"@,
    }
}

pub open spec fn size_of(t: AssemblyType) -> u32 {
    match t {
        AssemblyType::Longword => 4,
        AssemblyType::Quadword => 8,
    }
}

/// Whether registers have a name of this size here.
pub open spec fn named_size(size: u32) -> bool {
    size == 1 || size == 4 || size == 8
}

/// The name of a register at a size.
pub open spec fn register_text(r: Register, size: u32) -> Seq<char> {
    match r {
        Register::Ax => if size == 1 { "%al"@ } else if size == 4 { "%eax"@ } else { "%rax"@ },
        Register::Cx => if size == 1 { "%cl"@ } else if size == 4 { "%ecx"@ } else { "%rcx"@ },
        Register::Dx => if size == 1 { "%dl"@ } else if size == 4 { "%edx"@ } else { "%rdx"@ },
        Register::Di => if size == 1 { "%dil"@ } else if size == 4 { "%edi"@ } else { "%rdi"@ },
        Register::Si => if size == 1 { "%sil"@ } else if size == 4 { "%esi"@ } else { "%rsi"@ },
        Register::R8 => if size == 1 { "%r8b"@ } else if size == 4 { "%r8d"@ } else { "%r8"@ },
        Register::R9 => if size == 1 { "%r9b"@ } else if size == 4 { "%r9d"@ } else { "%r9"@ },
        Register::R10 => if size == 1 { "%r10b"@ } else if size == 4 { "%r10d"@ } else { "%r10"@ },
        Register::R11 => if size == 1 { "%r11b"@ } else if size == 4 { "%r11d"@ } else { "%r11"@ },
        Register::StackPointer => "%rsp"@,
    }
}

fn register_name(r: Register, size: u32) -> (s: &'static str)
    requires
        named_size(size),
    ensures
        s@ == register_text(r, size),
{
    match r {
        Register::Ax => if size == 1 { "%al" } else if size == 4 { "%eax" } else { "%rax" },
        Register::Cx => if size == 1 { "%cl" } else if size == 4 { "%ecx" } else { "%rcx" },
        Register::Dx => if size == 1 { "%dl" } else if size == 4 { "%edx" } else { "%rdx" },
        Register::Di => if size == 1 { "%dil" } else if size == 4 { "%edi" } else { "%rdi" },
        Register::Si => if size == 1 { "%sil" } else if size == 4 { "%esi" } else { "%rsi" },
        Register::R8 => if size == 1 { "%r8b" } else if size == 4 { "%r8d" } else { "%r8" },
        Register::R9 => if size == 1 { "%r9b" } else if size == 4 { "%r9d" } else { "%r9" },
        Register::R10 => if size == 1 { "%r10b" } else if size == 4 { "%r10d" } else { "%r10" },
        Register::R11 => if size == 1 { "%r11b" } else if size == 4 { "%r11d" } else { "%r11" },
        Register::StackPointer => "%rsp",
    }
}

/// The text of an operand at a size.
pub open spec fn operand_text(o: Operand, size: u32) -> Seq<char> {
    match o {
        Operand::Imm(i) => "$"@ + int_text(i as int),
        Operand::Reg(r) => register_text(r, size),
        Operand::Stack(off) => int_text(off as int) + "(%rbp)"@,
        Operand::Data(name) => name.0@ + "(%rip)"@,
        Operand::Pseudo(_) => Seq::empty(),
    }
}

impl Operand {
    /// The operand as the assembler writes it, at `size` bytes.
    pub fn format(&self, size: u32) -> (s: String)
        requires
            !(*self is Pseudo),
            named_size(size),
        ensures
            s@ == operand_text(*self, size),
    {
        match self {
            Operand::Imm(i) => {
                let mut s = string_of("$");
                push_int(&mut s, *i);
                s
            },
            Operand::Reg(r) => string_of(register_name(*r, size)),
            Operand::Stack(offset) => {
                let mut s = String::new();
                push_int(&mut s, *offset as i64);
                push_str(&mut s, "(%rbp)");
                s
            },
            Operand::Data(name) => {
                let mut s = name.0.clone();
                push_str(&mut s, "(%rip)");
                s
            },
            Operand::Pseudo(_) => String::new(),
        }
    }
}

fn suffix(t: AssemblyType) -> (s: &'static str)
    ensures
        s@ == type_suffix(t),
{
    match t {
        AssemblyType::Longword => "l",
        AssemblyType::Quadword => "q",
    }
}

/// Whether an instruction can be printed: no pseudo-register is left, a
/// binary operator has a mnemonic, a unary one is not `!`.
pub open spec fn printable(i: Instruction) -> bool {
    &&& crate::codegen::passes::no_pseudo(i)
    &&& (i matches Instruction::Binary { operator, .. } ==> has_mnemonic(operator))
    &&& (i matches Instruction::Unary { operator, .. } ==> operator != UnaryOperator::Not)
}

pub open spec fn unary_mnemonic(op: UnaryOperator) -> Seq<char> {
    if op == UnaryOperator::BitwiseNot { "not"@ } else { "neg"@ }
}

/// The lines that print an instruction; `defined` tells whether a called
/// function is defined in this program (else it is called through the PLT).
pub open spec fn instruction_lines(i: Instruction, defined: bool) -> Seq<Seq<char>> {
    match i {
        Instruction::Mov { ty, src, dst } => seq![
            "    mov"@ + type_suffix(ty) + " "@ + operand_text(src, size_of(ty)) + ", "@ + operand_text(dst, size_of(ty)),
        ],
        Instruction::Ret => seq!["    movq %rbp, %rsp"@, "    popq %rbp"@, "    ret"@],
        Instruction::Unary { ty, operator, operand } => seq![
            "    "@ + unary_mnemonic(operator) + type_suffix(ty) + " "@ + operand_text(operand, size_of(ty)),
        ],
        Instruction::Binary { ty, operator, src, dst } => seq![
            "    "@ + binary_op_text(operator) + type_suffix(ty) + " "@
                + operand_text(src, if operator == BinaryOperator::LeftShift || operator == BinaryOperator::RightShift { 1 } else { size_of(ty) })
                + ", "@ + operand_text(dst, size_of(ty)),
        ],
        Instruction::Idiv(ty, operand) => seq!["    idiv"@ + type_suffix(ty) + " "@ + operand_text(operand, size_of(ty))],
        Instruction::Cdq(ty) => if ty == AssemblyType::Longword { seq!["    cdq"@] } else { seq!["    cqo"@] },
        Instruction::Cmp(ty, a, b) => seq![
            "    cmp"@ + type_suffix(ty) + " "@ + operand_text(a, size_of(ty)) + ", "@ + operand_text(b, size_of(ty)),
        ],
        Instruction::Jump(label) => seq!["    jmp "@ + label.0@],
        Instruction::JumpCC(c, label) => seq!["    j"@ + cond_code_text(c) + " "@ + label.0@],
        Instruction::SetCC(c, operand) => seq!["    set"@ + cond_code_text(c) + " "@ + operand_text(operand, 1)],
        Instruction::Label(label) => seq![label.0@ + ":"@],
        Instruction::Comment(c) => seq!["    # "@ + c@],
        Instruction::Call(name) => if defined { seq!["    call "@ + name.0@] } else { seq!["    call "@ + name.0@ + "@PLT"@] },
        Instruction::Push(op) => seq!["    pushq "@ + operand_text(op, 8)],
        Instruction::Movsx { src, dst } => seq!["    movslq "@ + operand_text(src, 4) + ", "@ + operand_text(dst, 8)],
    }
}

/// The texts of a list of strings.
pub open spec fn texts(v: Seq<String>) -> Seq<Seq<char>> {
    v.map_values(|s: String| s@)
}

/// Whether the symbol table records a function as defined.
pub open spec fn is_defined(symbols: AsmSymbols, name: crate::table::Key) -> bool {
    symbols@.dom().contains(name) && (symbols@[name] matches AsmSymbol::Function { defined } && defined)
}

fn defined_function(symbols: &AsmSymbols, name: &crate::parser::ast::Identifier) -> (r: bool)
    ensures
        r == is_defined(*symbols, name@),
{
    match symbols.get(name) {
        Some(AsmSymbol::Function { defined }) => *defined,
        _ => false,
    }
}

fn push_line(lines: &mut Vec<String>, line: String)
    ensures
        texts(final(lines)@) == texts(old(lines)@).push(line@),
{
    lines.push(line);
    proof {
        assert(texts(lines@) =~= texts(old(lines)@).push(line@));
    }
}

fn size_bytes(t: AssemblyType) -> (r: u32)
    ensures
        r == size_of(t),
{
    t.size_bytes()
}

impl Instruction {
    /// Appends the lines that print the instruction.
    pub fn format(&self, lines: &mut Vec<String>, symbols: &AsmSymbols)
        requires
            printable(*self),
        ensures
            texts(final(lines)@) == texts(old(lines)@) + instruction_lines(*self, match *self {
                Instruction::Call(name) => is_defined(*symbols, name@),
                _ => false,
            }),
    {
        let ghost start = texts(lines@);
        match self {
            Instruction::Mov { src, dst, ty } => {
                let mut s = string_of("    mov");
                push_str(&mut s, suffix(*ty));
                push_str(&mut s, " ");
                push_string(&mut s, &src.format(size_bytes(*ty)));
                push_str(&mut s, ", ");
                push_string(&mut s, &dst.format(size_bytes(*ty)));
                push_line(lines, s);
            },
            Instruction::Ret => {
                push_line(lines, string_of("    movq %rbp, %rsp"));
                push_line(lines, string_of("    popq %rbp"));
                push_line(lines, string_of("    ret"));
            },
            Instruction::Unary { operator, operand, ty } => {
                let mut s = string_of("    ");
                push_str(&mut s, operator.op_str());
                push_str(&mut s, suffix(*ty));
                push_str(&mut s, " ");
                push_string(&mut s, &operand.format(size_bytes(*ty)));
                push_line(lines, s);
            },
            Instruction::Binary { operator, src, dst, ty } => {
                let src_size = match operator.src_size() {
                    Some(n) => n,
                    None => size_bytes(*ty),
                };
                let mut s = string_of("    ");
                push_str(&mut s, operator.op_str());
                push_str(&mut s, suffix(*ty));
                push_str(&mut s, " ");
                push_string(&mut s, &src.format(src_size));
                push_str(&mut s, ", ");
                push_string(&mut s, &dst.format(size_bytes(*ty)));
                push_line(lines, s);
            },
            Instruction::Idiv(ty, operand) => {
                let mut s = string_of("    idiv");
                push_str(&mut s, suffix(*ty));
                push_str(&mut s, " ");
                push_string(&mut s, &operand.format(size_bytes(*ty)));
                push_line(lines, s);
            },
            Instruction::Cdq(ty) => {
                match ty {
                    AssemblyType::Longword => push_line(lines, string_of("    cdq")),
                    AssemblyType::Quadword => push_line(lines, string_of("    cqo")),
                }
            },
            Instruction::Cmp(ty, a, b) => {
                let mut s = string_of("    cmp");
                push_str(&mut s, suffix(*ty));
                push_str(&mut s, " ");
                push_string(&mut s, &a.format(size_bytes(*ty)));
                push_str(&mut s, ", ");
                push_string(&mut s, &b.format(size_bytes(*ty)));
                push_line(lines, s);
            },
            Instruction::Jump(label) => {
                let mut s = string_of("    jmp ");
                push_string(&mut s, &label.0);
                push_line(lines, s);
            },
            Instruction::JumpCC(c, label) => {
                let mut s = string_of("    j");
                push_str(&mut s, c.format());
                push_str(&mut s, " ");
                push_string(&mut s, &label.0);
                push_line(lines, s);
            },
            Instruction::SetCC(c, operand) => {
                let mut s = string_of("    set");
                push_str(&mut s, c.format());
                push_str(&mut s, " ");
                push_string(&mut s, &operand.format(1));
                push_line(lines, s);
            },
            Instruction::Label(label) => {
                let mut s = label.0.clone();
                push_str(&mut s, ":");
                push_line(lines, s);
            },
            Instruction::Comment(c) => {
                let mut s = string_of("    # ");
                push_str(&mut s, c);
                push_line(lines, s);
            },
            Instruction::Call(name) => {
                let mut s = string_of("    call ");
                push_string(&mut s, &name.0);
                if !defined_function(symbols, name) {
                    push_str(&mut s, "@PLT");
                }
                push_line(lines, s);
            },
            Instruction::Push(op) => {
                let mut s = string_of("    pushq ");
                push_string(&mut s, &op.format(8));
                push_line(lines, s);
            },
            Instruction::Movsx { src, dst } => {
                let mut s = string_of("    movslq ");
                push_string(&mut s, &src.format(4));
                push_str(&mut s, ", ");
                push_string(&mut s, &dst.format(8));
                push_line(lines, s);
            },
        }
        proof {
            assert(texts(lines@) =~= start + instruction_lines(*self, match *self {
                Instruction::Call(name) => is_defined(*symbols, name@),
                _ => false,
            }));
        }
    }
}

/// The parts joined with `sep` between each two.
pub open spec fn join(parts: Seq<Seq<char>>, sep: Seq<char>) -> Seq<char>
    decreases parts.len(),
{
    if parts.len() == 0 {
        Seq::empty()
    } else if parts.len() == 1 {
        parts[0]
    } else {
        join(parts.drop_last(), sep) + sep + parts.last()
    }
}

fn join_strings(parts: &Vec<String>, sep: &str) -> (r: String)
    ensures
        r@ == join(texts(parts@), sep@),
{
    let mut r = String::new();
    let mut k: usize = 0;
    while k < parts.len()
        invariant
            k <= parts@.len(),
            r@ == join(texts(parts@.take(k as int)), sep@),
        decreases parts@.len() - k,
    {
        proof {
            assert(texts(parts@.take(k + 1)).drop_last() =~= texts(parts@.take(k as int)));
            assert(texts(parts@.take(k + 1)).last() == parts@[k as int]@);
        }
        if k > 0 {
            push_str(&mut r, sep);
        }
        push_string(&mut r, &parts[k]);
        k = k + 1;
    }
    proof {
        assert(parts@.take(parts@.len() as int) =~= parts@);
    }
    r
}

/// Whether the symbol table marks a call's target as defined.
pub open spec fn call_defined(i: Instruction, symbols: AsmSymbols) -> bool {
    match i {
        Instruction::Call(name) => is_defined(symbols, name@),
        _ => false,
    }
}

/// The lines of a list of instructions.
pub open spec fn all_lines(s: Seq<Instruction>, symbols: AsmSymbols) -> Seq<Seq<char>>
    decreases s.len(),
{
    if s.len() == 0 {
        seq![]
    } else {
        all_lines(s.drop_last(), symbols) + instruction_lines(s.last(), call_defined(s.last(), symbols))
    }
}

pub open spec fn globl_directive(global: bool, name: Seq<char>) -> Seq<char> {
    if global { ".globl "@ + name } else { Seq::empty() }
}

/// The text of a function: its directives, label, prologue and body.
pub open spec fn function_text(f: FunctionDefinition, symbols: AsmSymbols) -> Seq<char> {
    "\n    .type "@ + f.name.0@ + ", @function\n    "@ + globl_directive(f.global, f.name.0@) + "\n    .text\n"@
        + f.name.0@ + ":\n    pushq %rbp\n    movq %rsp, %rbp\n"@ + join(all_lines(f.instructions@, symbols), "\n"@)
}

impl FunctionDefinition {
    pub fn format(&self, symbols: &AsmSymbols) -> (s: String)
        requires
            forall|k: int| 0 <= k < self.instructions@.len() ==> printable(#[trigger] self.instructions@[k]),
        ensures
            s@ == function_text(*self, *symbols),
    {
        let mut lines: Vec<String> = Vec::new();
        let mut k: usize = 0;
        while k < self.instructions.len()
            invariant
                k <= self.instructions@.len(),
                forall|j: int| 0 <= j < self.instructions@.len() ==> printable(#[trigger] self.instructions@[j]),
                texts(lines@) == all_lines(self.instructions@.take(k as int), *symbols),
            decreases self.instructions@.len() - k,
        {
            proof {
                assert(self.instructions@.take(k + 1).drop_last() =~= self.instructions@.take(k as int));
            }
            self.instructions[k].format(&mut lines, symbols);
            k = k + 1;
        }
        proof {
            assert(self.instructions@.take(self.instructions@.len() as int) =~= self.instructions@);
        }
        let body = join_strings(&lines, "\n");
        let mut s = string_of("\n    .type ");
        push_string(&mut s, &self.name.0);
        push_str(&mut s, ", @function\n    ");
        if self.global {
            push_str(&mut s, ".globl ");
            push_string(&mut s, &self.name.0);
        }
        push_str(&mut s, "\n    .text\n");
        push_string(&mut s, &self.name.0);
        push_str(&mut s, ":\n    pushq %rbp\n    movq %rsp, %rbp\n");
        push_string(&mut s, &body);
        s
    }
}

/// The directive that gives a static variable its initial value.
pub open spec fn init_directive(init: StaticInit) -> Seq<char> {
    match init {
        StaticInit::Int(i) => ".long "@ + int_text(i as int),
        StaticInit::Long(l) => ".quad "@ + int_text(l as int),
    }
}

/// The text of a static variable: in `.bss` when it is zero, in `.data`
/// with its value otherwise.
pub open spec fn static_text(v: StaticVariable) -> Seq<char> {
    let head = "\n    "@ + globl_directive(v.global, v.name.0@);
    if spec_static_value(v.init) == 0 {
        head + "\n    .bss\n    .balign "@ + decimal(v.alignment as nat) + "\n"@ + v.name.0@ + ":\n    .zero "@
            + decimal(if v.init is Int { 4nat } else { 8nat }) + "\n"@
    } else {
        head + "\n    .data\n    .balign "@ + decimal(v.alignment as nat) + "\n"@ + v.name.0@ + ":\n    "@
            + init_directive(v.init) + "\n"@
    }
}

impl StaticVariable {
    pub fn format(&self) -> (s: String)
        ensures
            s@ == static_text(*self),
    {
        let mut s = string_of("\n    ");
        if self.global {
            push_str(&mut s, ".globl ");
            push_string(&mut s, &self.name.0);
        }
        if self.init.is_zero() {
            push_str(&mut s, "\n    .bss\n    .balign ");
            push_decimal(&mut s, self.alignment as u64);
            push_str(&mut s, "\n");
            push_string(&mut s, &self.name.0);
            push_str(&mut s, ":\n    .zero ");
            push_decimal(&mut s, self.init.size_bytes() as u64);
            push_str(&mut s, "\n");
        } else {
            push_str(&mut s, "\n    .data\n    .balign ");
            push_decimal(&mut s, self.alignment as u64);
            push_str(&mut s, "\n");
            push_string(&mut s, &self.name.0);
            push_str(&mut s, ":\n    ");
            match self.init {
                StaticInit::Int(i) => {
                    push_str(&mut s, ".long ");
                    push_int(&mut s, i as i64);
                },
                StaticInit::Long(l) => {
                    push_str(&mut s, ".quad ");
                    push_int(&mut s, l);
                },
            }
            push_str(&mut s, "\n");
        }
        s
    }
}

/// Whether every instruction of a top-level item can be printed.
pub open spec fn top_level_printable(t: TopLevel) -> bool {
    t matches TopLevel::F(f) ==> forall|k: int| 0 <= k < f.instructions@.len() ==> printable(#[trigger] f.instructions@[k])
}

pub open spec fn top_level_text(t: TopLevel, symbols: AsmSymbols) -> Seq<char> {
    match t {
        TopLevel::F(f) => function_text(f, symbols),
        TopLevel::V(v) => static_text(v),
    }
}

impl TopLevel {
    pub fn format(&self, symbols: &AsmSymbols) -> (s: String)
        requires
            top_level_printable(*self),
        ensures
            s@ == top_level_text(*self, *symbols),
    {
        match self {
            TopLevel::F(f) => f.format(symbols),
            TopLevel::V(v) => v.format(),
        }
    }
}

/// The text of a program: the GNU stack note, then its items separated by
/// blank lines.
pub open spec fn program_text(p: Program, symbols: AsmSymbols) -> Seq<char> {
    "    .section .note.GNU-stack,\"\",@progbits\n    .text\n"@
        + join(Seq::new(p.0@.len(), |k: int| top_level_text(p.0@[k], symbols)), "\n\n"@) + "\n"@
}

/// Whether every instruction of a program can be printed.
pub open spec fn program_printable(p: Program) -> bool {
    forall|k: int| 0 <= k < p.0@.len() ==> top_level_printable(#[trigger] p.0@[k])
}

impl Program {
    /// The program as assembler text.
    pub fn format(&self, symbols: &AsmSymbols) -> (s: String)
        requires
            program_printable(*self),
        ensures
            s@ == program_text(*self, *symbols),
    {
        let mut parts: Vec<String> = Vec::new();
        let mut k: usize = 0;
        while k < self.0.len()
            invariant
                k <= self.0@.len(),
                program_printable(*self),
                parts@.len() == k,
                forall|j: int| 0 <= j < k ==> (#[trigger] parts@[j])@ == top_level_text(self.0@[j], *symbols),
            decreases self.0@.len() - k,
        {
            parts.push(self.0[k].format(symbols));
            k = k + 1;
        }
        let inner = join_strings(&parts, "\n\n");
        proof {
            assert(texts(parts@) =~= Seq::new(self.0@.len(), |j: int| top_level_text(self.0@[j], *symbols)));
        }
        let mut s = string_of("    .section .note.GNU-stack,\"\",@progbits\n    .text\n");
        push_string(&mut s, &inner);
        push_str(&mut s, "\n");
        s
    }

    /// Whether every instruction of the program can be printed.
    pub fn is_printable(&self) -> (r: bool)
        ensures
            r == program_printable(*self),
    {
        let mut k: usize = 0;
        while k < self.0.len()
            invariant
                k <= self.0@.len(),
                forall|j: int| 0 <= j < k ==> top_level_printable(#[trigger] self.0@[j]),
            decreases self.0@.len() - k,
        {
            match &self.0[k] {
                TopLevel::F(f) => {
                    let mut j: usize = 0;
                    while j < f.instructions.len()
                        invariant
                            j <= f.instructions@.len(),
                            k < self.0@.len(),
                            self.0@[k as int] == TopLevel::F(*f),
                            forall|m: int| 0 <= m < j ==> printable(#[trigger] f.instructions@[m]),
                        decreases f.instructions@.len() - j,
                    {
                        if !instruction_printable(&f.instructions[j]) {
                            proof {
                                assert(!printable(f.instructions@[j as int]));
                                let t = self.0@[k as int];
                                assert(t->F_0 == *f);
                                assert(!top_level_printable(t));
                            }
                            return false;
                        }
                        j = j + 1;
                    }
                },
                _ => {},
            }
            k = k + 1;
        }
        true
    }
}

fn not_pseudo(o: &Operand) -> (r: bool)
    ensures
        r == !(*o is Pseudo),
{
    match o {
        Operand::Pseudo(_) => false,
        _ => true,
    }
}

/// Whether an instruction can be printed.
pub fn instruction_printable(i: &Instruction) -> (r: bool)
    ensures
        r == printable(*i),
{
    match i {
        Instruction::Mov { src, dst, .. } => not_pseudo(src) && not_pseudo(dst),
        Instruction::Movsx { src, dst } => not_pseudo(src) && not_pseudo(dst),
        Instruction::Unary { operator, operand, .. } => not_pseudo(operand) && *operator != UnaryOperator::Not,
        Instruction::Binary { operator, src, dst, .. } => {
            let mnemonic = match operator {
                BinaryOperator::NotEqual | BinaryOperator::GreaterThan | BinaryOperator::GreaterEqual
                | BinaryOperator::LessThan | BinaryOperator::LessEqual => false,
                _ => true,
            };
            not_pseudo(src) && not_pseudo(dst) && mnemonic
        },
        Instruction::Cmp(_, a, b) => not_pseudo(a) && not_pseudo(b),
        Instruction::Idiv(_, a) => not_pseudo(a),
        Instruction::SetCC(_, a) => not_pseudo(a),
        Instruction::Push(a) => not_pseudo(a),
        _ => true,
    }
}

/// At each size, each register prints under its own name: no two registers
/// print alike, so `%edx` is never written for `%eax`.
pub proof fn lemma_register_names_distinct(a: Register, b: Register, size: u32)
    requires
        named_size(size),
    ensures
        register_text(a, size) == register_text(b, size) ==> a == b,
{
    reveal_strlit("%al");
    reveal_strlit("%eax");
    reveal_strlit("%rax");
    reveal_strlit("%cl");
    reveal_strlit("%ecx");
    reveal_strlit("%rcx");
    reveal_strlit("%dl");
    reveal_strlit("%edx");
    reveal_strlit("%rdx");
    reveal_strlit("%dil");
    reveal_strlit("%edi");
    reveal_strlit("%rdi");
    reveal_strlit("%sil");
    reveal_strlit("%esi");
    reveal_strlit("%rsi");
    reveal_strlit("%r8b");
    reveal_strlit("%r8d");
    reveal_strlit("%r8");
    reveal_strlit("%r9b");
    reveal_strlit("%r9d");
    reveal_strlit("%r9");
    reveal_strlit("%r10b");
    reveal_strlit("%r10d");
    reveal_strlit("%r10");
    reveal_strlit("%r11b");
    reveal_strlit("%r11d");
    reveal_strlit("%r11");
    reveal_strlit("%rsp");
    if a != b && register_text(a, size) == register_text(b, size) {
        let x = register_text(a, size);
        let y = register_text(b, size);
        assert(x.len() == y.len());
        assert(x[1] == y[1]);
        assert(x[2] == y[2]);
        if x.len() > 3 {
            assert(x[3] == y[3]);
        }
        if x.len() > 4 {
            assert(x[4] == y[4]);
        }
    }
}

} // verus!
