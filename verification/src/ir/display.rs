//! The text form of the IR, one instruction per line.
use vstd::prelude::*;
use crate::analysis::StaticInit;
use crate::analysis::typechecking::spec_static_value;
use crate::ir::data::{FunctionDefinition, Instruction, Program, StaticVariable, TopLevel, Value};
use crate::ir::{binary_text, unary_text};
use crate::parser::ast::constant_value;
use crate::text::{int_text, push_int, push_str, push_string};

verus! {

/// A constant prints as its number, a variable as its name.
pub open spec fn value_text(v: Value) -> Seq<char> {
    match v {
        Value::Constant(c) => int_text(constant_value(c)),
        Value::Var(i) => i.0@,
    }
}

/// The arguments of a call, separated by `", "`.
pub open spec fn args_text(args: Seq<Value>) -> Seq<char>
    decreases args.len(),
{
    if args.len() == 0 {
        seq![]
    } else if args.len() == 1 {
        value_text(args[0])
    } else {
        args_text(args.drop_last()) + ", "@ + value_text(args.last())
    }
}

/// One instruction, without the line break.
pub open spec fn instruction_text(i: Instruction) -> Seq<char> {
    match i {
        Instruction::SignExtend { src, dst } => "\t"@ + value_text(dst) + " = sign_extend("@ + value_text(src) + ");"@,
        Instruction::Truncate { src, dst } => "\t"@ + value_text(dst) + " = truncate("@ + value_text(src) + ");"@,
        Instruction::Return(v) => "\treturn "@ + value_text(v) + ";"@,
        Instruction::Unary { operator, src, dst } => "\t"@ + value_text(dst) + " = "@ + unary_text(operator) + value_text(src) + ";"@,
        Instruction::Binary { operator, lhs, rhs, dst } => "\t"@ + value_text(dst) + " = "@ + value_text(lhs) + " "@
            + binary_text(operator) + " "@ + value_text(rhs) + ";"@,
        Instruction::Copy { src, dst } => "\t"@ + value_text(dst) + " = "@ + value_text(src) + ";"@,
        Instruction::Jump(t) => "\tgoto "@ + t.0@ + ";"@,
        Instruction::JumpIfZero { condition, target } => "\tjz "@ + value_text(condition) + " => "@ + target.0@,
        Instruction::JumpNotZero { condition, target } => "\tjnz "@ + value_text(condition) + " => "@ + target.0@,
        Instruction::Label(l) => l.0@ + ":"@,
        Instruction::Comment(c) => "\t# "@ + c@,
        Instruction::FunctionCall { name, args, dst } => "\t"@ + value_text(dst) + " = "@ + name.0@ + "("@
            + args_text(args@) + ");"@,
    }
}

/// The instructions of a body, each followed by a line break.
pub open spec fn body_text(body: Seq<Instruction>) -> Seq<char>
    decreases body.len(),
{
    if body.len() == 0 {
        seq![]
    } else {
        body_text(body.drop_last()) + instruction_text(body.last()) + "\n"@
    }
}

/// A function: its header, its body and the closing brace.
pub open spec fn function_text(f: FunctionDefinition) -> Seq<char> {
    "fn "@ + f.name.0@ + "() {\n"@ + body_text(f.body@) + "}"@
}

/// A static variable and its initial value.
pub open spec fn static_text(v: StaticVariable) -> Seq<char> {
    "static "@ + v.name.0@ + " = "@ + int_text(spec_static_value(v.init)) + ";"@
}

pub open spec fn top_level_text(t: TopLevel) -> Seq<char> {
    match t {
        TopLevel::F(f) => function_text(f),
        TopLevel::V(v) => static_text(v),
    }
}

/// The items of a program, each followed by a blank line.
pub open spec fn items_text(items: Seq<TopLevel>) -> Seq<char>
    decreases items.len(),
{
    if items.len() == 0 {
        seq![]
    } else {
        items_text(items.drop_last()) + top_level_text(items.last()) + "\n\n"@
    }
}

fn push_value(out: &mut String, v: &Value)
    ensures
        final(out)@ == old(out)@ + value_text(*v),
{
    match v {
        Value::Constant(c) => push_int(out, c.i64()),
        Value::Var(i) => push_string(out, &i.0),
    }
}

impl Value {
    pub fn text(&self) -> (s: String)
        ensures
            s@ == value_text(*self),
    {
        let mut s = String::new();
        push_value(&mut s, self);
        proof { assert(s@ =~= value_text(*self)); }
        s
    }
}

fn push_args(out: &mut String, args: &Vec<Value>)
    ensures
        final(out)@ == old(out)@ + args_text(args@),
{
    let mut k: usize = 0;
    while k < args.len()
        invariant
            k <= args@.len(),
            out@ == old(out)@ + args_text(args@.subrange(0, k as int)),
        decreases args@.len() - k,
    {
        let ghost before = out@;
        if k > 0 {
            push_str(out, ", ");
        }
        push_value(out, &args[k]);
        proof {
            let s = args@.subrange(0, k + 1);
            assert(s.drop_last() =~= args@.subrange(0, k as int));
            if k == 0 {
                assert(args_text(s) == value_text(args@[0]));
            }
            assert(out@ =~= old(out)@ + args_text(s));
        }
        k = k + 1;
    }
    proof { assert(args@.subrange(0, args@.len() as int) =~= args@); }
}

fn push_instruction(out: &mut String, i: &Instruction)
    ensures
        final(out)@ == old(out)@ + instruction_text(*i),
{
    let ghost o = out@;
    match i {
        Instruction::SignExtend { src, dst } => {
            push_str(out, "\t");
            push_value(out, dst);
            push_str(out, " = sign_extend(");
            push_value(out, src);
            push_str(out, ");");
        },
        Instruction::Truncate { src, dst } => {
            push_str(out, "\t");
            push_value(out, dst);
            push_str(out, " = truncate(");
            push_value(out, src);
            push_str(out, ");");
        },
        Instruction::Return(v) => {
            push_str(out, "\treturn ");
            push_value(out, v);
            push_str(out, ";");
        },
        Instruction::Unary { operator, src, dst } => {
            push_str(out, "\t");
            push_value(out, dst);
            push_str(out, " = ");
            push_str(out, operator.to_str());
            push_value(out, src);
            push_str(out, ";");
        },
        Instruction::Binary { operator, lhs, rhs, dst } => {
            push_str(out, "\t");
            push_value(out, dst);
            push_str(out, " = ");
            push_value(out, lhs);
            push_str(out, " ");
            push_str(out, operator.to_str());
            push_str(out, " ");
            push_value(out, rhs);
            push_str(out, ";");
        },
        Instruction::Copy { src, dst } => {
            push_str(out, "\t");
            push_value(out, dst);
            push_str(out, " = ");
            push_value(out, src);
            push_str(out, ";");
        },
        Instruction::Jump(t) => {
            push_str(out, "\tgoto ");
            push_string(out, &t.0);
            push_str(out, ";");
        },
        Instruction::JumpIfZero { condition, target } => {
            push_str(out, "\tjz ");
            push_value(out, condition);
            push_str(out, " => ");
            push_string(out, &target.0);
        },
        Instruction::JumpNotZero { condition, target } => {
            push_str(out, "\tjnz ");
            push_value(out, condition);
            push_str(out, " => ");
            push_string(out, &target.0);
        },
        Instruction::Label(l) => {
            push_string(out, &l.0);
            push_str(out, ":");
        },
        Instruction::Comment(c) => {
            push_str(out, "\t# ");
            push_str(out, c);
        },
        Instruction::FunctionCall { name, args, dst } => {
            push_str(out, "\t");
            push_value(out, dst);
            push_str(out, " = ");
            push_string(out, &name.0);
            push_str(out, "(");
            push_args(out, args);
            push_str(out, ");");
        },
    }
    proof { assert(out@ =~= o + instruction_text(*i)); }
}

impl Instruction {
    pub fn text(&self) -> (s: String)
        ensures
            s@ == instruction_text(*self),
    {
        let mut s = String::new();
        push_instruction(&mut s, self);
        proof { assert(s@ =~= instruction_text(*self)); }
        s
    }
}

fn push_function(out: &mut String, f: &FunctionDefinition)
    ensures
        final(out)@ == old(out)@ + function_text(*f),
{
    let ghost o = out@;
    push_str(out, "fn ");
    push_string(out, &f.name.0);
    push_str(out, "() {\n");
    let ghost head = out@;
    let mut k: usize = 0;
    while k < f.body.len()
        invariant
            k <= f.body@.len(),
            out@ == head + body_text(f.body@.subrange(0, k as int)),
        decreases f.body@.len() - k,
    {
        push_instruction(out, &f.body[k]);
        push_str(out, "\n");
        proof {
            assert(f.body@.subrange(0, k + 1).drop_last() =~= f.body@.subrange(0, k as int));
            assert(out@ =~= head + body_text(f.body@.subrange(0, k + 1)));
        }
        k = k + 1;
    }
    push_str(out, "}");
    proof {
        assert(f.body@.subrange(0, f.body@.len() as int) =~= f.body@);
        assert(out@ =~= o + function_text(*f));
    }
}

impl FunctionDefinition {
    pub fn text(&self) -> (s: String)
        ensures
            s@ == function_text(*self),
    {
        let mut s = String::new();
        push_function(&mut s, self);
        proof { assert(s@ =~= function_text(*self)); }
        s
    }
}

fn push_static(out: &mut String, v: &StaticVariable)
    ensures
        final(out)@ == old(out)@ + static_text(*v),
{
    let ghost o = out@;
    push_str(out, "static ");
    push_string(out, &v.name.0);
    push_str(out, " = ");
    match v.init {
        StaticInit::Int(i) => push_int(out, i as i64),
        StaticInit::Long(l) => push_int(out, l),
    }
    push_str(out, ";");
    proof { assert(out@ =~= o + static_text(*v)); }
}

impl StaticVariable {
    pub fn text(&self) -> (s: String)
        ensures
            s@ == static_text(*self),
    {
        let mut s = String::new();
        push_static(&mut s, self);
        proof { assert(s@ =~= static_text(*self)); }
        s
    }
}

fn push_top_level(out: &mut String, t: &TopLevel)
    ensures
        final(out)@ == old(out)@ + top_level_text(*t),
{
    match t {
        TopLevel::F(f) => push_function(out, f),
        TopLevel::V(v) => push_static(out, v),
    }
}

impl TopLevel {
    pub fn text(&self) -> (s: String)
        ensures
            s@ == top_level_text(*self),
    {
        let mut s = String::new();
        push_top_level(&mut s, self);
        proof { assert(s@ =~= top_level_text(*self)); }
        s
    }
}

impl Program {
    /// The program as text: each item followed by a blank line.
    pub fn text(&self) -> (s: String)
        ensures
            s@ == items_text(self.0@),
    {
        let mut s = String::new();
        let mut k: usize = 0;
        while k < self.0.len()
            invariant
                k <= self.0@.len(),
                s@ == items_text(self.0@.subrange(0, k as int)),
            decreases self.0@.len() - k,
        {
            let ghost before = s@;
            push_top_level(&mut s, &self.0[k]);
            push_str(&mut s, "\n\n");
            proof {
                assert(self.0@.subrange(0, k + 1).drop_last() =~= self.0@.subrange(0, k as int));
                assert(s@ =~= items_text(self.0@.subrange(0, k + 1)));
            }
            k = k + 1;
        }
        proof { assert(self.0@.subrange(0, self.0@.len() as int) =~= self.0@); }
        s
    }
}

} // verus!
