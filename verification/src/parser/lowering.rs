//! Lowering of the checked syntax tree to the three-address IR.
use vstd::prelude::*;
use crate::analysis::{IdentifierAttributes, InitialValue, StaticInit, Symbol, Type, TypeView, clone_type, same_type};
use crate::analysis::typechecking::spec_global;
use crate::table::{Key, is_latest, lemma_entries_map_value};
use crate::analysis::checker::Symbols;
use crate::ir::{self, Instruction, StaticVariable, TopLevel, Value};
use crate::ir::data::{value_type, value_const_type, emitted, lemma_emitted_trans, lemma_emitted_push, lemma_emitted_refl};
use crate::parser::ast::{
    constant_type, constant_value, BlockItem, Constant, ConstantType, Declaration, ExprKind, Expression, ForInit, FunctionDeclaration, Identifier,
    Program, Statement, StmtKind, StorageClass, Switch, VariableDeclaration,
};
use crate::parser::operators::{BinaryOperator, IncDec, UnaryOperator, spec_binary_lower, spec_can_be_lowered, spec_unary_lower};
use crate::text::{string_of, push_string, push_str};

verus! {

broadcast use vstd::std_specs::vec::axiom_spec_len, lemma_emitted_trans, lemma_emitted_push;

/// Whether an expression can be lowered: assignments and increments apply to
/// variables, compound assignments are gone, and every binary operator is
/// one the IR has or `&&`/`||`.
pub open spec fn expr_lowerable(e: Expression) -> bool
    decreases e,
{
    match e.kind {
        ExprKind::Var(_) | ExprKind::Constant(_) => true,
        ExprKind::Cast { expr, .. } => expr_lowerable(*expr),
        ExprKind::Unary { expr, .. } => expr_lowerable(*expr),
        ExprKind::Binary { operator, lhs, rhs } => {
            &&& spec_can_be_lowered(operator) || operator == BinaryOperator::And || operator == BinaryOperator::Or
            &&& expr_lowerable(*lhs)
            &&& expr_lowerable(*rhs)
        },
        ExprKind::CompoundAssign { .. } => false,
        ExprKind::Assignment(l, r) => l.kind is Var && expr_lowerable(*r),
        ExprKind::Prefix(_, inner) => inner.kind is Var,
        ExprKind::Postfix(_, inner) => inner.kind is Var,
        ExprKind::Conditional(c, t, f) => expr_lowerable(*c) && expr_lowerable(*t) && expr_lowerable(*f),
        ExprKind::FunctionCall { args, .. } => forall|k: int| 0 <= k < args@.len() ==> expr_lowerable(#[trigger] args@[k]),
    }
}

/// Whether `r` is a temporary that the symbol table records.
pub open spec fn recorded_temp(r: Value, symbols: Symbols) -> bool {
    r matches Value::Var(t) && symbols@.dom().contains(t@)
}

/// The type of the temporary that lowering `e` records for its value, read
/// in table `m`: an operation's operand type (a binary operation's left
/// operand), `int` for `&&` and `||`, the true branch's type for `?:`, and a
/// call's return type.
pub open spec fn temp_type(e: Expression, m: Map<Key, Symbol>) -> TypeView {
    match e.kind {
        ExprKind::Unary { expr, .. } => expr.ty@,
        ExprKind::Postfix(_, inner) => inner.ty@,
        ExprKind::Binary { operator, lhs, .. } => if operator == BinaryOperator::And || operator == BinaryOperator::Or {
            TypeView::Int
        } else {
            lhs.ty@
        },
        ExprKind::Conditional(_, t, _) => t.ty@,
        ExprKind::FunctionCall { name, .. } => if m.dom().contains(name@) {
            match m[name@].ty {
                Type::Function(f) => f.return_type@,
                _ => TypeView::Int,
            }
        } else {
            TypeView::Int
        },
        _ => TypeView::Int,
    }
}

/// Whether the value `r` of an operation, a call or a postfix `++`/`--` is a
/// temporary that table `old` did not hold and table `fin` records as a
/// local of type `temp_type`.
pub open spec fn temp_recorded(e: Expression, r: Value, old: Map<Key, Symbol>, fin: Map<Key, Symbol>) -> bool {
    match e.kind {
        ExprKind::Unary { .. } | ExprKind::Postfix(..) | ExprKind::Binary { .. } | ExprKind::Conditional(..)
            | ExprKind::FunctionCall { .. } => {
            &&& r matches Value::Var(t) && !old.dom().contains(t@) && fin.dom().contains(t@)
                && fin[t@].attributes == IdentifierAttributes::Local && fin[t@].ty@ == temp_type(e, fin)
        },
        _ => true,
    }
}

/// What lowering an expression gives: a constant or a variable stands for
/// itself; an assignment or increment gives its variable; every other
/// operation gives a temporary, written by the last instruction emitted.
pub open spec fn lowered_value(e: Expression, r: Value, before: Seq<Instruction>, after: Seq<Instruction>, symbols: Symbols) -> bool {
    match e.kind {
        ExprKind::Constant(c) => r == Value::Constant(c) && after == before,
        ExprKind::Var(v) => r == Value::Var(v) && after == before,
        ExprKind::Assignment(l, _) => {
            &&& l.kind matches ExprKind::Var(v) && r == Value::Var(v)
            &&& after.len() > before.len()
            &&& after.last() matches Instruction::Copy { dst, .. } && dst == r
        },
        ExprKind::Unary { operator, .. } => {
            &&& recorded_temp(r, symbols)
            &&& after.len() > before.len()
            &&& after.last() matches Instruction::Unary { operator: op, dst, .. } && op == spec_unary_lower(operator) && dst == r
        },
        ExprKind::Binary { operator, .. } => {
            &&& recorded_temp(r, symbols)
            &&& after.len() > before.len()
            &&& spec_can_be_lowered(operator) ==> (after.last() matches Instruction::Binary { operator: op, dst, .. }
                && op == spec_binary_lower(operator) && dst == r)
            &&& !spec_can_be_lowered(operator) ==> after.last() is Label
        },
        ExprKind::Prefix(_, inner) => {
            &&& inner.kind matches ExprKind::Var(v) && r == Value::Var(v)
            &&& after.len() > before.len()
            &&& after.last() matches Instruction::Binary { operator: op, dst, .. } && op == ir::BinaryOperator::Add && dst == r
        },
        ExprKind::Postfix(_, inner) => {
            &&& recorded_temp(r, symbols)
            &&& after.len() > before.len()
            &&& inner.kind matches ExprKind::Var(v) && (after.last() matches Instruction::Binary { operator: op, dst, .. }
                && op == ir::BinaryOperator::Add && dst == Value::Var(v))
        },
        ExprKind::Conditional(..) => {
            &&& recorded_temp(r, symbols)
            &&& after.len() > before.len()
            &&& after.last() is Label
        },
        ExprKind::FunctionCall { name, .. } => {
            &&& recorded_temp(r, symbols)
            &&& after.len() > before.len()
            &&& after.last() matches Instruction::FunctionCall { name: n, dst, .. } && n == name && dst == r
        },
        ExprKind::Cast { .. } => true,
        ExprKind::CompoundAssign { .. } => false,
    }
}

/// A name that the table does not record: longer than every name it holds.
fn unused_identifier(base: &Identifier, symbols: &Symbols) -> (r: Identifier)
    ensures
        !symbols@.dom().contains(r@),
        r.1@ == base.1@,
{
    let mut s = string_of("");
    let mut k: usize = 0;
    while k < symbols.entries.len()
        invariant
            k <= symbols.entries@.len(),
            forall|j: int| 0 <= j < k ==> s@.len() >= (#[trigger] symbols.entries@[j]).0.0@.len(),
        decreases symbols.entries@.len() - k,
    {
        push_string(&mut s, &symbols.entries[k].0.0);
        k = k + 1;
    }
    let ghost before = s@;
    push_str(&mut s, "_");
    proof {
        reveal_strlit("_");
        assert(s@.len() == before.len() + 1);
    }
    let r = Identifier(s, string_of(base.1.as_str()));
    proof {
        crate::table::lemma_entries_map_dom(symbols.entries@, r@);
        assert forall|j: int| 0 <= j < symbols.entries@.len() implies (#[trigger] symbols.entries@[j]).0@ != r@ by {
            assert(r.0@.len() > symbols.entries@[j].0.0@.len());
        }
    }
    r
}

/// Creates a fresh temporary of type `ty`, recorded as a local: a name made
/// of `name` and random letters, or, should the table already hold that
/// name, one it does not hold.
fn fresh_temp(name: &str, ty: Type, symbols: &mut Symbols) -> (r: Value)
    ensures
        recorded_temp(r, *final(symbols)),
        old(symbols)@.dom().subset_of(final(symbols)@.dom()),
        r matches Value::Var(t) && !old(symbols)@.dom().contains(t@)
            && final(symbols)@ == old(symbols)@.insert(t@, Symbol { attributes: IdentifierAttributes::Local, ty }),
{
    let mut id = Identifier::new(name);
    if symbols.contains_key(&id) {
        id = unused_identifier(&id, symbols);
    }
    let ghost key = id@;
    symbols.insert(id.clone(), Symbol { attributes: IdentifierAttributes::Local, ty });
    Value::Var(id)
}

impl Constant {
    pub fn lower(self) -> (r: Value)
        ensures
            r == Value::Constant(self),
    {
        match self {
            Constant::Int(i) => Value::Constant(Constant::Int(i)),
            Constant::Long(l) => Value::Constant(Constant::Long(l)),
        }
    }
}

fn kind_of(v: &Value, symbols: &Symbols) -> (t: ConstantType)
    ensures
        t == (match value_const_type(*v, *symbols) {
            Some(k) => k,
            None => ConstantType::Int,
        }),
{
    match v.const_ty(symbols) {
        Some(t) => t,
        None => ConstantType::Int,
    }
}

/// The type of a value under the table `m`: a constant's own, a recorded
/// variable's recorded one, `int` otherwise.
pub open spec fn value_type_in(v: Value, m: Map<Key, Symbol>) -> TypeView {
    match v {
        Value::Constant(Constant::Int(_)) => TypeView::Int,
        Value::Constant(Constant::Long(_)) => TypeView::Long,
        Value::Var(i) => if m.dom().contains(i@) { m[i@].ty@ } else { TypeView::Int },
    }
}

/// The kind of constant that goes with a value under the table `m`.
pub open spec fn kind_in(v: Value, m: Map<Key, Symbol>) -> ConstantType {
    match value_type_in(v, m) {
        TypeView::Long => ConstantType::Long,
        _ => ConstantType::Int,
    }
}

/// The value a conditional jump tests.
pub open spec fn jump_condition(i: Instruction) -> Option<Value> {
    match i {
        Instruction::JumpIfZero { condition, .. } => Some(condition),
        Instruction::JumpNotZero { condition, .. } => Some(condition),
        _ => None,
    }
}

/// Whether instruction `i` converts a value into `r`.
pub open spec fn converts_into(i: Instruction, r: Value) -> bool {
    match i {
        Instruction::SignExtend { dst, .. } => dst == r,
        Instruction::Truncate { dst, .. } => dst == r,
        _ => false,
    }
}

/// How a cast to `target` is lowered, given the tables before (`old`) and
/// after (`fin`): when the code ends in a conversion into the result, the
/// converted value had another type, the conversion sign-extends to `long`
/// or truncates to `int`, and the result is a fresh local temporary of the
/// target type; otherwise the result already has the target type (which is
/// all there is to say of a cast to a function type).
pub open spec fn cast_lowered(target: TypeView, code: Seq<Instruction>, r: Value, old: Map<Key, Symbol>, fin: Map<Key, Symbol>) -> bool {
    if target is Function {
        value_type_in(r, fin) == target
    } else if code.len() > 0 && converts_into(code.last(), r) {
        &&& r matches Value::Var(t)
        &&& !old.dom().contains(t@)
        &&& fin.dom().contains(t@)
        &&& fin[t@].attributes == IdentifierAttributes::Local
        &&& fin[t@].ty@ == target
        &&& match code.last() {
            Instruction::SignExtend { src, .. } => target is Long && value_type_in(src, fin.remove(t@)) != target,
            Instruction::Truncate { src, .. } => target is Int && value_type_in(src, fin.remove(t@)) != target,
            _ => false,
        }
    } else {
        value_type_in(r, fin) == target
    }
}

/// Only a cast's code ends in a conversion.
proof fn lemma_only_cast_converts(e: Expression, code: Seq<Instruction>, r: Value)
    requires
        expr_code(e, code, r),
        !(e.kind is Cast),
        code.len() > 0,
    ensures
        !converts_into(code.last(), r),
{
}

/// The result constants of `&&` and `||` have the kind of the left
/// operand's value, the value the first conditional jump tests.
pub open spec fn logical_constants(lhs: Expression, code: Seq<Instruction>, m: Map<Key, Symbol>) -> bool {
    let n = code.len() as int;
    &&& n >= 7
    &&& code[n - 5] matches Instruction::Copy { src: Value::Constant(c1), .. }
    &&& code[n - 2] matches Instruction::Copy { src: Value::Constant(c2), .. }
    &&& exists|k: int| #![trigger code[k]] 0 <= k < n - 6 && jump_condition(code[k]) is Some
        && expr_code(lhs, code.subrange(0, k), jump_condition(code[k])->Some_0)
        && constant_type(c1) == kind_in(jump_condition(code[k])->Some_0, m)
        && constant_type(c2) == kind_in(jump_condition(code[k])->Some_0, m)
}

/// The instructions appended to `before` to make `after`.
pub open spec fn appended_code(before: Seq<Instruction>, after: Seq<Instruction>) -> Seq<Instruction> {
    after.subrange(before.len() as int, after.len() as int)
}

/// The amount an increment or decrement adds.
pub open spec fn inc_dec_amount(op: IncDec) -> int {
    match op {
        IncDec::Increment => 1,
        IncDec::Decrement => -1,
    }
}

/// Whether `code` computes `e` into `r`, as lowering emits it: the operands
/// first, left to right, then the operation; `&&` and `||` jump over their
/// right operand; `?:` jumps over the branch not taken; temporaries and
/// labels are fresh names that the relation leaves open.
pub open spec fn expr_code(e: Expression, code: Seq<Instruction>, r: Value) -> bool
    decreases e,
{
    let n = code.len() as int;
    match e.kind {
        ExprKind::Var(v) => n == 0 && r == Value::Var(v),
        ExprKind::Constant(c) => n == 0 && r == Value::Constant(c),
        ExprKind::Assignment(l, rhs) => {
            &&& l.kind matches ExprKind::Var(v) && r == Value::Var(v)
            &&& n > 0
            &&& code.last() matches Instruction::Copy { src, dst } && dst == r && expr_code(*rhs, code.drop_last(), src)
        },
        ExprKind::CompoundAssign { .. } => false,
        ExprKind::Unary { operator, expr } => {
            &&& n > 0
            &&& code.last() matches Instruction::Unary { operator: op, src, dst }
                && op == spec_unary_lower(operator) && dst == r && expr_code(*expr, code.drop_last(), src)
        },
        ExprKind::Binary { operator, lhs, rhs } => {
            if spec_can_be_lowered(operator) {
                &&& n > 0
                &&& code.last() matches Instruction::Binary { operator: op, lhs: lv, rhs: rv, dst }
                    && op == spec_binary_lower(operator) && dst == r
                    && exists|k: int| #![trigger code[k]] 0 <= k < n
                        && expr_code(*lhs, code.subrange(0, k), lv)
                        && expr_code(*rhs, code.subrange(k, n - 1), rv)
            } else {
                let and = operator == BinaryOperator::And;
                &&& operator == BinaryOperator::And || operator == BinaryOperator::Or
                &&& n >= 7
                &&& exists|k: int| #![trigger code[k]] {
                    &&& 0 <= k && k + 7 <= n
                    &&& code[n - 5] matches Instruction::Copy { src: Value::Constant(first), dst: d1 }
                    &&& d1 == r && constant_value(first) == (if and { 1int } else { 0int })
                    &&& code[n - 4] matches Instruction::Jump(end)
                    &&& code[n - 3] matches Instruction::Label(skip)
                    &&& code[n - 2] matches Instruction::Copy { src: Value::Constant(second), dst: d2 }
                    &&& d2 == r && constant_value(second) == (if and { 0int } else { 1int })
                    &&& code[n - 1] == Instruction::Label(end)
                    &&& if and {
                        &&& code[k] matches Instruction::JumpIfZero { condition: lv, target: t1 }
                        &&& t1 == skip && expr_code(*lhs, code.subrange(0, k), lv)
                        &&& code[n - 6] matches Instruction::JumpIfZero { condition: rv, target: t2 }
                        &&& t2 == skip && expr_code(*rhs, code.subrange(k + 1, n - 6), rv)
                    } else {
                        &&& code[k] matches Instruction::JumpNotZero { condition: lv, target: t1 }
                        &&& t1 == skip && expr_code(*lhs, code.subrange(0, k), lv)
                        &&& code[n - 6] matches Instruction::JumpNotZero { condition: rv, target: t2 }
                        &&& t2 == skip && expr_code(*rhs, code.subrange(k + 1, n - 6), rv)
                    }
                }
            }
        },
        ExprKind::Prefix(op, inner) => {
            &&& inner.kind matches ExprKind::Var(v) && r == Value::Var(v)
            &&& n == 1
            &&& code[0] matches Instruction::Binary { operator: ir::BinaryOperator::Add, lhs, rhs: Value::Constant(c), dst }
                && lhs == r && dst == r && constant_value(c) == inc_dec_amount(op)
        },
        ExprKind::Postfix(op, inner) => {
            &&& inner.kind matches ExprKind::Var(v)
                && n == 2
                && code[0] == Instruction::Copy { src: Value::Var(v), dst: r }
                && (code[1] matches Instruction::Binary { operator: ir::BinaryOperator::Add, lhs, rhs: Value::Constant(c), dst }
                    && lhs == Value::Var(v) && dst == Value::Var(v) && constant_value(c) == inc_dec_amount(op))
        },
        ExprKind::Conditional(c, t, f) => {
            &&& n >= 6
            &&& exists|k1: int, k2: int| #![trigger code[k1], code[k2]] {
                &&& 0 <= k1 < k2 && k2 + 5 <= n
                &&& code[n - 1] matches Instruction::Label(end)
                &&& code[n - 2] matches Instruction::Copy { src: fv, dst: d2 }
                &&& d2 == r
                &&& code[k1] matches Instruction::JumpIfZero { condition: cv, target: skip }
                &&& expr_code(*c, code.subrange(0, k1), cv)
                &&& code[k2] matches Instruction::Copy { src: tv, dst: d1 }
                &&& d1 == r
                &&& expr_code(*t, code.subrange(k1 + 1, k2), tv)
                &&& code[k2 + 1] == Instruction::Jump(end)
                &&& code[k2 + 2] == Instruction::Label(skip)
                &&& expr_code(*f, code.subrange(k2 + 3, n - 2), fv)
            }
        },
        ExprKind::FunctionCall { name, args } => {
            &&& n > 0
            &&& code.last() matches Instruction::FunctionCall { name: callee, args: values, dst }
                && callee == name && dst == r && args_code(args@, code.drop_last(), values@)
        },
        ExprKind::Cast { target_type, expr } => target_type is Function || {
            ||| expr_code(*expr, code, r)
            ||| (n > 0 && (code.last() matches Instruction::SignExtend { src, dst }
                && target_type is Long && dst == r && expr_code(*expr, code.drop_last(), src)))
            ||| (n > 0 && (code.last() matches Instruction::Truncate { src, dst }
                && target_type is Int && dst == r && expr_code(*expr, code.drop_last(), src)))
        },
    }
}

/// Whether `code` computes the arguments `args`, in order, into `values`.
pub open spec fn args_code(args: Seq<Expression>, code: Seq<Instruction>, values: Seq<Value>) -> bool
    decreases args,
{
    &&& args.len() == values.len()
    &&& if args.len() == 0 {
        code.len() == 0
    } else {
        exists|k: int| #![trigger code[k]] 0 <= k <= code.len()
            && args_code(args.drop_last(), code.subrange(0, k), values.drop_last())
            && expr_code(args.last(), code.subrange(k, code.len() as int), values.last())
    }
}

/// Adding one argument's code to the code of the arguments before it.
#[verifier::spinoff_prover]
pub proof fn lemma_args_code_push(args: Seq<Expression>, code: Seq<Instruction>, values: Seq<Value>, k: int)
    requires
        args.len() > 0,
        args.len() == values.len(),
        0 <= k <= code.len(),
        args_code(args.drop_last(), code.subrange(0, k), values.drop_last()),
        expr_code(args.last(), code.subrange(k, code.len() as int), values.last()),
    ensures
        args_code(args, code, values),
{
    assert(code[k] == code[k]);
}

impl Expression {
    /// Emits the instructions that compute the expression and gives the
    /// value that holds its result.
    #[verifier::spinoff_prover]
    pub fn lower(self, instructions: &mut Vec<Instruction>, symbols: &mut Symbols) -> (r: Value)
        requires
            expr_lowerable(self),
        ensures
            emitted(old(instructions)@, final(instructions)@),
            old(symbols)@.dom().subset_of(final(symbols)@.dom()),
            old(symbols)@.submap_of(final(symbols)@),
            lowered_value(self, r, old(instructions)@, final(instructions)@, *final(symbols)),
            expr_code(self, appended_code(old(instructions)@, final(instructions)@), r),
            temp_recorded(self, r, old(symbols)@, final(symbols)@),
            self.kind is Var || self.kind is Constant || self.kind is Prefix ==> final(symbols)@ == old(symbols)@,
            self.kind is Prefix ==> (appended_code(old(instructions)@, final(instructions)@)[0] matches Instruction::Binary {
                rhs: Value::Constant(c), .. } && constant_type(c) == kind_in(r, final(symbols)@)),
            self.kind is Postfix ==> (appended_code(old(instructions)@, final(instructions)@)[1] matches Instruction::Binary {
                lhs, rhs: Value::Constant(c), .. } && constant_type(c) == kind_in(lhs, final(symbols)@)),
            match self.kind {
                ExprKind::Cast { target_type, .. } => cast_lowered(
                    target_type@, appended_code(old(instructions)@, final(instructions)@), r, old(symbols)@, final(symbols)@),
                ExprKind::Binary { operator, lhs, .. } => (operator == BinaryOperator::And || operator == BinaryOperator::Or)
                    ==> logical_constants(*lhs, appended_code(old(instructions)@, final(instructions)@), final(symbols)@),
                _ => true,
            },
        decreases self, 1nat,
    {
        let ghost b0 = instructions@;
        proof { lemma_emitted_refl(instructions@); }
        match &self.kind {
            ExprKind::Binary { .. } => return self.lower_binary(instructions, symbols),
            ExprKind::Conditional(..) => return self.lower_conditional(instructions, symbols),
            ExprKind::FunctionCall { .. } => return self.lower_call(instructions, symbols),
            _ => {},
        }
        match self.kind {
            ExprKind::Assignment(lhs, rhs) => {
                let v = match lhs.kind {
                    ExprKind::Var(v) => v,
                    _ => Identifier::dummy(),
                };
                let result = rhs.lower(instructions, symbols);
                let ghost b1 = instructions@;
                instructions.push(Instruction::Copy { src: result, dst: Value::Var(v.clone()) });
                proof {
                    assert(appended_code(b0, instructions@).drop_last() =~= appended_code(b0, b1));
                }
                Value::Var(v)
            },
            ExprKind::CompoundAssign { .. } => Value::Constant(Constant::Int(0)),
            ExprKind::Var(v) => {
                proof { assert(appended_code(b0, instructions@) =~= Seq::<Instruction>::empty()); }
                Value::Var(v)
            },
            ExprKind::Constant(c) => {
                proof { assert(appended_code(b0, instructions@) =~= Seq::<Instruction>::empty()); }
                c.lower()
            },
            ExprKind::Unary { operator, expr } => {
                let dst = fresh_temp("tmp", clone_type(&expr.ty), symbols);
                let src = expr.lower(instructions, symbols);
                let ghost b1 = instructions@;
                instructions.push(Instruction::Unary { operator: operator.lower(), src, dst: dst.clone() });
                proof {
                    assert(appended_code(b0, instructions@).drop_last() =~= appended_code(b0, b1));
                }
                dst
            },
            ExprKind::Prefix(op, expr) => {
                let v = expr.lower(instructions, symbols);
                let kind = kind_of(&v, symbols);
                instructions.push(Instruction::Binary {
                    operator: ir::BinaryOperator::Add,
                    lhs: v.clone(),
                    rhs: Value::Constant(op.n(kind)),
                    dst: v.clone(),
                });
                proof {
                    assert(appended_code(b0, instructions@) =~= seq![instructions@.last()]);
                }
                v
            },
            ExprKind::Postfix(op, expr) => {
                let old_value = fresh_temp("postfix_old_value", clone_type(&expr.ty), symbols);
                let v = expr.lower(instructions, symbols);
                let ghost b1 = instructions@;
                instructions.push(Instruction::Copy { src: v.clone(), dst: old_value.clone() });
                let kind = kind_of(&v, symbols);
                instructions.push(Instruction::Binary {
                    operator: ir::BinaryOperator::Add,
                    lhs: v.clone(),
                    rhs: Value::Constant(op.n(kind)),
                    dst: v,
                });
                proof {
                    assert(b1 == b0);
                    assert(appended_code(b0, instructions@) =~= seq![instructions@[b0.len() as int], instructions@.last()]);
                }
                old_value
            },
            ExprKind::Binary { .. } | ExprKind::Conditional(..) | ExprKind::FunctionCall { .. } => Value::Constant(Constant::Int(0)),
            ExprKind::Cast { target_type, expr } => {
                let ghost inner = *expr;
                let result = expr.lower(instructions, symbols);
                let ghost b1 = instructions@;
                if same_type(&target_type, &result.ty(symbols)) {
                    proof {
                        let code = appended_code(b0, instructions@);
                        assert(value_type_in(result, symbols@) == value_type(result, *symbols));
                        if code.len() > 0 && converts_into(code.last(), result) {
                            if !(inner.kind is Cast) {
                                lemma_only_cast_converts(inner, code, result);
                            } else {
                                assert(cast_lowered(inner.kind->Cast_target_type@, code, result, old(symbols)@, symbols@));
                            }
                        }
                    }
                    return result;
                }
                let ghost mid = symbols@;
                let dst = fresh_temp("cast_tmp", clone_type(&target_type), symbols);
                match target_type {
                    Type::Long => instructions.push(Instruction::SignExtend { src: result, dst: dst.clone() }),
                    Type::Int => instructions.push(Instruction::Truncate { src: result, dst: dst.clone() }),
                    _ => {},
                }
                proof {
                    if instructions@.len() > b1.len() {
                        assert(appended_code(b0, instructions@).drop_last() =~= appended_code(b0, b1));
                        assert(symbols@.remove(dst->Var_0@) =~= mid);
                    }
                }
                dst
            },
        }
    }

    /// Lowers a binary operation; `&&` and `||` jump over their right operand.
    #[verifier::rlimit(60)]
    #[verifier::spinoff_prover]
    fn lower_binary(self, instructions: &mut Vec<Instruction>, symbols: &mut Symbols) -> (r: Value)
        requires
            expr_lowerable(self),
            self.kind is Binary,
        ensures
            emitted(old(instructions)@, final(instructions)@),
            old(symbols)@.dom().subset_of(final(symbols)@.dom()),
            old(symbols)@.submap_of(final(symbols)@),
            lowered_value(self, r, old(instructions)@, final(instructions)@, *final(symbols)),
            expr_code(self, appended_code(old(instructions)@, final(instructions)@), r),
            temp_recorded(self, r, old(symbols)@, final(symbols)@),
        match self.kind {
                ExprKind::Binary { operator, lhs, .. } => (operator == BinaryOperator::And || operator == BinaryOperator::Or)
                    ==> logical_constants(*lhs, appended_code(old(instructions)@, final(instructions)@), final(symbols)@),
                _ => true,
            },
        decreases self, 0nat,
    {
        let ghost e = self;
        let ghost b0 = instructions@;
        proof { lemma_emitted_refl(instructions@); }
        match self.kind {
            ExprKind::Binary { operator, lhs, rhs } => {
                if operator.can_be_lowered() {
                    let dst = fresh_temp(operator.name(), clone_type(&lhs.ty), symbols);
                    let lhs = lhs.lower(instructions, symbols);
                    let ghost b1 = instructions@;
                    let rhs = rhs.lower(instructions, symbols);
                    let ghost b2 = instructions@;
                    instructions.push(Instruction::Binary { operator: operator.lower(), lhs, rhs, dst: dst.clone() });
                    proof {
                        let code = appended_code(b0, instructions@);
                        let k = b1.len() - b0.len();
                        assert(code.subrange(0, k) =~= appended_code(b0, b1));
                        assert(code.subrange(k, code.len() - 1) =~= appended_code(b1, b2));
                        assert(code[k] == code[k]);
                    }
                    dst
                } else if operator == BinaryOperator::And {
                    let dst = fresh_temp("and_result", Type::Int, symbols);
                    let false_label = Identifier::new("and_false");
                    let end_label = Identifier::new("and_end");
                    let lhs = lhs.lower(instructions, symbols);
                    let ghost b1 = instructions@;
                    instructions.push(Instruction::JumpIfZero { condition: lhs.clone(), target: false_label.clone() });
                    let ghost b2 = instructions@;
                    let rhs = rhs.lower(instructions, symbols);
                    let ghost b3 = instructions@;
                    instructions.push(Instruction::JumpIfZero { condition: rhs, target: false_label.clone() });
                    let kind = kind_of(&lhs, symbols);
                    instructions.push(Instruction::Copy { src: Value::Constant(Constant::from_int(1, kind)), dst: dst.clone() });
                    instructions.push(Instruction::Jump(end_label.clone()));
                    instructions.push(Instruction::Label(false_label));
                    instructions.push(Instruction::Copy { src: Value::Constant(Constant::from_int(0, kind)), dst: dst.clone() });
                    instructions.push(Instruction::Label(end_label));
                    proof {
                        let code = appended_code(b0, instructions@);
                        let k = b1.len() - b0.len();
                        let n = code.len() as int;
                        assert(n == b3.len() - b0.len() + 6);
                        assert(code.subrange(0, k) =~= appended_code(b0, b1));
                        assert(code.subrange(k + 1, n - 6) =~= appended_code(b2, b3));
                        assert(code[k] == instructions@[b1.len() as int]);
                    }
                    dst
                } else {
                    let dst = fresh_temp("or_result", Type::Int, symbols);
                    let true_label = Identifier::new("or_true");
                    let end_label = Identifier::new("or_end");
                    let lhs = lhs.lower(instructions, symbols);
                    let ghost b1 = instructions@;
                    instructions.push(Instruction::JumpNotZero { condition: lhs.clone(), target: true_label.clone() });
                    let ghost b2 = instructions@;
                    let rhs = rhs.lower(instructions, symbols);
                    let ghost b3 = instructions@;
                    instructions.push(Instruction::JumpNotZero { condition: rhs, target: true_label.clone() });
                    let kind = kind_of(&lhs, symbols);
                    instructions.push(Instruction::Copy { src: Value::Constant(Constant::from_int(0, kind)), dst: dst.clone() });
                    instructions.push(Instruction::Jump(end_label.clone()));
                    instructions.push(Instruction::Label(true_label));
                    instructions.push(Instruction::Copy { src: Value::Constant(Constant::from_int(1, kind)), dst: dst.clone() });
                    instructions.push(Instruction::Label(end_label));
                    proof {
                        let code = appended_code(b0, instructions@);
                        let k = b1.len() - b0.len();
                        let n = code.len() as int;
                        assert(n == b3.len() - b0.len() + 6);
                        assert(code.subrange(0, k) =~= appended_code(b0, b1));
                        assert(code.subrange(k + 1, n - 6) =~= appended_code(b2, b3));
                        assert(code[k] == instructions@[b1.len() as int]);
                    }
                    dst
                }
            },
            _ => Value::Constant(Constant::Int(0)),
        }
    }

    /// Lowers `c ? t : f`.
    #[verifier::rlimit(60)]
    #[verifier::spinoff_prover]
    fn lower_conditional(self, instructions: &mut Vec<Instruction>, symbols: &mut Symbols) -> (r: Value)
        requires
            expr_lowerable(self),
            self.kind is Conditional,
        ensures
            emitted(old(instructions)@, final(instructions)@),
            old(symbols)@.dom().subset_of(final(symbols)@.dom()),
            old(symbols)@.submap_of(final(symbols)@),
            lowered_value(self, r, old(instructions)@, final(instructions)@, *final(symbols)),
            expr_code(self, appended_code(old(instructions)@, final(instructions)@), r),
            temp_recorded(self, r, old(symbols)@, final(symbols)@),
        decreases self, 0nat,
    {
        let ghost e = self;
        let ghost b0 = instructions@;
        proof { lemma_emitted_refl(instructions@); }
        match self.kind {
            ExprKind::Conditional(cond, if_true, if_false) => {
                let c = cond.lower(instructions, symbols);
                let ghost b1 = instructions@;
                let else_label = Identifier::new("conditional_else");
                let end_label = Identifier::new("conditional_end");
                let result = fresh_temp("conditional_result", clone_type(&if_true.ty), symbols);
                instructions.push(Instruction::JumpIfZero { condition: c, target: else_label.clone() });
                let ghost b2 = instructions@;
                let t = if_true.lower(instructions, symbols);
                let ghost b3 = instructions@;
                instructions.push(Instruction::Copy { src: t, dst: result.clone() });
                instructions.push(Instruction::Jump(end_label.clone()));
                instructions.push(Instruction::Label(else_label));
                let ghost b4 = instructions@;
                let f = if_false.lower(instructions, symbols);
                let ghost b5 = instructions@;
                instructions.push(Instruction::Copy { src: f, dst: result.clone() });
                instructions.push(Instruction::Label(end_label));
                proof {
                    let code = appended_code(b0, instructions@);
                    let k1 = b1.len() - b0.len();
                    let k2 = b3.len() - b0.len();
                    let n = code.len() as int;
                    assert(n == b5.len() - b0.len() + 2);
                    assert(code.subrange(0, k1) =~= appended_code(b0, b1));
                    assert(code.subrange(k1 + 1, k2) =~= appended_code(b2, b3));
                    assert(code.subrange(k2 + 3, n - 2) =~= appended_code(b4, b5));
                    assert(code[k1] == instructions@[b1.len() as int]);
                    assert(code[k2] == instructions@[b3.len() as int]);
                }
                result
            },
            _ => Value::Constant(Constant::Int(0)),
        }
    }

    /// Lowers a call: its arguments in order, then the call.
    #[verifier::rlimit(60)]
    #[verifier::spinoff_prover]
    fn lower_call(self, instructions: &mut Vec<Instruction>, symbols: &mut Symbols) -> (r: Value)
        requires
            expr_lowerable(self),
            self.kind is FunctionCall,
        ensures
            emitted(old(instructions)@, final(instructions)@),
            old(symbols)@.dom().subset_of(final(symbols)@.dom()),
            old(symbols)@.submap_of(final(symbols)@),
            lowered_value(self, r, old(instructions)@, final(instructions)@, *final(symbols)),
            expr_code(self, appended_code(old(instructions)@, final(instructions)@), r),
            temp_recorded(self, r, old(symbols)@, final(symbols)@),
        decreases self, 0nat,
    {
        let ghost e = self;
        let ghost b0 = instructions@;
        proof { lemma_emitted_refl(instructions@); }
        match self.kind {
            ExprKind::FunctionCall { name, args } => {
                let ghost orig = args;
                let mut args = args;
                let mut values: Vec<Value> = Vec::new();
                let n = args.len();
                let mut k: usize = 0;
                while k < n
                    invariant
                        k <= n,
                        n == orig@.len(),
                        args@ == orig@.subrange(k as int, n as int),
                        e == self,
                        e.kind matches ExprKind::FunctionCall { args: a, .. } && a == orig,
                        forall|j: int| 0 <= j < n ==> expr_lowerable(#[trigger] orig@[j]),
                        emitted(old(instructions)@, instructions@),
                        old(symbols)@.dom().subset_of(symbols@.dom()),
                        old(symbols)@.submap_of(symbols@),
                        b0 == old(instructions)@,
                        args_code(orig@.subrange(0, k as int), appended_code(b0, instructions@), values@),
                    decreases n - k,
                {
                    let a = args.remove(0);
                    proof {
                        assert(a == orig@[k as int]);
                        vstd::std_specs::vec::axiom_vec_index_decreases(orig, k as int);
                        assert(decreases_to!(e => a));
                        assert(args@ =~= orig@.subrange(k + 1, n as int));
                    }
                    let ghost before = instructions@;
                    let ghost vals = values@;
                    let ghost ga = a;
                    let v = a.lower(instructions, symbols);
                    values.push(v);
                    proof {
                        let code = appended_code(b0, instructions@);
                        let split = before.len() - b0.len();
                        let sub = orig@.subrange(0, k + 1);
                        assert(sub.drop_last() =~= orig@.subrange(0, k as int));
                        assert(values@.drop_last() =~= vals);
                        assert(code.subrange(0, split) =~= appended_code(b0, before));
                        assert(code.subrange(split, code.len() as int) =~= appended_code(before, instructions@));
                        assert(sub.last() == ga);
                        assert(values@.last() == v);
                        assert(args_code(sub.drop_last(), code.subrange(0, split), values@.drop_last()));
                        assert(expr_code(sub.last(), code.subrange(split, code.len() as int), values@.last()));
                        assert(sub.len() == values@.len());
                        assert(sub.len() > 0);
                        assert(0 <= split <= code.len());
                        lemma_args_code_push(sub, code, values@, split);
                    }
                    k = k + 1;
                }
                proof {
                    assert(orig@.subrange(0, n as int) =~= orig@);
                }
                let ghost b1 = instructions@;
                let mut result_name = string_of("");
                push_string(&mut result_name, &name.1);
                push_str(&mut result_name, "_result");
                let return_type = match symbols.get(&name) {
                    Some(s) => match &s.ty {
                        Type::Function(f) => clone_type(&f.return_type),
                        _ => Type::Int,
                    },
                    None => Type::Int,
                };
                let result = fresh_temp(result_name.as_str(), return_type, symbols);
                instructions.push(Instruction::FunctionCall { name, args: values, dst: result.clone() });
                proof {
                    assert(appended_code(b0, instructions@).drop_last() =~= appended_code(b0, b1));
                }
                result
            },
            _ => Value::Constant(Constant::Int(0)),
        }
    }
}

/// Whether the initializer of an automatic local, which is lowered, can be.
pub open spec fn var_lowerable(v: VariableDeclaration) -> bool {
    v.storage_class == StorageClass::Unspecified ==> (v.init matches Some(e) ==> expr_lowerable(e))
}

/// Whether every expression that lowering a statement lowers can be lowered.
pub open spec fn stmt_lowerable(s: Statement) -> bool
    decreases s,
{
    match s.kind {
        StmtKind::Return(e) => expr_lowerable(e),
        StmtKind::Expression(e) => expr_lowerable(e),
        StmtKind::If { cond, then, else_ } => {
            &&& expr_lowerable(cond)
            &&& stmt_lowerable(*then)
            &&& match else_ {
                Some(e) => stmt_lowerable(*e),
                None => true,
            }
        },
        StmtKind::While { cond, body, .. } => expr_lowerable(cond) && stmt_lowerable(*body),
        StmtKind::DoWhile { cond, body, .. } => expr_lowerable(cond) && stmt_lowerable(*body),
        StmtKind::For { init, condition, post, body, .. } => {
            &&& match init {
                ForInit::Decl(v) => var_lowerable(v),
                ForInit::Expr(e) => expr_lowerable(e),
                ForInit::Empty => true,
            }
            &&& (condition matches Some(c) ==> expr_lowerable(c))
            &&& (post matches Some(p) ==> expr_lowerable(p))
            &&& stmt_lowerable(*body)
        },
        StmtKind::Switch(sw) => expr_lowerable(sw.value) && stmt_lowerable(*sw.body),
        StmtKind::Compound(items) => items_lowerable(items@),
        StmtKind::Label(_, st) => stmt_lowerable(*st),
        StmtKind::Case { stmt, .. } => stmt_lowerable(*stmt),
        StmtKind::DefaultCase { stmt, .. } => stmt_lowerable(*stmt),
        _ => true,
    }
}

pub open spec fn item_lowerable(i: BlockItem) -> bool {
    match i {
        BlockItem::Stmt(s) => stmt_lowerable(s),
        BlockItem::Decl(Declaration::Var(v)) => var_lowerable(v),
        BlockItem::Decl(Declaration::Func(_)) => true,
    }
}

pub open spec fn items_lowerable(items: Seq<BlockItem>) -> bool
    decreases items,
{
    if items.len() == 0 {
        true
    } else {
        items_lowerable(items.drop_last()) && match items.last() {
            BlockItem::Stmt(s) => stmt_lowerable(s),
            BlockItem::Decl(Declaration::Var(v)) => var_lowerable(v),
            BlockItem::Decl(Declaration::Func(_)) => true,
        }
    }
}

/// Whether every function body of a program can be lowered.
pub open spec fn program_lowerable(p: Program) -> bool {
    forall|k: int| 0 <= k < p.0@.len() ==> (#[trigger] p.0@[k] matches Declaration::Func(f)
        ==> (f.body matches Some(b) ==> items_lowerable(b@)))
}

impl Expression {
    /// Whether the expression can be lowered.
    pub fn is_lowerable(&self) -> (r: bool)
        ensures
            r == expr_lowerable(*self),
        decreases self,
    {
        match &self.kind {
            ExprKind::Var(_) | ExprKind::Constant(_) => true,
            ExprKind::Cast { expr, .. } => expr.is_lowerable(),
            ExprKind::Unary { expr, .. } => expr.is_lowerable(),
            ExprKind::Binary { operator, lhs, rhs } => {
                (operator.can_be_lowered() || *operator == BinaryOperator::And || *operator == BinaryOperator::Or)
                    && lhs.is_lowerable() && rhs.is_lowerable()
            },
            ExprKind::CompoundAssign { .. } => false,
            ExprKind::Assignment(l, r) => l.is_var() && r.is_lowerable(),
            ExprKind::Prefix(_, inner) => inner.is_var(),
            ExprKind::Postfix(_, inner) => inner.is_var(),
            ExprKind::Conditional(c, t, f) => c.is_lowerable() && t.is_lowerable() && f.is_lowerable(),
            ExprKind::FunctionCall { args, .. } => {
                let mut k: usize = 0;
                while k < args.len()
                    invariant
                        k <= args@.len(),
                        self.kind matches ExprKind::FunctionCall { args: a, .. } && a == *args,
                        forall|j: int| 0 <= j < k ==> expr_lowerable(#[trigger] args@[j]),
                    decreases args@.len() - k,
                {
                    proof {
                        vstd::std_specs::vec::axiom_vec_index_decreases(*args, k as int);
                        assert(decreases_to!(*self => args@[k as int]));
                    }
                    if !args[k].is_lowerable() {
                        proof {
                            assert(!expr_lowerable(args@[k as int]));
                        }
                        return false;
                    }
                    k = k + 1;
                }
                true
            },
        }
    }
}

fn optional_lowerable(e: &Option<Expression>) -> (r: bool)
    ensures
        r == (*e matches Some(x) ==> expr_lowerable(x)),
{
    match e {
        Some(x) => x.is_lowerable(),
        None => true,
    }
}

impl VariableDeclaration {
    pub fn is_lowerable(&self) -> (r: bool)
        ensures
            r == var_lowerable(*self),
    {
        if self.storage_class.is_none() {
            optional_lowerable(&self.init)
        } else {
            true
        }
    }
}

impl Statement {
    /// Whether the statement can be lowered.
    pub fn is_lowerable(&self) -> (r: bool)
        ensures
            r == stmt_lowerable(*self),
        decreases self,
    {
        match &self.kind {
            StmtKind::Return(e) | StmtKind::Expression(e) => e.is_lowerable(),
            StmtKind::If { cond, then, else_ } => {
                cond.is_lowerable() && then.is_lowerable() && match else_ {
                    Some(e) => e.is_lowerable(),
                    None => true,
                }
            },
            StmtKind::While { cond, body, .. } => cond.is_lowerable() && body.is_lowerable(),
            StmtKind::DoWhile { cond, body, .. } => cond.is_lowerable() && body.is_lowerable(),
            StmtKind::For { init, condition, post, body, .. } => {
                let i = match init {
                    ForInit::Decl(v) => v.is_lowerable(),
                    ForInit::Expr(e) => e.is_lowerable(),
                    ForInit::Empty => true,
                };
                i && optional_lowerable(condition) && optional_lowerable(post) && body.is_lowerable()
            },
            StmtKind::Switch(sw) => sw.value.is_lowerable() && sw.body.is_lowerable(),
            StmtKind::Compound(items) => items_are_lowerable(items),
            StmtKind::Label(_, st) => st.is_lowerable(),
            StmtKind::Case { stmt, .. } => stmt.is_lowerable(),
            StmtKind::DefaultCase { stmt, .. } => stmt.is_lowerable(),
            _ => true,
        }
    }
}

/// Whether every item of a block can be lowered.
pub fn items_are_lowerable(items: &Vec<BlockItem>) -> (r: bool)
    ensures
        r == items_lowerable(items@),
    decreases items,
{
    let mut k: usize = 0;
    while k < items.len()
        invariant
            k <= items@.len(),
            items_lowerable(items@.take(k as int)),
        decreases items@.len() - k,
    {
        proof {
            vstd::std_specs::vec::axiom_vec_index_decreases(*items, k as int);
            assert(items@.take(k + 1).drop_last() =~= items@.take(k as int));
        }
        let ok = match &items[k] {
            BlockItem::Stmt(s) => s.is_lowerable(),
            BlockItem::Decl(Declaration::Var(v)) => v.is_lowerable(),
            BlockItem::Decl(Declaration::Func(_)) => true,
        };
        if !ok {
            proof {
                if items_lowerable(items@) {
                    lemma_items_lowerable_prefix(items@, k as int + 1);
                }
            }
            return false;
        }
        k = k + 1;
    }
    proof {
        assert(items@.take(items@.len() as int) =~= items@);
    }
    true
}

/// A block can be lowered only if each of its prefixes can.
pub proof fn lemma_items_lowerable_prefix(items: Seq<BlockItem>, n: int)
    requires
        0 <= n <= items.len(),
        items_lowerable(items),
    ensures
        items_lowerable(items.take(n)),
    decreases items.len(),
{
    if n < items.len() {
        assert(items.drop_last().take(n) =~= items.take(n));
        lemma_items_lowerable_prefix(items.drop_last(), n);
    } else {
        assert(items.take(n) =~= items);
    }
}

impl Program {
    /// Whether every function body of the program can be lowered.
    pub fn is_lowerable(&self) -> (r: bool)
        ensures
            r == program_lowerable(*self),
    {
        let mut k: usize = 0;
        while k < self.0.len()
            invariant
                k <= self.0@.len(),
                forall|j: int| 0 <= j < k ==> (#[trigger] self.0@[j] matches Declaration::Func(f)
                    ==> (f.body matches Some(b) ==> items_lowerable(b@))),
            decreases self.0@.len() - k,
        {
            match &self.0[k] {
                Declaration::Func(f) => match &f.body {
                    Some(b) => {
                        if !items_are_lowerable(b) {
                            return false;
                        }
                    },
                    None => {},
                },
                _ => {},
            }
            k = k + 1;
        }
        true
    }
}

/// Whether `l` is the loop or switch label `base` with `suffix` added.
pub open spec fn suffixed(l: Identifier, base: Identifier, suffix: Seq<char>) -> bool {
    l.0@ == base.0@ + suffix && l.1@ == base.1@
}

/// Whether `code` is a comment reading `text`.
pub open spec fn is_comment(i: Instruction, text: Seq<char>) -> bool {
    i matches Instruction::Comment(c) && c@ == text
}

/// The code of a local variable declaration: the initializer of an
/// automatic variable and its copy into the variable; nothing otherwise.
pub open spec fn var_code(v: VariableDeclaration, code: Seq<Instruction>) -> bool {
    if v.storage_class == StorageClass::Unspecified && v.init is Some {
        &&& code.len() > 0
        &&& code.last() matches Instruction::Copy { src, dst }
        &&& dst == Value::Var(v.name)
        &&& expr_code(v.init->0, code.drop_last(), src)
    } else {
        code.len() == 0
    }
}

/// The code of the first clause of a `for` header.
pub open spec fn for_init_code(init: ForInit, code: Seq<Instruction>) -> bool {
    match init {
        ForInit::Decl(v) => var_code(v, code),
        ForInit::Expr(e) => exists|v: Value| #[trigger] expr_code(e, code, v),
        ForInit::Empty => code.len() == 0,
    }
}

/// The code of an optional expression whose value is not used.
pub open spec fn opt_expr_code(e: Option<Expression>, code: Seq<Instruction>) -> bool {
    match e {
        Some(x) => exists|v: Value| #[trigger] expr_code(x, code, v),
        None => code.len() == 0,
    }
}

/// Whether `code` is the lowering of statement `s`: loops jump between the
/// labels made from their own label, `if` and `?:` between fresh labels, and
/// `switch` compares the value with each case in turn before the body.
pub open spec fn stmt_code(s: Statement, code: Seq<Instruction>) -> bool
    decreases s,
{
    let n = code.len() as int;
    match s.kind {
        StmtKind::Return(e) => {
            &&& n > 0
            &&& code.last() matches Instruction::Return(v)
            &&& expr_code(e, code.drop_last(), v)
        },
        StmtKind::Expression(e) => exists|v: Value| #[trigger] expr_code(e, code, v),
        StmtKind::If { cond, then, else_ } => match else_ {
            None => {
                &&& n >= 2
                &&& exists|k: int| #![trigger code.subrange(0, k)] {
                    &&& 0 <= k < n - 1
                    &&& code[k] matches Instruction::JumpIfZero { condition: cv, target: end }
                    &&& expr_code(cond, code.subrange(0, k), cv)
                    &&& stmt_code(*then, code.subrange(k + 1, n - 1))
                    &&& code[n - 1] == Instruction::Label(end)
                }
            },
            Some(e) => {
                &&& n >= 4
                &&& exists|k1: int, k2: int| #![trigger code.subrange(0, k1), code.subrange(k1 + 1, k2)] {
                    &&& 0 <= k1 < k2 && k2 + 2 < n
                    &&& code[k1] matches Instruction::JumpIfZero { condition: cv, target: other }
                    &&& expr_code(cond, code.subrange(0, k1), cv)
                    &&& stmt_code(*then, code.subrange(k1 + 1, k2))
                    &&& code[k2] matches Instruction::Jump(end)
                    &&& code[k2 + 1] == Instruction::Label(other)
                    &&& stmt_code(*e, code.subrange(k2 + 2, n - 1))
                    &&& code[n - 1] == Instruction::Label(end)
                }
            },
        },
        StmtKind::DoWhile { body, cond, label } => {
            &&& n >= 4
            &&& code[0] matches Instruction::Label(start)
            &&& suffixed(start, label, "_start"@)
            &&& code[n - 1] matches Instruction::Label(brk)
            &&& suffixed(brk, label, "_break"@)
            &&& code[n - 2] matches Instruction::JumpNotZero { condition: cv, target }
            &&& target == start
            &&& exists|k: int| #![trigger code.subrange(1, k)] {
                &&& 1 <= k < n - 2
                &&& stmt_code(*body, code.subrange(1, k))
                &&& code[k] matches Instruction::Label(cont)
                &&& suffixed(cont, label, "_continue"@)
                &&& expr_code(cond, code.subrange(k + 1, n - 2), cv)
            }
        },
        StmtKind::While { cond, body, label } => {
            &&& n >= 4
            &&& code[0] matches Instruction::Label(cont)
            &&& suffixed(cont, label, "_continue"@)
            &&& code[n - 2] == Instruction::Jump(cont)
            &&& code[n - 1] matches Instruction::Label(brk)
            &&& suffixed(brk, label, "_break"@)
            &&& exists|k: int| #![trigger code.subrange(1, k)] {
                &&& 1 <= k < n - 2
                &&& code[k] matches Instruction::JumpIfZero { condition: cv, target }
                &&& target == brk
                &&& expr_code(cond, code.subrange(1, k), cv)
                &&& stmt_code(*body, code.subrange(k + 1, n - 2))
            }
        },
        StmtKind::For { init, condition, post, body, label } => {
            &&& n >= 7
            &&& is_comment(code[0], "for loop"@)
            &&& is_comment(code[1], "init"@)
            &&& code[n - 2] matches Instruction::Jump(start)
            &&& suffixed(start, label, "_start"@)
            &&& code[n - 1] matches Instruction::Label(brk)
            &&& suffixed(brk, label, "_break"@)
            &&& exists|k1: int, k2: int, k3: int| #![trigger code.subrange(2, k1), code.subrange(k2 + 1, k3)] {
                &&& 2 <= k1 && k1 + 1 < k2 && k2 < k3 && k3 < n - 2
                &&& for_init_code(init, code.subrange(2, k1))
                &&& code[k1] == Instruction::Label(start)
                &&& match condition {
                    Some(c) => {
                        &&& is_comment(code[k1 + 1], "for loop condition"@)
                        &&& k1 + 2 < k2
                        &&& code[k2 - 1] matches Instruction::JumpIfZero { condition: cv, target }
                        &&& target == brk
                        &&& expr_code(c, code.subrange(k1 + 2, k2 - 1), cv)
                    },
                    None => k2 == k1 + 2 && is_comment(code[k1 + 1], "no for loop condition"@),
                }
                &&& is_comment(code[k2], "for loop body"@)
                &&& stmt_code(*body, code.subrange(k2 + 1, k3))
                &&& code[k3] matches Instruction::Label(cont)
                &&& suffixed(cont, label, "_continue"@)
                &&& opt_expr_code(post, code.subrange(k3 + 1, n - 2))
            }
        },
        StmtKind::Label(l, st) => n >= 1 && code[0] == Instruction::Label(l) && stmt_code(*st, code.subrange(1, n)),
        StmtKind::Goto(l) => code == seq![Instruction::Jump(l)],
        StmtKind::Compound(block) => items_code(block@, code),
        StmtKind::Break(l) => n == 1 && (code[0] matches Instruction::Jump(t) && suffixed(t, l, "_break"@)),
        StmtKind::Continue(l) => n == 1 && (code[0] matches Instruction::Jump(t) && suffixed(t, l, "_continue"@)),
        StmtKind::Case { label, stmt, .. } => n >= 1 && code[0] == Instruction::Label(label)
            && stmt_code(*stmt, code.subrange(1, n)),
        StmtKind::DefaultCase { label, stmt, .. } => n >= 1 && code[0] == Instruction::Label(label)
            && stmt_code(*stmt, code.subrange(1, n)),
        StmtKind::Switch(sw) => {
            let m = sw.cases@.len() as int;
            &&& code[n - 1] matches Instruction::Label(brk)
            &&& suffixed(brk, sw.label, "_break"@)
            &&& exists|k: int, rv: Value| #![trigger expr_code(sw.value, code.subrange(0, k), rv)] {
                &&& 0 <= k && k + 2 * m + 2 <= n
                &&& expr_code(sw.value, code.subrange(0, k), rv)
                &&& forall|j: int| 0 <= j < m ==> {
                    &&& #[trigger] code[k + 2 * j] matches Instruction::Binary { operator, lhs: Value::Constant(c), rhs, dst }
                    &&& operator == ir::BinaryOperator::Equal && c == sw.cases@[j].1 && rhs == rv
                    &&& code[k + 2 * j + 1] matches Instruction::JumpNotZero { condition, target }
                    &&& condition == dst && target == sw.cases@[j].0
                }
                &&& code[k + 2 * m] == Instruction::Jump(match sw.default_case {
                    Some(d) => d,
                    None => brk,
                })
                &&& stmt_code(*sw.body, code.subrange(k + 2 * m + 1, n - 1))
            }
        },
        StmtKind::Null => n == 0,
    }
}

/// The dispatch of a `switch` that starts at `k` of its code: each case's
/// comparison and jump, all through the one temporary `t`, which the table
/// did not hold before and now records as a local `int`; then the jump to the
/// default case or past the body.
pub open spec fn switch_dispatch_at(sw: Switch, code: Seq<Instruction>, k: int, t: Identifier, old: Map<Key, Symbol>, fin: Map<Key, Symbol>) -> bool {
    let m = sw.cases@.len() as int;
    &&& 0 <= k && k + 2 * m < code.len()
    &&& !old.dom().contains(t@)
    &&& fin.dom().contains(t@)
    &&& fin[t@] == Symbol { attributes: IdentifierAttributes::Local, ty: Type::Int }
    &&& forall|j: int| 0 <= j < m ==> {
        &&& #[trigger] code[k + 2 * j] matches Instruction::Binary { operator, lhs: Value::Constant(c), dst, .. }
        &&& operator == ir::BinaryOperator::Equal && c == sw.cases@[j].1 && dst == Value::Var(t)
        &&& code[k + 2 * j + 1] == Instruction::JumpNotZero { condition: Value::Var(t), target: sw.cases@[j].0 }
    }
}

/// Of a `switch`, that its dispatch compares into one fresh local `int`.
pub open spec fn switch_temp(s: Statement, code: Seq<Instruction>, old: Map<Key, Symbol>, fin: Map<Key, Symbol>) -> bool {
    match s.kind {
        StmtKind::Switch(sw) => exists|k: int, t: Identifier| #[trigger] switch_dispatch_at(sw, code, k, t, old, fin),
        _ => true,
    }
}

/// The code of a block item.
pub open spec fn item_code(item: BlockItem, code: Seq<Instruction>) -> bool
    decreases item,
{
    match item {
        BlockItem::Stmt(s) => stmt_code(s, code),
        BlockItem::Decl(Declaration::Var(v)) => var_code(v, code),
        BlockItem::Decl(Declaration::Func(_)) => code.len() == 0,
    }
}

/// The code of a block: the code of each item in turn.
pub open spec fn items_code(items: Seq<BlockItem>, code: Seq<Instruction>) -> bool
    decreases items,
{
    if items.len() == 0 {
        code.len() == 0
    } else {
        exists|k: int| #![trigger code.subrange(0, k)] 0 <= k <= code.len()
            && items_code(items.drop_last(), code.subrange(0, k))
            && item_code(items.last(), code.subrange(k, code.len() as int))
    }
}

/// Adding one item's code to the code of the items before it.
pub proof fn lemma_items_code_push(items: Seq<BlockItem>, code: Seq<Instruction>, k: int)
    requires
        items.len() > 0,
        0 <= k <= code.len(),
        items_code(items.drop_last(), code.subrange(0, k)),
        item_code(items.last(), code.subrange(k, code.len() as int)),
    ensures
        items_code(items, code),
{
}

/// What lowering a statement emits, where it is fixed: a `return` ends in a
/// return instruction, a `goto` and a `break` or `continue` are one jump, a
/// labelled statement starts with its label, an empty statement emits nothing.
pub open spec fn lowered_statement(s: Statement, before: Seq<Instruction>, after: Seq<Instruction>) -> bool {
    &&& emitted(before, after)
    &&& match s.kind {
        StmtKind::Return(_) => after.len() > before.len() && after.last() is Return,
        StmtKind::Goto(i) => after == before.push(Instruction::Jump(i)),
        StmtKind::Label(i, _) => after.len() > before.len() && after[before.len() as int] == Instruction::Label(i),
        StmtKind::Null => after == before,
        StmtKind::Break(i) => after.len() == before.len() + 1 && (after.last() matches Instruction::Jump(t)
            && t.0@ == i.0@ + "_break"@ && t.1@ == i.1@),
        StmtKind::Continue(i) => after.len() == before.len() + 1 && (after.last() matches Instruction::Jump(t)
            && t.0@ == i.0@ + "_continue"@ && t.1@ == i.1@),
        _ => true,
    }
}

/// The condition part of a `for` loop's code: a comment, and the condition
/// with a jump to `brk` when it is zero; or only a comment.
pub open spec fn for_condition_code(condition: Option<Expression>, brk: Identifier, code: Seq<Instruction>) -> bool {
    match condition {
        Some(c) => {
            &&& code.len() >= 2
            &&& is_comment(code[0], "for loop condition"@)
            &&& code.last() matches Instruction::JumpIfZero { condition: cv, target }
            &&& target == brk
            &&& expr_code(c, code.subrange(1, code.len() - 1), cv)
        },
        None => code.len() == 1 && is_comment(code[0], "no for loop condition"@),
    }
}

/// Emits the condition part of a `for` loop.
fn lower_for_condition(condition: Option<Expression>, break_label: &Identifier, instructions: &mut Vec<Instruction>, symbols: &mut Symbols)
    requires
        condition matches Some(c) ==> expr_lowerable(c),
    ensures
        emitted(old(instructions)@, final(instructions)@),
        old(symbols)@.dom().subset_of(final(symbols)@.dom()),
        old(symbols)@.submap_of(final(symbols)@),
        for_condition_code(condition, *break_label, appended_code(old(instructions)@, final(instructions)@)),
{
    let ghost b0 = instructions@;
    match condition {
        Some(condition) => {
            instructions.push(Instruction::Comment("for loop condition"));
            let ghost c0 = instructions@;
            let cond_result = condition.lower(instructions, symbols);
            let ghost c1 = instructions@;
            instructions.push(Instruction::JumpIfZero { condition: cond_result, target: break_label.clone() });
            proof {
                let code = appended_code(b0, instructions@);
                assert(code.subrange(1, code.len() - 1) =~= appended_code(c0, c1));
                assert(code[0] == instructions@[b0.len() as int]);
            }
        },
        None => {
            instructions.push(Instruction::Comment("no for loop condition"));
            proof {
                assert(appended_code(b0, instructions@) =~= seq![instructions@.last()]);
            }
        },
    }
}

/// The pieces of a `for` loop's code make its code.
proof fn lemma_for_code(s: Statement, code: Seq<Instruction>, k1: int, k2: int, k3: int)
    requires
        s.kind is For,
        ({
            let n = code.len() as int;
            match s.kind {
                StmtKind::For { init, condition, post, body, label } => {
                    &&& n >= 7
                    &&& is_comment(code[0], "for loop"@)
                    &&& is_comment(code[1], "init"@)
                    &&& code[n - 2] matches Instruction::Jump(start)
                    &&& suffixed(start, label, "_start"@)
                    &&& code[n - 1] matches Instruction::Label(brk)
                    &&& suffixed(brk, label, "_break"@)
                    &&& 2 <= k1 && k1 + 1 < k2 && k2 < k3 && k3 < n - 2
                    &&& for_init_code(init, code.subrange(2, k1))
                    &&& code[k1] == Instruction::Label(start)
                    &&& for_condition_code(condition, brk, code.subrange(k1 + 1, k2))
                    &&& is_comment(code[k2], "for loop body"@)
                    &&& stmt_code(*body, code.subrange(k2 + 1, k3))
                    &&& code[k3] matches Instruction::Label(cont)
                    &&& suffixed(cont, label, "_continue"@)
                    &&& opt_expr_code(post, code.subrange(k3 + 1, n - 2))
                },
                _ => false,
            }
        }),
    ensures
        stmt_code(s, code),
{
    let n = code.len() as int;
    match s.kind {
        StmtKind::For { condition, .. } => {
            let part = code.subrange(k1 + 1, k2);
            assert(part[0] == code[k1 + 1]);
            if condition is Some {
                assert(part.last() == code[k2 - 1]);
                assert(part.subrange(1, part.len() - 1) =~= code.subrange(k1 + 2, k2 - 1));
            }
        },
        _ => {},
    }
}

impl Statement {
    /// Emits the instructions of the statement.
    #[verifier::spinoff_prover]
    pub fn lower(self, instructions: &mut Vec<Instruction>, symbols: &mut Symbols)
        requires
            stmt_lowerable(self),
        ensures
            lowered_statement(self, old(instructions)@, final(instructions)@),
            old(symbols)@.dom().subset_of(final(symbols)@.dom()),
            old(symbols)@.submap_of(final(symbols)@),
            stmt_code(self, appended_code(old(instructions)@, final(instructions)@)),
            switch_temp(self, appended_code(old(instructions)@, final(instructions)@), old(symbols)@, final(symbols)@),
            self.kind matches StmtKind::Return(e) ==> (final(instructions)@.last() matches Instruction::Return(v)
                && temp_recorded(e, v, old(symbols)@, final(symbols)@)),
        decreases self, 1nat,
    {
        let ghost b0 = instructions@;
        proof { lemma_emitted_refl(instructions@); }
        match &self.kind {
            StmtKind::If { .. } => return self.lower_if(instructions, symbols),
            StmtKind::While { .. } | StmtKind::DoWhile { .. } => return self.lower_loop(instructions, symbols),
            StmtKind::For { .. } => return self.lower_for(instructions, symbols),
            StmtKind::Switch(..) => return self.lower_switch(instructions, symbols),
            _ => {},
        }
        match self.kind {
            StmtKind::Return(c) => {
                let dst = c.lower(instructions, symbols);
                let ghost b1 = instructions@;
                instructions.push(Instruction::Return(dst));
                proof {
                    assert(appended_code(b0, instructions@).drop_last() =~= appended_code(b0, b1));
                }
            },
            StmtKind::Expression(e) => {
                let v = e.lower(instructions, symbols);
            },
            StmtKind::Label(i, stmt) => {
                instructions.push(Instruction::Label(i));
                let ghost mid = instructions@;
                stmt.lower(instructions, symbols);
                proof {
                    assert(instructions@.subrange(0, mid.len() as int) == mid);
                    assert(instructions@[old(instructions)@.len() as int] == mid[old(instructions)@.len() as int]);
                    assert(appended_code(b0, instructions@).subrange(1, appended_code(b0, instructions@).len() as int)
                        =~= appended_code(mid, instructions@));
                }
            },
            StmtKind::Goto(i) => {
                instructions.push(Instruction::Jump(i));
                proof { assert(appended_code(b0, instructions@) =~= seq![instructions@.last()]); }
            },
            StmtKind::Compound(block) => {
                lower_block(block, instructions, symbols);
            },
            StmtKind::Break(i) => {
                instructions.push(Instruction::Jump(i._break()));
                proof { assert(appended_code(b0, instructions@) =~= seq![instructions@.last()]); }
            },
            StmtKind::Continue(i) => {
                instructions.push(Instruction::Jump(i._continue()));
                proof { assert(appended_code(b0, instructions@) =~= seq![instructions@.last()]); }
            },
            StmtKind::Case { label, stmt, .. } => {
                instructions.push(Instruction::Label(label));
                let ghost mid = instructions@;
                stmt.lower(instructions, symbols);
                proof {
                    assert(instructions@[old(instructions)@.len() as int] == mid[old(instructions)@.len() as int]);
                    assert(appended_code(b0, instructions@).subrange(1, appended_code(b0, instructions@).len() as int)
                        =~= appended_code(mid, instructions@));
                }
            },
            StmtKind::DefaultCase { label, stmt, .. } => {
                instructions.push(Instruction::Label(label));
                let ghost mid = instructions@;
                stmt.lower(instructions, symbols);
                proof {
                    assert(instructions@[old(instructions)@.len() as int] == mid[old(instructions)@.len() as int]);
                    assert(appended_code(b0, instructions@).subrange(1, appended_code(b0, instructions@).len() as int)
                        =~= appended_code(mid, instructions@));
                }
            },
            StmtKind::Null => {
                proof { assert(appended_code(b0, instructions@) =~= Seq::<Instruction>::empty()); }
            },
            _ => {},
        }
    }

    /// `if`: the condition, a jump past the branch taken when it holds, and
    /// the other branch, if any, behind a jump over it.
    #[verifier::rlimit(40)]
    #[verifier::spinoff_prover]
    fn lower_if(self, instructions: &mut Vec<Instruction>, symbols: &mut Symbols)
        requires
            stmt_lowerable(self),
            self.kind is If,
        ensures
            lowered_statement(self, old(instructions)@, final(instructions)@),
            old(symbols)@.dom().subset_of(final(symbols)@.dom()),
            old(symbols)@.submap_of(final(symbols)@),
            stmt_code(self, appended_code(old(instructions)@, final(instructions)@)),
        decreases self, 0nat,
    {
        let ghost b0 = instructions@;
        proof { lemma_emitted_refl(instructions@); }
        match self.kind {
            StmtKind::If { cond, then, else_ } => {
                let c = cond.lower(instructions, symbols);
                let ghost b1 = instructions@;
                let end_label = Identifier::new("if_end");
                match else_ {
                    Some(else_stmt) => {
                        let else_label = Identifier::new("if_else");
                        instructions.push(Instruction::JumpIfZero { condition: c, target: else_label.clone() });
                        let ghost b2 = instructions@;
                        then.lower(instructions, symbols);
                        let ghost b3 = instructions@;
                        instructions.push(Instruction::Jump(end_label.clone()));
                        instructions.push(Instruction::Label(else_label));
                        let ghost b4 = instructions@;
                        else_stmt.lower(instructions, symbols);
                        let ghost b5 = instructions@;
                        instructions.push(Instruction::Label(end_label));
                        proof {
                            let code = appended_code(b0, instructions@);
                            let k1 = b1.len() - b0.len();
                            let k2 = b3.len() - b0.len();
                            let n = code.len() as int;
                            assert(n == b5.len() - b0.len() + 1);
                            assert(code.subrange(0, k1) =~= appended_code(b0, b1));
                            assert(code.subrange(k1 + 1, k2) =~= appended_code(b2, b3));
                            assert(code.subrange(k2 + 2, n - 1) =~= appended_code(b4, b5));
                            assert(code[k1] == instructions@[b1.len() as int]);
                            assert(code[k2] == instructions@[b3.len() as int]);
                            assert(code[k2 + 1] == instructions@[b3.len() as int + 1]);
                        }
                    },
                    None => {
                        instructions.push(Instruction::JumpIfZero { condition: c, target: end_label.clone() });
                        let ghost b2 = instructions@;
                        then.lower(instructions, symbols);
                        let ghost b3 = instructions@;
                        instructions.push(Instruction::Label(end_label));
                        proof {
                            let code = appended_code(b0, instructions@);
                            let k = b1.len() - b0.len();
                            let n = code.len() as int;
                            assert(n == b3.len() - b0.len() + 1);
                            assert(code.subrange(0, k) =~= appended_code(b0, b1));
                            assert(code.subrange(k + 1, n - 1) =~= appended_code(b2, b3));
                            assert(code[k] == instructions@[b1.len() as int]);
                        }
                    },
                }
            },
            _ => {},
        }
    }

    /// `while` and `do`-`while`: the labels made from the loop's label, the
    /// condition and the body in the order each loop runs them.
    #[verifier::rlimit(40)]
    #[verifier::spinoff_prover]
    fn lower_loop(self, instructions: &mut Vec<Instruction>, symbols: &mut Symbols)
        requires
            stmt_lowerable(self),
            self.kind is While || self.kind is DoWhile,
        ensures
            lowered_statement(self, old(instructions)@, final(instructions)@),
            old(symbols)@.dom().subset_of(final(symbols)@.dom()),
            old(symbols)@.submap_of(final(symbols)@),
            stmt_code(self, appended_code(old(instructions)@, final(instructions)@)),
        decreases self, 0nat,
    {
        let ghost b0 = instructions@;
        proof { lemma_emitted_refl(instructions@); }
        match self.kind {
            StmtKind::DoWhile { body, cond, label } => {
                let start_label = label._start();
                let continue_label = label._continue();
                let break_label = label._break();
                instructions.push(Instruction::Label(start_label.clone()));
                let ghost b1 = instructions@;
                body.lower(instructions, symbols);
                let ghost b2 = instructions@;
                instructions.push(Instruction::Label(continue_label));
                let ghost b3 = instructions@;
                let result = cond.lower(instructions, symbols);
                let ghost b4 = instructions@;
                instructions.push(Instruction::JumpNotZero { condition: result, target: start_label });
                instructions.push(Instruction::Label(break_label));
                proof {
                    let code = appended_code(b0, instructions@);
                    let k = b2.len() - b0.len();
                    let n = code.len() as int;
                    assert(n == b4.len() - b0.len() + 2);
                    assert(code[0] == instructions@[b0.len() as int]);
                    assert(code.subrange(1, k) =~= appended_code(b1, b2));
                    assert(code.subrange(k + 1, n - 2) =~= appended_code(b3, b4));
                    assert(code[k] == instructions@[b2.len() as int]);
                }
            },
            StmtKind::While { cond, body, label } => {
                let continue_label = label._continue();
                let break_label = label._break();
                instructions.push(Instruction::Label(continue_label.clone()));
                let ghost b1 = instructions@;
                let result = cond.lower(instructions, symbols);
                let ghost b2 = instructions@;
                instructions.push(Instruction::JumpIfZero { condition: result, target: break_label.clone() });
                let ghost b3 = instructions@;
                body.lower(instructions, symbols);
                let ghost b4 = instructions@;
                instructions.push(Instruction::Jump(continue_label));
                instructions.push(Instruction::Label(break_label));
                proof {
                    let code = appended_code(b0, instructions@);
                    let k = b2.len() - b0.len();
                    let n = code.len() as int;
                    assert(n == b4.len() - b0.len() + 2);
                    assert(code[0] == instructions@[b0.len() as int]);
                    assert(code.subrange(1, k) =~= appended_code(b1, b2));
                    assert(code.subrange(k + 1, n - 2) =~= appended_code(b3, b4));
                    assert(code[k] == instructions@[b2.len() as int]);
                }
            },
            _ => {},
        }
    }

    /// `for`: the initializer, then at the start label the condition (if
    /// any), the body, the continue label, the post expression (if any) and
    /// the jump back.
    #[verifier::rlimit(100)]
    #[verifier::spinoff_prover]
    fn lower_for(self, instructions: &mut Vec<Instruction>, symbols: &mut Symbols)
        requires
            stmt_lowerable(self),
            self.kind is For,
        ensures
            lowered_statement(self, old(instructions)@, final(instructions)@),
            old(symbols)@.dom().subset_of(final(symbols)@.dom()),
            old(symbols)@.submap_of(final(symbols)@),
            stmt_code(self, appended_code(old(instructions)@, final(instructions)@)),
        decreases self, 0nat,
    {
        let ghost b0 = instructions@;
        let ghost s = self;
        proof { lemma_emitted_refl(instructions@); }
        match self.kind {
            StmtKind::For { init, condition, post, body, label } => {
                let start_label = label._start();
                let continue_label = label._continue();
                let break_label = label._break();
                instructions.push(Instruction::Comment("for loop"));
                instructions.push(Instruction::Comment("init"));
                let ghost b1 = instructions@;
                init.lower(instructions, symbols);
                let ghost b2 = instructions@;
                instructions.push(Instruction::Label(start_label.clone()));
                let ghost b3 = instructions@;
                lower_for_condition(condition, &break_label, instructions, symbols);
                let ghost b4 = instructions@;
                instructions.push(Instruction::Comment("for loop body"));
                let ghost b5 = instructions@;
                body.lower(instructions, symbols);
                let ghost b6 = instructions@;
                instructions.push(Instruction::Label(continue_label));
                let ghost b7 = instructions@;
                match post {
                    Some(post) => {
                        let v = post.lower(instructions, symbols);
                    },
                    None => {},
                }
                let ghost b8 = instructions@;
                instructions.push(Instruction::Jump(start_label));
                instructions.push(Instruction::Label(break_label));
                proof {
                    let code = appended_code(b0, instructions@);
                    let n = code.len() as int;
                    let k1 = b2.len() - b0.len();
                    let k2 = b4.len() - b0.len();
                    let k3 = b6.len() - b0.len();
                    assert(n == b8.len() - b0.len() + 2);
                    assert(code[0] == instructions@[b0.len() as int]);
                    assert(code[1] == instructions@[b0.len() as int + 1]);
                    assert(code.subrange(2, k1) =~= appended_code(b1, b2));
                    assert(code[k1] == instructions@[b2.len() as int]);
                    assert(code.subrange(k1 + 1, k2) =~= appended_code(b3, b4));
                    assert(code[k2] == instructions@[b4.len() as int]);
                    assert(code.subrange(k2 + 1, k3) =~= appended_code(b5, b6));
                    assert(code[k3] == instructions@[b6.len() as int]);
                    assert(code.subrange(k3 + 1, n - 2) =~= appended_code(b7, b8));
                    lemma_for_code(s, code, k1, k2, k3);
                }
            },
            _ => {},
        }
    }

    /// `switch`: the value, a comparison and conditional jump for each case,
    /// a jump to the default case (or past the body), and the body.
    #[verifier::rlimit(60)]
    #[verifier::spinoff_prover]
    fn lower_switch(self, instructions: &mut Vec<Instruction>, symbols: &mut Symbols)
        requires
            stmt_lowerable(self),
            self.kind is Switch,
        ensures
            lowered_statement(self, old(instructions)@, final(instructions)@),
            old(symbols)@.dom().subset_of(final(symbols)@.dom()),
            old(symbols)@.submap_of(final(symbols)@),
            stmt_code(self, appended_code(old(instructions)@, final(instructions)@)),
            switch_temp(self, appended_code(old(instructions)@, final(instructions)@), old(symbols)@, final(symbols)@),
        decreases self, 0nat,
    {
        let ghost b0 = instructions@;
        let ghost s = self;
        proof { lemma_emitted_refl(instructions@); }
        match self.kind {
            StmtKind::Switch(Switch { value, body, label, cases, default_case, .. }) => {
                let result = value.lower(instructions, symbols);
                let ghost b1 = instructions@;
                let is_equal = fresh_temp("switch_case_is_equal", Type::Int, symbols);
                let ghost tid: Identifier = choose|id: Identifier| is_equal == Value::Var(id);
                let ghost s2 = symbols@;
                proof {
                    assert(!old(symbols)@.dom().contains(tid@));
                }
                let break_label = label._break();
                let n = cases.len();
                let mut k: usize = 0;
                while k < n
                    invariant
                        k <= n,
                        n == cases@.len(),
                        emitted(old(instructions)@, instructions@),
                        old(symbols)@.dom().subset_of(symbols@.dom()),
                        old(symbols)@.submap_of(symbols@),
                        emitted(b1, instructions@),
                        symbols@ == s2,
                        instructions@.len() == b1.len() + 2 * k,
                        forall|j: int| 0 <= j < k ==> {
                            &&& #[trigger] instructions@[b1.len() + 2 * j] == Instruction::Binary {
                                operator: ir::BinaryOperator::Equal,
                                lhs: Value::Constant(cases@[j].1),
                                rhs: result,
                                dst: is_equal,
                            }
                            &&& instructions@[b1.len() + 2 * j + 1] == Instruction::JumpNotZero {
                                condition: is_equal,
                                target: cases@[j].0,
                            }
                        },
                    decreases n - k,
                {
                    let case_value = Value::Constant(cases[k].1);
                    instructions.push(Instruction::Binary {
                        operator: ir::BinaryOperator::Equal,
                        lhs: case_value,
                        rhs: result.clone(),
                        dst: is_equal.clone(),
                    });
                    instructions.push(Instruction::JumpNotZero { condition: is_equal.clone(), target: cases[k].0.clone() });
                    k = k + 1;
                }
                match default_case {
                    Some(default) => instructions.push(Instruction::Jump(default)),
                    None => instructions.push(Instruction::Jump(break_label.clone())),
                }
                let ghost b2 = instructions@;
                body.lower(instructions, symbols);
                let ghost b3 = instructions@;
                instructions.push(Instruction::Label(break_label));
                proof {
                    let code = appended_code(b0, instructions@);
                    let len = code.len() as int;
                    let k0 = b1.len() - b0.len();
                    let m = n as int;
                    assert(len == b3.len() - b0.len() + 1);
                    assert(code.subrange(0, k0) =~= appended_code(b0, b1));
                    assert(code.subrange(k0 + 2 * m + 1, len - 1) =~= appended_code(b2, b3));
                    assert(code[k0 + 2 * m] == instructions@[b1.len() + 2 * m]);
                    assert forall|j: int| 0 <= j < m implies {
                        &&& #[trigger] code[k0 + 2 * j] matches Instruction::Binary { operator, lhs: Value::Constant(c), rhs, dst }
                        &&& operator == ir::BinaryOperator::Equal && c == cases@[j].1 && rhs == result
                        &&& code[k0 + 2 * j + 1] matches Instruction::JumpNotZero { condition, target }
                        &&& condition == dst && target == cases@[j].0
                    } by {
                        assert(code[k0 + 2 * j] == instructions@[b1.len() + 2 * j]);
                        assert(code[k0 + 2 * j + 1] == instructions@[b1.len() + 2 * j + 1]);
                    }
                    assert(s2.dom().contains(tid@) && s2[tid@] == (Symbol { attributes: IdentifierAttributes::Local, ty: Type::Int }));
                    assert forall|j: int| 0 <= j < m implies {
                        &&& #[trigger] code[k0 + 2 * j] matches Instruction::Binary { operator, lhs: Value::Constant(c), dst, .. }
                        &&& operator == ir::BinaryOperator::Equal && c == cases@[j].1 && dst == Value::Var(tid)
                        &&& code[k0 + 2 * j + 1] == Instruction::JumpNotZero { condition: Value::Var(tid), target: cases@[j].0 }
                    } by {
                        assert(code[k0 + 2 * j] == instructions@[b1.len() + 2 * j]);
                        assert(code[k0 + 2 * j + 1] == instructions@[b1.len() + 2 * j + 1]);
                    }
                    assert(switch_dispatch_at(s.kind->Switch_0, code, k0, tid, old(symbols)@, symbols@));
                }
            },
            _ => {},
        }
    }
}

/// Emits the instructions of a block, item by item.
#[verifier::spinoff_prover]
fn lower_block(items: Vec<BlockItem>, instructions: &mut Vec<Instruction>, symbols: &mut Symbols)
    requires
        items_lowerable(items@),
    ensures
        emitted(old(instructions)@, final(instructions)@),
        old(symbols)@.dom().subset_of(final(symbols)@.dom()),
        old(symbols)@.submap_of(final(symbols)@),
        items_code(items@, appended_code(old(instructions)@, final(instructions)@)),
    decreases items, 0nat,
{
    proof { lemma_emitted_refl(instructions@); }
    let ghost b0 = instructions@;
    let ghost orig = items;
    let mut block = items;
    let n = block.len();
    let mut k: usize = 0;
    proof {
        assert(appended_code(b0, instructions@) =~= Seq::<Instruction>::empty());
        assert(orig@.subrange(0, 0) =~= Seq::<BlockItem>::empty());
    }
    while k < n
        invariant
            k <= n,
            n == orig@.len(),
            block@ == orig@.subrange(k as int, n as int),
            orig == items,
            items_lowerable(orig@),
            emitted(old(instructions)@, instructions@),
            old(symbols)@.dom().subset_of(symbols@.dom()),
            old(symbols)@.submap_of(symbols@),
            b0 == old(instructions)@,
            items_code(orig@.subrange(0, k as int), appended_code(b0, instructions@)),
        decreases n - k,
    {
        let item = block.remove(0);
        proof {
            assert(item == orig@[k as int]);
            vstd::std_specs::vec::axiom_vec_index_decreases(orig, k as int);
            assert(block@ =~= orig@.subrange(k + 1, n as int));
            lemma_items_lowerable_prefix(orig@, k + 1);
            assert(orig@.take(k + 1).last() == item);
            assert(decreases_to!(items => item));
        }
        let ghost before = instructions@;
        let ghost gi = item;
        item.lower(instructions, symbols);
        proof {
            let code = appended_code(b0, instructions@);
            let split = before.len() - b0.len();
            let sub = orig@.subrange(0, k + 1);
            assert(sub.drop_last() =~= orig@.subrange(0, k as int));
            assert(sub.last() == gi);
            assert(code.subrange(0, split) =~= appended_code(b0, before));
            assert(code.subrange(split, code.len() as int) =~= appended_code(before, instructions@));
            lemma_items_code_push(sub, code, split);
        }
        k = k + 1;
    }
    proof {
        assert(orig@.subrange(0, n as int) =~= orig@);
    }
}

impl BlockItem {
    pub fn lower(self, instructions: &mut Vec<Instruction>, symbols: &mut Symbols)
        requires
            item_lowerable(self),
        ensures
            emitted(old(instructions)@, final(instructions)@),
            old(symbols)@.dom().subset_of(final(symbols)@.dom()),
            old(symbols)@.submap_of(final(symbols)@),
            item_code(self, appended_code(old(instructions)@, final(instructions)@)),
        decreases self, 0nat,
    {
        match self {
            BlockItem::Stmt(stmt) => stmt.lower(instructions, symbols),
            BlockItem::Decl(decl) => decl.lower(instructions, symbols),
        }
    }
}

impl Declaration {
    /// Emits the initialization of a local variable; a nested function
    /// declaration emits nothing.
    pub fn lower(self, instructions: &mut Vec<Instruction>, symbols: &mut Symbols)
        requires
            self matches Declaration::Var(v) ==> var_lowerable(v),
        ensures
            emitted(old(instructions)@, final(instructions)@),
            old(symbols)@.dom().subset_of(final(symbols)@.dom()),
            old(symbols)@.submap_of(final(symbols)@),
            self is Func ==> final(instructions)@ == old(instructions)@,
            self matches Declaration::Var(v) ==> var_code(v, appended_code(old(instructions)@, final(instructions)@)),
    {
        proof { lemma_emitted_refl(instructions@); }
        match self {
            Declaration::Func(_) => {},
            Declaration::Var(var) => var.lower(instructions, symbols),
        }
    }
}

impl VariableDeclaration {
    /// Emits the initialization of an automatic local: its initializer and a
    /// copy into the variable.
    pub fn lower(self, instructions: &mut Vec<Instruction>, symbols: &mut Symbols)
        requires
            var_lowerable(self),
        ensures
            emitted(old(instructions)@, final(instructions)@),
            old(symbols)@.dom().subset_of(final(symbols)@.dom()),
            old(symbols)@.submap_of(final(symbols)@),
            self.storage_class == StorageClass::Unspecified && self.init is Some ==> final(instructions)@.len() > old(instructions)@.len()
                && (final(instructions)@.last() matches Instruction::Copy { dst, .. } && dst == Value::Var(self.name)),
            !(self.storage_class == StorageClass::Unspecified && self.init is Some) ==> final(instructions)@ == old(instructions)@,
            var_code(self, appended_code(old(instructions)@, final(instructions)@)),
    {
        proof { lemma_emitted_refl(instructions@); }
        let ghost b0 = instructions@;
        let is_auto = self.storage_class.is_none();
        match self.init {
            Some(init) => {
                if is_auto {
                    let out = init.lower(instructions, symbols);
                    let ghost b1 = instructions@;
                    instructions.push(Instruction::Copy { src: out, dst: Value::Var(self.name) });
                    proof {
                        assert(appended_code(b0, instructions@).drop_last() =~= appended_code(b0, b1));
                    }
                }
            },
            None => {},
        }
        proof {
            if !(self.storage_class == StorageClass::Unspecified && self.init is Some) {
                assert(appended_code(b0, instructions@) =~= Seq::<Instruction>::empty());
            }
        }
    }
}

impl ForInit {
    pub fn lower(self, instructions: &mut Vec<Instruction>, symbols: &mut Symbols)
        requires
            match self {
                ForInit::Decl(v) => var_lowerable(v),
                ForInit::Expr(e) => expr_lowerable(e),
                ForInit::Empty => true,
            },
        ensures
            emitted(old(instructions)@, final(instructions)@),
            old(symbols)@.dom().subset_of(final(symbols)@.dom()),
            old(symbols)@.submap_of(final(symbols)@),
            self is Empty ==> final(instructions)@ == old(instructions)@,
            for_init_code(self, appended_code(old(instructions)@, final(instructions)@)),
    {
        proof { lemma_emitted_refl(instructions@); }
        let ghost b0 = instructions@;
        match self {
            ForInit::Decl(decl) => decl.lower(instructions, symbols),
            ForInit::Expr(expr) => {
                let v = expr.lower(instructions, symbols);
            },
            ForInit::Empty => {
                proof { assert(appended_code(b0, instructions@) =~= Seq::<Instruction>::empty()); }
            },
        }
    }
}

impl FunctionDeclaration {
    /// The IR definition of a function that has a body; its linkage is what
    /// the symbol table records, or follows its storage class.
    pub fn lower(self, symbols: &mut Symbols) -> (r: Option<ir::FunctionDefinition>)
        requires
            self.body matches Some(b) ==> items_lowerable(b@),
        ensures
            r is Some <==> self.body is Some,
            r matches Some(f) ==> {
                &&& f.name == self.name
                &&& f.params == self.params
                &&& f.global == (if old(symbols)@.dom().contains(self.name@) {
                    spec_global(old(symbols)@[self.name@].attributes)
                } else {
                    self.storage_class != StorageClass::Static
                })
                &&& items_code(self.body->0@, f.body@)
            },
            old(symbols)@.dom().subset_of(final(symbols)@.dom()),
            old(symbols)@.submap_of(final(symbols)@),
    {
        let global = match symbols.get(&self.name) {
            Some(s) => s.attributes.global(),
            None => !self.storage_class.is_static(),
        };
        let body = match self.body {
            Some(b) => b,
            None => return None,
        };
        let mut instructions: Vec<Instruction> = Vec::new();
        lower_block(body, &mut instructions, symbols);
        proof {
            assert(appended_code(Seq::<Instruction>::empty(), instructions@) =~= instructions@);
        }
        Some(ir::FunctionDefinition { params: self.params, name: self.name, body: instructions, global })
    }
}

/// The names of the functions a list of declarations defines, in order.
pub open spec fn defined_functions(ds: Seq<Declaration>) -> Seq<Key>
    decreases ds.len(),
{
    if ds.len() == 0 {
        seq![]
    } else {
        defined_functions(ds.drop_last()) + match ds.last() {
            Declaration::Func(f) => if f.body is Some { seq![f.name@] } else { seq![] },
            _ => seq![],
        }
    }
}

/// The bodies of the functions a list of declarations defines, in order.
pub open spec fn defined_bodies(ds: Seq<Declaration>) -> Seq<Seq<BlockItem>>
    decreases ds.len(),
{
    if ds.len() == 0 {
        seq![]
    } else {
        defined_bodies(ds.drop_last()) + match ds.last() {
            Declaration::Func(f) => match f.body {
                Some(b) => seq![b@],
                None => seq![],
            },
            _ => seq![],
        }
    }
}

/// Whether an IR static variable is what the symbol table records of it.
pub open spec fn recorded_static(symbols: Symbols, v: StaticVariable) -> bool {
    &&& symbols@.dom().contains(v.name@)
    &&& symbols@[v.name@].ty@ == v.ty@
    &&& symbols@[v.name@].attributes matches IdentifierAttributes::Static { init, global } && {
        &&& global == v.global
        &&& match init {
            InitialValue::Constant(c) => v.init == c,
            InitialValue::Tentitive => v.init == (if v.ty@ is Int { StaticInit::Int(0) } else { StaticInit::Long(0) }),
            InitialValue::NoInitializer => false,
        }
    }
}

/// The functions a list of declarations defines, in order.
pub open spec fn defined_decls(ds: Seq<Declaration>) -> Seq<FunctionDeclaration>
    decreases ds.len(),
{
    if ds.len() == 0 {
        seq![]
    } else {
        defined_decls(ds.drop_last()) + match ds.last() {
            Declaration::Func(f) => if f.body is Some { seq![f] } else { seq![] },
            _ => seq![],
        }
    }
}

/// Whether the table records `k` as a variable of static storage duration
/// that has an initial value or a tentative definition.
pub open spec fn static_with_value(m: Map<Key, Symbol>, k: Key) -> bool {
    &&& m.dom().contains(k)
    &&& m[k].attributes matches IdentifierAttributes::Static { init, .. } && !(init is NoInitializer)
}

/// The name a top-level IR item defines.
pub open spec fn top_level_name(t: TopLevel) -> Key {
    match t {
        TopLevel::F(f) => f.name@,
        TopLevel::V(v) => v.name@,
    }
}

/// Whether entry `i` of the table is the last one for its name.
fn is_latest_entry(symbols: &Symbols, i: usize) -> (r: bool)
    requires
        i < symbols.entries@.len(),
    ensures
        r == is_latest(symbols.entries@, i as int),
{
    let n = symbols.entries.len();
    let mut j = i + 1;
    while j < n
        invariant
            i < j <= symbols.entries@.len(),
            n == symbols.entries@.len(),
            forall|m: int| i < m < j ==> (#[trigger] symbols.entries@[m]).0@ != symbols.entries@[i as int].0@,
        decreases symbols.entries@.len() - j,
    {
        if symbols.entries[j].0 == symbols.entries[i].0 {
            return false;
        }
        j = j + 1;
    }
    true
}

impl Program {
    /// Lowers every function definition, in order, and then every variable
    /// of static storage duration that the symbol table records with an
    /// initial value (zero for a tentative definition).
    pub fn lower(self, symbols: &mut Symbols) -> (r: ir::Program)
        requires
            program_lowerable(self),
        ensures
            old(symbols)@.dom().subset_of(final(symbols)@.dom()),
            old(symbols)@.submap_of(final(symbols)@),
            r.0@.len() >= defined_functions(self.0@).len(),
            forall|k: int| 0 <= k < defined_functions(self.0@).len() ==> (#[trigger] r.0@[k] matches TopLevel::F(f)
                && f.name@ == defined_functions(self.0@)[k] && items_code(defined_bodies(self.0@)[k], f.body@)),
            forall|k: int| 0 <= k < defined_functions(self.0@).len() ==> (#[trigger] r.0@[k] matches TopLevel::F(f)
                && f.params == defined_decls(self.0@)[k].params
                && (old(symbols)@.dom().contains(f.name@) ==> f.global == spec_global(old(symbols)@[f.name@].attributes))),
            forall|k: int| defined_functions(self.0@).len() <= k < r.0@.len() ==> (#[trigger] r.0@[k] matches TopLevel::V(v)
                && recorded_static(*final(symbols), v)),
            forall|k: Key| static_with_value(final(symbols)@, k) ==> exists|j: int|
                defined_functions(self.0@).len() <= j < r.0@.len() && top_level_name(#[trigger] r.0@[j]) == k,
            forall|j1: int, j2: int| defined_functions(self.0@).len() <= j1 < j2 < r.0@.len()
                ==> top_level_name(#[trigger] r.0@[j1]) != top_level_name(#[trigger] r.0@[j2]),
    {
        let ghost orig = self.0;
        let mut decls = self.0;
        let mut definitions: Vec<TopLevel> = Vec::new();
        let n = decls.len();
        let mut k: usize = 0;
        while k < n
            invariant
                k <= n,
                n == orig@.len(),
                decls@ == orig@.subrange(k as int, n as int),
                forall|j: int| 0 <= j < n ==> (#[trigger] orig@[j] matches Declaration::Func(f)
                    ==> (f.body matches Some(b) ==> items_lowerable(b@))),
                definitions@.len() == defined_functions(orig@.take(k as int)).len(),
                forall|j: int| 0 <= j < definitions@.len() ==> (#[trigger] definitions@[j] matches TopLevel::F(f)
                    && f.name@ == defined_functions(orig@.take(k as int))[j]
                    && items_code(defined_bodies(orig@.take(k as int))[j], f.body@)),
                definitions@.len() == defined_bodies(orig@.take(k as int)).len(),
                definitions@.len() == defined_decls(orig@.take(k as int)).len(),
                forall|j: int| 0 <= j < definitions@.len() ==> (#[trigger] definitions@[j] matches TopLevel::F(f)
                    && f.params == defined_decls(orig@.take(k as int))[j].params
                    && (old(symbols)@.dom().contains(f.name@) ==> f.global == spec_global(old(symbols)@[f.name@].attributes))),
                old(symbols)@.dom().subset_of(symbols@.dom()),
                old(symbols)@.submap_of(symbols@),
            decreases n - k,
        {
            let d = decls.remove(0);
            proof {
                assert(d == orig@[k as int]);
                assert(decls@ =~= orig@.subrange(k + 1, n as int));
                assert(orig@.take(k + 1).drop_last() =~= orig@.take(k as int));
            }
            match d {
                Declaration::Func(f) => {
                    match f.lower(symbols) {
                        Some(def) => definitions.push(TopLevel::F(def)),
                        None => {},
                    }
                },
                _ => {},
            }
            k = k + 1;
        }
        proof {
            assert(orig@.take(n as int) =~= orig@);
        }
        let nf = definitions.len();
        let m = symbols.entries.len();
        let mut i: usize = 0;
        let ghost mut src: Seq<int> = seq![];
        while i < m
            invariant
                i <= m,
                m == symbols.entries@.len(),
                nf == defined_functions(orig@).len(),
                definitions@.len() >= nf,
                forall|j: int| 0 <= j < nf ==> (#[trigger] definitions@[j] matches TopLevel::F(f)
                    && f.name@ == defined_functions(orig@)[j] && items_code(defined_bodies(orig@)[j], f.body@)),
                forall|j: int| 0 <= j < nf ==> (#[trigger] definitions@[j] matches TopLevel::F(f)
                    && f.params == defined_decls(orig@)[j].params
                    && (old(symbols)@.dom().contains(f.name@) ==> f.global == spec_global(old(symbols)@[f.name@].attributes))),
                forall|j: int| nf <= j < definitions@.len() ==> (#[trigger] definitions@[j] matches TopLevel::V(v)
                    && recorded_static(*symbols, v)),
                src.len() == definitions@.len() - nf,
                forall|q: int| 0 <= q < src.len() ==> {
                    &&& 0 <= #[trigger] src[q] < i
                    &&& is_latest(symbols.entries@, src[q])
                    &&& top_level_name(definitions@[nf + q]) == symbols.entries@[src[q]].0@
                },
                forall|q1: int, q2: int| 0 <= q1 < q2 < src.len() ==> #[trigger] src[q1] < #[trigger] src[q2],
                forall|e: int| 0 <= e < i && is_latest(symbols.entries@, e)
                    && static_with_value(symbols@, #[trigger] symbols.entries@[e].0@)
                    ==> exists|q: int| 0 <= q < src.len() && #[trigger] src[q] == e,
            decreases m - i,
        {
            let ghost src0 = src;
            let latest = is_latest_entry(symbols, i);
            if latest {
                proof {
                    lemma_entries_map_value(symbols.entries@, i as int);
                }
                let entry = &symbols.entries[i];
                match entry.1.attributes {
                    IdentifierAttributes::Static { init, global } => {
                        let value = match init {
                            InitialValue::Constant(c) => Some(c),
                            InitialValue::Tentitive => match entry.1.ty {
                                Type::Int => Some(StaticInit::Int(0)),
                                _ => Some(StaticInit::Long(0)),
                            },
                            InitialValue::NoInitializer => None,
                        };
                        match value {
                            Some(v) => {
                                definitions.push(TopLevel::V(StaticVariable {
                                    name: entry.0.clone(),
                                    global,
                                    init: v,
                                    ty: clone_type(&entry.1.ty),
                                }));
                                proof {
                                    src = src.push(i as int);
                                }
                            },
                            None => {},
                        }
                    },
                    _ => {},
                }
            }
            proof {
                assert forall|e: int| 0 <= e < i + 1 && is_latest(symbols.entries@, e)
                    && static_with_value(symbols@, #[trigger] symbols.entries@[e].0@)
                    implies exists|q: int| 0 <= q < src.len() && #[trigger] src[q] == e by {
                    if e < i {
                        let q = choose|q: int| 0 <= q < src0.len() && #[trigger] src0[q] == e;
                        assert(src[q] == e);
                    } else {
                        assert(latest);
                        assert(src.len() == src0.len() + 1);
                        assert(src[src.len() - 1] == e);
                    }
                }
            }
            i = i + 1;
        }
        proof {
            assert forall|key: Key| static_with_value(symbols@, key) implies exists|j: int|
                nf <= j < definitions@.len() && top_level_name(#[trigger] definitions@[j]) == key by {
                let e = crate::table::lemma_latest_index(symbols.entries@, key);
                assert(static_with_value(symbols@, symbols.entries@[e].0@));
                let q = choose|q: int| 0 <= q < src.len() && #[trigger] src[q] == e;
                assert(top_level_name(definitions@[nf + q]) == key);
            }
            assert forall|j1: int, j2: int| nf <= j1 < j2 < definitions@.len()
                implies top_level_name(#[trigger] definitions@[j1]) != top_level_name(#[trigger] definitions@[j2]) by {
                let q1 = j1 - nf;
                let q2 = j2 - nf;
                assert(src[q1] < src[q2]);
                assert(is_latest(symbols.entries@, src[q1]));
                assert(symbols.entries@[src[q2]].0@ != symbols.entries@[src[q1]].0@);
            }
        }
        ir::Program(definitions)
    }
}

} // verus!
