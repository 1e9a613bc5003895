//! Expressions written back as text, fully parenthesized, for messages.
use vstd::prelude::*;
use crate::analysis::typechecking::type_text;
use crate::parser::ast::{Constant, ExprKind, Expression};
use crate::parser::operators::{binary_symbol, unary_symbol, IncDec};
use crate::text::{int_text, push_int, push_str, push_string, string_of};

verus! {

pub open spec fn inc_dec_symbol(op: IncDec) -> Seq<char> {
    if op == IncDec::Increment { "++"@ } else { "--"@ }
}

/// The text of an expression: every operation in parentheses.
pub open spec fn expression_text(e: Expression) -> Seq<char>
    decreases e,
{
    match e.kind {
        ExprKind::Var(i) => i.0@,
        ExprKind::Constant(c) => match c {
            Constant::Int(i) => int_text(i as int),
            Constant::Long(l) => int_text(l as int),
        },
        ExprKind::Cast { target_type, expr } => "(("@ + type_text(target_type) + ") "@ + expression_text(*expr) + ")"@,
        ExprKind::Unary { operator, expr } => "("@ + unary_symbol(operator) + " "@ + expression_text(*expr) + ")"@,
        ExprKind::Binary { operator, lhs, rhs } =>
            "("@ + expression_text(*lhs) + " "@ + binary_symbol(operator) + " "@ + expression_text(*rhs) + ")"@,
        ExprKind::Assignment(lhs, rhs) => "("@ + expression_text(*lhs) + " = "@ + expression_text(*rhs) + ")"@,
        ExprKind::CompoundAssign { operator, lhs, rhs } =>
            "("@ + expression_text(*lhs) + " "@ + binary_symbol(operator) + " "@ + expression_text(*rhs) + ")"@,
        ExprKind::Prefix(op, inner) => "("@ + inc_dec_symbol(op) + expression_text(*inner) + ")"@,
        ExprKind::Postfix(op, inner) => "("@ + expression_text(*inner) + inc_dec_symbol(op) + ")"@,
        ExprKind::Conditional(c, t, f) =>
            "("@ + expression_text(*c) + " ? "@ + expression_text(*t) + " : "@ + expression_text(*f) + ")"@,
        ExprKind::FunctionCall { name, args } => name.0@ + "("@ + arguments_text(args@) + ")"@,
    }
}

/// The texts of call arguments, separated by `, `.
pub open spec fn arguments_text(args: Seq<Expression>) -> Seq<char>
    decreases args,
{
    if args.len() == 0 {
        Seq::empty()
    } else if args.len() == 1 {
        expression_text(args[0])
    } else {
        arguments_text(args.drop_last()) + ", "@ + expression_text(args.last())
    }
}

impl Expression {
    /// The expression as text, every operation in parentheses.
    pub fn text(&self) -> (s: String)
        ensures
            s@ == expression_text(*self),
        decreases self,
    {
        match &self.kind {
            ExprKind::Var(i) => i.0.clone(),
            ExprKind::Constant(c) => {
                let mut s = String::new();
                push_int(&mut s, c.i64());
                s
            },
            ExprKind::Cast { target_type, expr } => {
                let mut s = string_of("((");
                push_string(&mut s, &target_type.text());
                push_str(&mut s, ") ");
                push_string(&mut s, &expr.text());
                push_str(&mut s, ")");
                s
            },
            ExprKind::Unary { operator, expr } => {
                let mut s = string_of("(");
                push_str(&mut s, operator.symbol());
                push_str(&mut s, " ");
                push_string(&mut s, &expr.text());
                push_str(&mut s, ")");
                s
            },
            ExprKind::Binary { operator, lhs, rhs } | ExprKind::CompoundAssign { operator, lhs, rhs } => {
                let mut s = string_of("(");
                push_string(&mut s, &lhs.text());
                push_str(&mut s, " ");
                push_str(&mut s, operator.symbol());
                push_str(&mut s, " ");
                push_string(&mut s, &rhs.text());
                push_str(&mut s, ")");
                s
            },
            ExprKind::Assignment(lhs, rhs) => {
                let mut s = string_of("(");
                push_string(&mut s, &lhs.text());
                push_str(&mut s, " = ");
                push_string(&mut s, &rhs.text());
                push_str(&mut s, ")");
                s
            },
            ExprKind::Prefix(op, inner) => {
                let mut s = string_of("(");
                push_str(&mut s, op.symbol());
                push_string(&mut s, &inner.text());
                push_str(&mut s, ")");
                s
            },
            ExprKind::Postfix(op, inner) => {
                let mut s = string_of("(");
                push_string(&mut s, &inner.text());
                push_str(&mut s, op.symbol());
                push_str(&mut s, ")");
                s
            },
            ExprKind::Conditional(c, t, f) => {
                let mut s = string_of("(");
                push_string(&mut s, &c.text());
                push_str(&mut s, " ? ");
                push_string(&mut s, &t.text());
                push_str(&mut s, " : ");
                push_string(&mut s, &f.text());
                push_str(&mut s, ")");
                s
            },
            ExprKind::FunctionCall { name, args } => {
                let mut s = name.0.clone();
                push_str(&mut s, "(");
                let mut k: usize = 0;
                while k < args.len()
                    invariant
                        k <= args@.len(),
                        self.kind matches ExprKind::FunctionCall { args: a, name: n } && a == *args && n == *name,
                        s@ == name.0@ + "("@ + arguments_text(args@.take(k as int)),
                    decreases args@.len() - k,
                {
                    proof {
                        vstd::std_specs::vec::axiom_vec_index_decreases(*args, k as int);
                        assert(decreases_to!(*self => args@[k as int]));
                        assert(args@.take(k + 1).drop_last() =~= args@.take(k as int));
                    }
                    if k > 0 {
                        push_str(&mut s, ", ");
                    }
                    push_string(&mut s, &args[k].text());
                    k = k + 1;
                }
                proof {
                    assert(args@.take(args@.len() as int) =~= args@);
                }
                push_str(&mut s, ")");
                s
            },
        }
    }
}

} // verus!
