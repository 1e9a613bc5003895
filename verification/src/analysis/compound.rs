//! Rewrites each compound assignment `a op= b` into `a = a op b`.
use vstd::prelude::*;
use crate::analysis::Type;
use crate::parser::ast::{BlockItem, Declaration, ExprKind, Expression, ForInit, FunctionDeclaration, Program, Statement, StmtKind, VariableDeclaration};
use crate::parser::operators::{BinaryOperator, spec_compound_assign};

verus! {

broadcast use vstd::std_specs::vec::axiom_spec_len;

/// Whether no compound assignment is left in an expression.
pub open spec fn no_compound(e: Expression) -> bool
    decreases e,
{
    match e.kind {
        ExprKind::Var(_) | ExprKind::Constant(_) => true,
        ExprKind::Cast { expr, .. } => no_compound(*expr),
        ExprKind::Unary { expr, .. } => no_compound(*expr),
        ExprKind::Binary { lhs, rhs, .. } => no_compound(*lhs) && no_compound(*rhs),
        ExprKind::CompoundAssign { .. } => false,
        ExprKind::Assignment(l, r) => no_compound(*l) && no_compound(*r),
        ExprKind::Prefix(_, inner) => no_compound(*inner),
        ExprKind::Postfix(_, inner) => no_compound(*inner),
        ExprKind::Conditional(c, t, f) => no_compound(*c) && no_compound(*t) && no_compound(*f),
        ExprKind::FunctionCall { args, .. } => forall|k: int| 0 <= k < args@.len() ==> no_compound(#[trigger] args@[k]),
    }
}

pub open spec fn var_no_compound(v: VariableDeclaration) -> bool {
    v.init matches Some(e) ==> no_compound(e)
}

/// Whether no compound assignment is left in a statement.
pub open spec fn stmt_no_compound(s: Statement) -> bool
    decreases s,
{
    match s.kind {
        StmtKind::Return(e) => no_compound(e),
        StmtKind::Expression(e) => no_compound(e),
        StmtKind::If { cond, then, else_ } => {
            &&& no_compound(cond)
            &&& stmt_no_compound(*then)
            &&& match else_ {
                Some(e) => stmt_no_compound(*e),
                None => true,
            }
        },
        StmtKind::While { cond, body, .. } => no_compound(cond) && stmt_no_compound(*body),
        StmtKind::DoWhile { cond, body, .. } => no_compound(cond) && stmt_no_compound(*body),
        StmtKind::For { init, condition, post, body, .. } => {
            &&& match init {
                ForInit::Decl(v) => var_no_compound(v),
                ForInit::Expr(e) => no_compound(e),
                ForInit::Empty => true,
            }
            &&& (condition matches Some(c) ==> no_compound(c))
            &&& (post matches Some(p) ==> no_compound(p))
            &&& stmt_no_compound(*body)
        },
        StmtKind::Switch(sw) => no_compound(sw.value) && stmt_no_compound(*sw.body),
        StmtKind::Compound(items) => items_no_compound(items@),
        StmtKind::Label(_, st) => stmt_no_compound(*st),
        StmtKind::Case { stmt, .. } => stmt_no_compound(*stmt),
        StmtKind::DefaultCase { stmt, .. } => stmt_no_compound(*stmt),
        _ => true,
    }
}

pub open spec fn items_no_compound(items: Seq<BlockItem>) -> bool
    decreases items,
{
    if items.len() == 0 {
        true
    } else {
        &&& items_no_compound(items.drop_last())
        &&& match items.last() {
            BlockItem::Stmt(s) => stmt_no_compound(s),
            BlockItem::Decl(d) => declaration_no_compound(d),
        }
    }
}

pub open spec fn declaration_no_compound(d: Declaration) -> bool
    decreases d,
{
    match d {
        Declaration::Var(v) => var_no_compound(v),
        Declaration::Func(f) => match f.body {
            Some(b) => items_no_compound(b@),
            None => true,
        },
    }
}

/// Whether `b` is a copy of `a`: the same tree, each type the same type.
pub open spec fn expr_copy(a: Expression, b: Expression) -> bool
    decreases a,
{
    &&& b.span == a.span
    &&& b.ty@ == a.ty@
    &&& match (a.kind, b.kind) {
        (ExprKind::Var(i), ExprKind::Var(j)) => j == i,
        (ExprKind::Constant(c), ExprKind::Constant(d)) => d == c,
        (ExprKind::Cast { target_type: t1, expr: x }, ExprKind::Cast { target_type: t2, expr: y }) =>
            t2@ == t1@ && expr_copy(*x, *y),
        (ExprKind::Unary { operator: p, expr: x }, ExprKind::Unary { operator: q, expr: y }) => q == p && expr_copy(*x, *y),
        (ExprKind::Binary { operator: p, lhs: l1, rhs: r1 }, ExprKind::Binary { operator: q, lhs: l2, rhs: r2 }) =>
            q == p && expr_copy(*l1, *l2) && expr_copy(*r1, *r2),
        (ExprKind::CompoundAssign { operator: p, lhs: l1, rhs: r1 }, ExprKind::CompoundAssign { operator: q, lhs: l2, rhs: r2 }) =>
            q == p && expr_copy(*l1, *l2) && expr_copy(*r1, *r2),
        (ExprKind::Assignment(l1, r1), ExprKind::Assignment(l2, r2)) => expr_copy(*l1, *l2) && expr_copy(*r1, *r2),
        (ExprKind::Prefix(p, x), ExprKind::Prefix(q, y)) => q == p && expr_copy(*x, *y),
        (ExprKind::Postfix(p, x), ExprKind::Postfix(q, y)) => q == p && expr_copy(*x, *y),
        (ExprKind::Conditional(c1, t1, f1), ExprKind::Conditional(c2, t2, f2)) =>
            expr_copy(*c1, *c2) && expr_copy(*t1, *t2) && expr_copy(*f1, *f2),
        (ExprKind::FunctionCall { name: f1, args: a1 }, ExprKind::FunctionCall { name: f2, args: a2 }) => {
            &&& f2 == f1
            &&& a2@.len() == a1@.len()
            &&& forall|k: int| 0 <= k < a1@.len() ==> expr_copy(#[trigger] a1@[k], a2@[k])
        },
        _ => false,
    }
}

/// The operator that `a op= b` applies: `op` without its `=`.
pub open spec fn compound_base(op: BinaryOperator) -> BinaryOperator {
    match spec_compound_assign(op) {
        Some(b) => b,
        None => op,
    }
}

/// Whether `n` is expression `o` with every compound assignment `a op= b`
/// rewritten, inner ones first, into `a = a op b`, both new nodes of type
/// `int` and with the span of the compound assignment; nothing else changes.
pub open spec fn expr_replaced(o: Expression, n: Expression) -> bool
    decreases o,
{
    &&& n.span == o.span
    &&& match (o.kind, n.kind) {
        (ExprKind::CompoundAssign { operator: p, lhs: l1, rhs: r1 }, ExprKind::Assignment(target, value)) => {
            &&& n.ty is Int
            &&& expr_replaced(*l1, *target)
            &&& value.span == o.span
            &&& value.ty is Int
            &&& value.kind matches ExprKind::Binary { operator: q, lhs: l2, rhs: r2 } && q == compound_base(p)
                && expr_replaced(*l1, *l2) && expr_replaced(*r1, *r2)
        },
        (ExprKind::Var(i), ExprKind::Var(j)) => n.ty@ == o.ty@ && j == i,
        (ExprKind::Constant(c), ExprKind::Constant(d)) => n.ty@ == o.ty@ && d == c,
        (ExprKind::Cast { target_type: t1, expr: x }, ExprKind::Cast { target_type: t2, expr: y }) =>
            n.ty@ == o.ty@ && t2@ == t1@ && expr_replaced(*x, *y),
        (ExprKind::Unary { operator: p, expr: x }, ExprKind::Unary { operator: q, expr: y }) =>
            n.ty@ == o.ty@ && q == p && expr_replaced(*x, *y),
        (ExprKind::Binary { operator: p, lhs: l1, rhs: r1 }, ExprKind::Binary { operator: q, lhs: l2, rhs: r2 }) =>
            n.ty@ == o.ty@ && q == p && expr_replaced(*l1, *l2) && expr_replaced(*r1, *r2),
        (ExprKind::Assignment(l1, r1), ExprKind::Assignment(l2, r2)) =>
            n.ty@ == o.ty@ && expr_replaced(*l1, *l2) && expr_replaced(*r1, *r2),
        (ExprKind::Prefix(p, x), ExprKind::Prefix(q, y)) => n.ty@ == o.ty@ && q == p && expr_replaced(*x, *y),
        (ExprKind::Postfix(p, x), ExprKind::Postfix(q, y)) => n.ty@ == o.ty@ && q == p && expr_replaced(*x, *y),
        (ExprKind::Conditional(c1, t1, f1), ExprKind::Conditional(c2, t2, f2)) =>
            n.ty@ == o.ty@ && expr_replaced(*c1, *c2) && expr_replaced(*t1, *t2) && expr_replaced(*f1, *f2),
        (ExprKind::FunctionCall { name: f1, args: a1 }, ExprKind::FunctionCall { name: f2, args: a2 }) => {
            &&& n.ty@ == o.ty@
            &&& f2 == f1
            &&& a2@.len() == a1@.len()
            &&& forall|k: int| 0 <= k < a1@.len() ==> expr_replaced(#[trigger] a1@[k], a2@[k])
        },
        _ => false,
    }
}

/// An optional expression, rewritten.
pub open spec fn opt_replaced(o: Option<Expression>, n: Option<Expression>) -> bool {
    match (o, n) {
        (None, None) => true,
        (Some(a), Some(b)) => expr_replaced(a, b),
        _ => false,
    }
}

/// A variable declaration with its initializer rewritten.
pub open spec fn var_replaced(o: VariableDeclaration, n: VariableDeclaration) -> bool {
    &&& n.name == o.name
    &&& n.ty == o.ty
    &&& n.storage_class == o.storage_class
    &&& n.span == o.span
    &&& opt_replaced(o.init, n.init)
}

/// Whether `n` is statement `o` with the compound assignments of its
/// expressions rewritten; nothing else changes.
pub open spec fn stmt_replaced(o: Statement, n: Statement) -> bool
    decreases o,
{
    &&& n.span == o.span
    &&& match (o.kind, n.kind) {
        (StmtKind::Return(a), StmtKind::Return(b)) => expr_replaced(a, b),
        (StmtKind::Expression(a), StmtKind::Expression(b)) => expr_replaced(a, b),
        (StmtKind::If { cond: c1, then: t1, else_: e1 }, StmtKind::If { cond: c2, then: t2, else_: e2 }) => {
            &&& expr_replaced(c1, c2)
            &&& stmt_replaced(*t1, *t2)
            &&& match (e1, e2) {
                (None, None) => true,
                (Some(x), Some(y)) => stmt_replaced(*x, *y),
                _ => false,
            }
        },
        (StmtKind::Null, StmtKind::Null) => true,
        (StmtKind::Goto(a), StmtKind::Goto(b)) => b == a,
        (StmtKind::Break(a), StmtKind::Break(b)) => b == a,
        (StmtKind::Continue(a), StmtKind::Continue(b)) => b == a,
        (StmtKind::Label(a, x), StmtKind::Label(b, y)) => b == a && stmt_replaced(*x, *y),
        (StmtKind::Compound(x), StmtKind::Compound(y)) => items_replaced(x@, y@),
        (StmtKind::While { cond: c1, body: b1, label: l1 }, StmtKind::While { cond: c2, body: b2, label: l2 }) =>
            l2 == l1 && expr_replaced(c1, c2) && stmt_replaced(*b1, *b2),
        (StmtKind::DoWhile { body: b1, cond: c1, label: l1 }, StmtKind::DoWhile { body: b2, cond: c2, label: l2 }) =>
            l2 == l1 && expr_replaced(c1, c2) && stmt_replaced(*b1, *b2),
        (
            StmtKind::For { init: i1, condition: c1, post: p1, body: b1, label: l1 },
            StmtKind::For { init: i2, condition: c2, post: p2, body: b2, label: l2 },
        ) => {
            &&& l2 == l1
            &&& match (i1, i2) {
                (ForInit::Decl(v), ForInit::Decl(w)) => var_replaced(v, w),
                (ForInit::Expr(a), ForInit::Expr(b)) => expr_replaced(a, b),
                (ForInit::Empty, ForInit::Empty) => true,
                _ => false,
            }
            &&& opt_replaced(c1, c2)
            &&& opt_replaced(p1, p2)
            &&& stmt_replaced(*b1, *b2)
        },
        (StmtKind::Switch(s1), StmtKind::Switch(s2)) => {
            &&& s2.label == s1.label
            &&& s2.case_set == s1.case_set
            &&& s2.cases == s1.cases
            &&& s2.default_case == s1.default_case
            &&& expr_replaced(s1.value, s2.value)
            &&& stmt_replaced(*s1.body, *s2.body)
        },
        (
            StmtKind::Case { value: v1, label: l1, header_span: h1, stmt: s1 },
            StmtKind::Case { value: v2, label: l2, header_span: h2, stmt: s2 },
        ) => v2 == v1 && l2 == l1 && h2 == h1 && stmt_replaced(*s1, *s2),
        (
            StmtKind::DefaultCase { label: l1, header_span: h1, stmt: s1 },
            StmtKind::DefaultCase { label: l2, header_span: h2, stmt: s2 },
        ) => l2 == l1 && h2 == h1 && stmt_replaced(*s1, *s2),
        _ => false,
    }
}

/// Block items, each rewritten.
pub open spec fn items_replaced(o: Seq<BlockItem>, n: Seq<BlockItem>) -> bool
    decreases o,
{
    &&& n.len() == o.len()
    &&& o.len() > 0 ==> {
        &&& items_replaced(o.drop_last(), n.drop_last())
        &&& match (o.last(), n.last()) {
            (BlockItem::Stmt(s), BlockItem::Stmt(t)) => stmt_replaced(s, t),
            (BlockItem::Decl(d), BlockItem::Decl(e)) => decl_replaced(d, e),
            _ => false,
        }
    }
}

/// A declaration with the compound assignments of its initializer or body
/// rewritten.
pub open spec fn decl_replaced(o: Declaration, n: Declaration) -> bool
    decreases o,
{
    match (o, n) {
        (Declaration::Var(v), Declaration::Var(w)) => var_replaced(v, w),
        (Declaration::Func(f), Declaration::Func(g)) => {
            &&& g.name == f.name
            &&& g.params == f.params
            &&& g.return_type == f.return_type
            &&& g.storage_class == f.storage_class
            &&& g.span == f.span
            &&& g.name_span == f.name_span
            &&& match (f.body, g.body) {
                (None, None) => true,
                (Some(a), Some(b)) => items_replaced(a@, b@),
                _ => false,
            }
        },
        _ => false,
    }
}

/// A copy of a rewritten expression is that rewriting too.
proof fn lemma_replaced_copy(o: Expression, a: Expression, b: Expression)
    requires
        expr_replaced(o, a),
        expr_copy(a, b),
    ensures
        expr_replaced(o, b),
    decreases o,
{
    match (o.kind, a.kind, b.kind) {
        (ExprKind::CompoundAssign { lhs: l1, rhs: r1, .. }, ExprKind::Assignment(t, v), ExprKind::Assignment(t2, v2)) => {
            lemma_replaced_copy(*l1, *t, *t2);
            assert(expr_copy(*v, *v2));
            match (v.kind, v2.kind) {
                (ExprKind::Binary { lhs: x, rhs: y, .. }, ExprKind::Binary { lhs: x2, rhs: y2, .. }) => {
                    lemma_replaced_copy(*l1, *x, *x2);
                    lemma_replaced_copy(*r1, *y, *y2);
                },
                _ => {},
            }
        },
        (ExprKind::Cast { expr: x, .. }, ExprKind::Cast { expr: y, .. }, ExprKind::Cast { expr: z, .. }) =>
            lemma_replaced_copy(*x, *y, *z),
        (ExprKind::Unary { expr: x, .. }, ExprKind::Unary { expr: y, .. }, ExprKind::Unary { expr: z, .. }) =>
            lemma_replaced_copy(*x, *y, *z),
        (ExprKind::Binary { lhs: l1, rhs: r1, .. }, ExprKind::Binary { lhs: l2, rhs: r2, .. }, ExprKind::Binary { lhs: l3, rhs: r3, .. }) => {
            lemma_replaced_copy(*l1, *l2, *l3);
            lemma_replaced_copy(*r1, *r2, *r3);
        },
        (ExprKind::Assignment(l1, r1), ExprKind::Assignment(l2, r2), ExprKind::Assignment(l3, r3)) => {
            lemma_replaced_copy(*l1, *l2, *l3);
            lemma_replaced_copy(*r1, *r2, *r3);
        },
        (ExprKind::Prefix(_, x), ExprKind::Prefix(_, y), ExprKind::Prefix(_, z)) => lemma_replaced_copy(*x, *y, *z),
        (ExprKind::Postfix(_, x), ExprKind::Postfix(_, y), ExprKind::Postfix(_, z)) => lemma_replaced_copy(*x, *y, *z),
        (ExprKind::Conditional(c1, t1, f1), ExprKind::Conditional(c2, t2, f2), ExprKind::Conditional(c3, t3, f3)) => {
            lemma_replaced_copy(*c1, *c2, *c3);
            lemma_replaced_copy(*t1, *t2, *t3);
            lemma_replaced_copy(*f1, *f2, *f3);
        },
        (ExprKind::FunctionCall { args: a1, .. }, ExprKind::FunctionCall { args: a2, .. }, ExprKind::FunctionCall { args: a3, .. }) => {
            assert forall|k: int| 0 <= k < a1@.len() implies expr_replaced(#[trigger] a1@[k], a3@[k]) by {
                vstd::std_specs::vec::axiom_vec_index_decreases(a1, k);
                assert(decreases_to!(o => a1@[k]));
                lemma_replaced_copy(a1@[k], a2@[k], a3@[k]);
            }
        },
        _ => {},
    }
}

/// A copy of an expression with the same shape.
fn duplicate(e: &Expression) -> (r: Expression)
    ensures
        no_compound(*e) ==> no_compound(r),
        r.kind is Var <==> e.kind is Var,
        expr_copy(*e, r),
    decreases e,
{
    let kind = match &e.kind {
        ExprKind::Var(i) => ExprKind::Var(i.clone()),
        ExprKind::Constant(c) => ExprKind::Constant(*c),
        ExprKind::Cast { target_type, expr } => ExprKind::Cast { target_type: crate::analysis::clone_type(target_type), expr: Box::new(duplicate(expr)) },
        ExprKind::Unary { operator, expr } => ExprKind::Unary { operator: *operator, expr: Box::new(duplicate(expr)) },
        ExprKind::Binary { operator, lhs, rhs } => ExprKind::Binary { operator: *operator, lhs: Box::new(duplicate(lhs)), rhs: Box::new(duplicate(rhs)) },
        ExprKind::CompoundAssign { operator, lhs, rhs } => ExprKind::CompoundAssign { operator: *operator, lhs: Box::new(duplicate(lhs)), rhs: Box::new(duplicate(rhs)) },
        ExprKind::Assignment(l, r) => ExprKind::Assignment(Box::new(duplicate(l)), Box::new(duplicate(r))),
        ExprKind::Prefix(op, inner) => ExprKind::Prefix(*op, Box::new(duplicate(inner))),
        ExprKind::Postfix(op, inner) => ExprKind::Postfix(*op, Box::new(duplicate(inner))),
        ExprKind::Conditional(c, t, f) => ExprKind::Conditional(Box::new(duplicate(c)), Box::new(duplicate(t)), Box::new(duplicate(f))),
        ExprKind::FunctionCall { name, args } => {
            let mut copies: Vec<Expression> = Vec::new();
            let mut k: usize = 0;
            while k < args.len()
                invariant
                    k <= args@.len(),
                    e.kind matches ExprKind::FunctionCall { args: a, .. } && a == *args,
                    copies@.len() == k,
                    forall|j: int| 0 <= j < k ==> (no_compound(args@[j]) ==> no_compound(#[trigger] copies@[j])),
                    forall|j: int| 0 <= j < k ==> expr_copy(#[trigger] args@[j], copies@[j]),
                decreases args@.len() - k,
            {
                proof {
                    vstd::std_specs::vec::axiom_vec_index_decreases(*args, k as int);
                    assert(decreases_to!(*e => args@[k as int]));
                }
                copies.push(duplicate(&args[k]));
                k = k + 1;
            }
            ExprKind::FunctionCall { name: name.clone(), args: copies }
        },
    };
    Expression { ty: crate::analysis::clone_type(&e.ty), kind, span: e.span.start..e.span.end }
}

/// Rewrites the compound assignments of an expression, inner ones first.
fn replace_in_expression(expr: &mut Expression)
    ensures
        no_compound(*final(expr)),
        final(expr).kind is Var <==> old(expr).kind is Var,
        expr_replaced(*old(expr), *final(expr)),
    decreases *old(expr),
{
    match &mut expr.kind {
        ExprKind::Var(_) | ExprKind::Constant(_) => {},
        ExprKind::Cast { expr: inner, .. } => replace_in_expression(inner),
        ExprKind::Unary { expr: inner, .. } => replace_in_expression(inner),
        ExprKind::Binary { lhs, rhs, .. } => {
            replace_in_expression(lhs);
            replace_in_expression(rhs);
        },
        ExprKind::CompoundAssign { lhs, rhs, .. } => {
            replace_in_expression(lhs);
            replace_in_expression(rhs);
        },
        ExprKind::Assignment(l, r) => {
            replace_in_expression(l);
            replace_in_expression(r);
        },
        ExprKind::Prefix(_, inner) => replace_in_expression(inner),
        ExprKind::Postfix(_, inner) => replace_in_expression(inner),
        ExprKind::Conditional(c, t, f) => {
            replace_in_expression(c);
            replace_in_expression(t);
            replace_in_expression(f);
        },
        ExprKind::FunctionCall { args, .. } => {
            let ghost orig = *args;
            let n = args.len();
            let mut k: usize = 0;
            while k < n
                invariant
                    n == args@.len(),
                    n == orig@.len(),
                    k <= n,
                    old(expr).kind is FunctionCall,
                    orig == old(expr).kind->FunctionCall_args,
                    forall|j: int| k <= j < n ==> args@[j] == orig@[j],
                    forall|j: int| 0 <= j < k ==> no_compound(#[trigger] args@[j]),
                    forall|j: int| 0 <= j < k ==> expr_replaced(#[trigger] orig@[j], args@[j]),
                decreases n - k,
            {
                proof {
                    vstd::std_specs::vec::axiom_vec_index_decreases(orig, k as int);
                    assert(decreases_to!(*old(expr) => orig@[k as int]));
                }
                replace_in_expression(&mut args[k]);
                k = k + 1;
            }
        },
    }
    assert(expr.kind matches ExprKind::CompoundAssign { lhs, rhs, .. } ==> no_compound(*lhs) && no_compound(*rhs));
    assert(!(expr.kind is CompoundAssign) ==> no_compound(*expr));
    let rewritten = match &expr.kind {
        ExprKind::CompoundAssign { operator, lhs, rhs } => {
            let op = match operator.compound_assign() {
                Some(b) => b,
                None => *operator,
            };
            let span = expr.span.start..expr.span.end;
            let left = duplicate(lhs);
            let right = duplicate(rhs);
            let target = duplicate(lhs);
            proof {
                let o = *old(expr);
                lemma_replaced_copy(*o.kind->CompoundAssign_lhs, **lhs, left);
                lemma_replaced_copy(*o.kind->CompoundAssign_rhs, **rhs, right);
                lemma_replaced_copy(*o.kind->CompoundAssign_lhs, **lhs, target);
            }
            let binary = Expression {
                ty: Type::Int,
                kind: ExprKind::Binary { operator: op, lhs: Box::new(left), rhs: Box::new(right) },
                span: expr.span.start..expr.span.end,
            };
            assert(no_compound(binary));
            Some(Expression { ty: Type::Int, span, kind: ExprKind::Assignment(Box::new(target), Box::new(binary)) })
        },
        _ => None,
    };
    match rewritten {
        Some(r) => {
            *expr = r;
        },
        None => {},
    }
}

fn replace_in_optional(e: &mut Option<Expression>)
    ensures
        *final(e) matches Some(x) ==> no_compound(x),
        *final(e) is Some <==> *old(e) is Some,
        opt_replaced(*old(e), *final(e)),
{
    match e {
        Some(x) => replace_in_expression(x),
        None => {},
    }
}

fn replace_in_variable(v: &mut VariableDeclaration)
    ensures
        var_no_compound(*final(v)),
        final(v).name == old(v).name,
        var_replaced(*old(v), *final(v)),
{
    replace_in_optional(&mut v.init);
}

fn replace_in_statement(stmt: &mut Statement)
    ensures
        stmt_no_compound(*final(stmt)),
        stmt_replaced(*old(stmt), *final(stmt)),
    decreases *old(stmt),
{
    match &mut stmt.kind {
        StmtKind::Return(e) => replace_in_expression(e),
        StmtKind::Expression(e) => replace_in_expression(e),
        StmtKind::If { cond, then, else_ } => {
            replace_in_expression(cond);
            replace_in_statement(then);
            match else_ {
                Some(e) => replace_in_statement(e),
                None => {},
            }
        },
        StmtKind::While { cond, body, .. } => {
            replace_in_expression(cond);
            replace_in_statement(body);
        },
        StmtKind::DoWhile { cond, body, .. } => {
            replace_in_expression(cond);
            replace_in_statement(body);
        },
        StmtKind::For { init, condition, post, body, .. } => {
            match init {
                ForInit::Decl(v) => replace_in_variable(v),
                ForInit::Expr(e) => replace_in_expression(e),
                ForInit::Empty => {},
            }
            replace_in_optional(condition);
            replace_in_optional(post);
            replace_in_statement(body);
        },
        StmtKind::Switch(sw) => {
            replace_in_expression(&mut sw.value);
            replace_in_statement(&mut sw.body);
        },
        StmtKind::Compound(items) => replace_in_items(items),
        StmtKind::Label(_, s) => replace_in_statement(s),
        StmtKind::Case { stmt: s, .. } => replace_in_statement(s),
        StmtKind::DefaultCase { stmt: s, .. } => replace_in_statement(s),
        _ => {},
    }
}

fn replace_in_declaration(d: &mut Declaration)
    ensures
        declaration_no_compound(*final(d)),
        *final(d) is Func <==> *old(d) is Func,
        decl_replaced(*old(d), *final(d)),
    decreases *old(d),
{
    match d {
        Declaration::Var(v) => replace_in_variable(v),
        Declaration::Func(f) => match &mut f.body {
            Some(b) => replace_in_items(b),
            None => {},
        },
    }
}

fn replace_in_items(items: &mut Vec<BlockItem>)
    ensures
        items_no_compound(final(items)@),
        items_replaced(old(items)@, final(items)@),
    decreases *old(items),
{
    let ghost orig = items@;
    let n = items.len();
    let mut k: usize = 0;
    while k < n
        invariant
            n == items@.len(),
            orig == old(items)@,
            orig.len() == n,
            k <= n,
            forall|j: int| k <= j < n ==> items@[j] == orig[j],
            items_no_compound(items@.take(k as int)),
            items_replaced(orig.take(k as int), items@.take(k as int)),
        decreases n - k,
    {
        let ghost prev = items@;
        proof {
            vstd::std_specs::vec::axiom_vec_index_decreases(*old(items), k as int);
        }
        match &mut items[k] {
            BlockItem::Stmt(s) => replace_in_statement(s),
            BlockItem::Decl(d) => replace_in_declaration(d),
        }
        proof {
            assert(items@.take(k + 1).drop_last() =~= items@.take(k as int));
            assert(items@.take(k as int) =~= prev.take(k as int));
            assert(orig.take(k + 1).drop_last() =~= orig.take(k as int));
        }
        k = k + 1;
    }
    proof {
        assert(items@.take(n as int) =~= items@);
        assert(orig.take(n as int) =~= orig);
    }
}

/// Rewrites every compound assignment `a op= b` of the program into
/// `a = a op b`; none is left.
pub fn replace_compound_assign_with_assign_binary(program: &mut Program)
    ensures
        final(program).0@.len() == old(program).0@.len(),
        forall|k: int| 0 <= k < final(program).0@.len() ==> declaration_no_compound(#[trigger] final(program).0@[k]),
        forall|k: int| 0 <= k < old(program).0@.len() ==> decl_replaced(#[trigger] old(program).0@[k], final(program).0@[k]),
{
    let n = program.0.len();
    let mut k: usize = 0;
    while k < n
        invariant
            k <= n,
            n == program.0@.len(),
            n == old(program).0@.len(),
            forall|j: int| 0 <= j < k ==> declaration_no_compound(#[trigger] program.0@[j]),
            forall|j: int| k <= j < n ==> #[trigger] program.0@[j] == old(program).0@[j],
            forall|j: int| 0 <= j < k ==> decl_replaced(#[trigger] old(program).0@[j], program.0@[j]),
        decreases n - k,
    {
        let ghost prev = program.0@;
        replace_in_declaration(&mut program.0[k]);
        proof {
            assert forall|j: int| 0 <= j < k implies program.0@[j] == prev[j] by {}
        }
        k = k + 1;
    }
}

} // verus!
