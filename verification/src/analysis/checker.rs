//! The type checking pass: gives every expression its type, inserts the
//! implicit conversions, and builds the symbol table.
use vstd::prelude::*;
use crate::analysis::typechecking::{
    FunctionType, IdentifierAttributes, InitialValue, StaticInit, StaticIntType, Symbol, Type, TypeView,
    clone_type, lemma_function_view, same_type, same_types, spec_global, spec_static_cast, spec_static_from_constant,
};
use crate::analysis::reporting::{
    appended, appended_errors, extended, lemma_appended_extended, lemma_appended_trans, lemma_errors_none,
    lemma_errors_trans, lemma_extended_refl, lemma_extended_trans, report, report_string, Errors,
};
use crate::diagnostics::{Diagnostics, Span};
use crate::parser::ast::{
    BlockItem, Constant, Declaration, ExprKind, Expression, ForInit, FunctionDeclaration, Identifier, Program,
    Statement, StmtKind, StorageClass, VariableDeclaration,
};
use crate::parser::eval::{const_defined, const_value, spec_to_constant};
use crate::parser::operators::{BinaryOperator, UnaryOperator};
use crate::table::Table;
use crate::text::{push_str, push_string, string_of, push_decimal};

verus! {

broadcast use vstd::std_specs::vec::axiom_spec_len, lemma_extended_trans;

/// The symbol table that type checking builds.
pub type Symbols = Table<Symbol>;

pub open spec fn is_logical(op: BinaryOperator) -> bool {
    op == BinaryOperator::And || op == BinaryOperator::Or
}

pub open spec fn is_shift(op: BinaryOperator) -> bool {
    op == BinaryOperator::LeftShift || op == BinaryOperator::RightShift
}

pub open spec fn is_comparison(op: BinaryOperator) -> bool {
    op == BinaryOperator::Equal || op == BinaryOperator::NotEqual || op == BinaryOperator::LessThan
        || op == BinaryOperator::LessEqual || op == BinaryOperator::GreaterThan || op == BinaryOperator::GreaterEqual
}

/// Whether every node of an expression carries the type C gives it, with the
/// operands of each operator converted to a common type.
pub open spec fn well_typed(e: Expression) -> bool
    decreases e,
{
    match e.kind {
        ExprKind::Var(_) => !(e.ty is Function),
        ExprKind::Constant(c) => match c {
            Constant::Int(_) => e.ty is Int,
            Constant::Long(_) => e.ty is Long,
        },
        ExprKind::Cast { target_type, expr } => well_typed(*expr) && e.ty@ == target_type@,
        ExprKind::Unary { operator, expr } => {
            &&& well_typed(*expr)
            &&& operator == UnaryOperator::Not ==> e.ty is Int
            &&& operator != UnaryOperator::Not ==> e.ty@ == expr.ty@
        },
        ExprKind::Binary { operator, lhs, rhs } => {
            &&& well_typed(*lhs)
            &&& well_typed(*rhs)
            &&& if is_logical(operator) {
                e.ty is Int
            } else if is_shift(operator) {
                e.ty@ == lhs.ty@
            } else {
                &&& lhs.ty@ == rhs.ty@
                &&& is_comparison(operator) ==> e.ty is Int
                &&& !is_comparison(operator) ==> e.ty@ == lhs.ty@
            }
        },
        ExprKind::Prefix(_, inner) => well_typed(*inner) && e.ty@ == inner.ty@,
        ExprKind::Postfix(_, inner) => well_typed(*inner) && e.ty@ == inner.ty@,
        ExprKind::Conditional(c, t, f) => {
            &&& well_typed(*c)
            &&& well_typed(*t)
            &&& well_typed(*f)
            &&& t.ty@ == f.ty@
            &&& e.ty@ == t.ty@
        },
        ExprKind::Assignment(l, r) => {
            &&& well_typed(*l)
            &&& well_typed(*r)
            &&& r.ty@ == l.ty@
            &&& e.ty@ == l.ty@
        },
        ExprKind::FunctionCall { args, .. } => forall|k: int| 0 <= k < args@.len() ==> well_typed(#[trigger] args@[k]),
        ExprKind::CompoundAssign { .. } => false,
    }
}

/// The type both operands are converted to: their type when they agree,
/// `long` otherwise.
pub open spec fn common_type(a: TypeView, b: TypeView) -> TypeView {
    if a == b { a } else { TypeView::Long }
}

/// The type C gives expression `e` under the symbol table `m`: an arithmetic
/// operator and `?:` take the common type of their operands, a comparison or
/// logical operator gives `int`, a shift the type of its left operand.
pub open spec fn checked_type(e: Expression, m: Map<crate::table::Key, Symbol>) -> TypeView
    decreases e,
{
    match e.kind {
        ExprKind::Var(i) => m[i@].ty@,
        ExprKind::Constant(c) => match c {
            Constant::Int(_) => TypeView::Int,
            Constant::Long(_) => TypeView::Long,
        },
        ExprKind::Cast { target_type, .. } => target_type@,
        ExprKind::Unary { operator, expr } => if operator == UnaryOperator::Not { TypeView::Int } else { checked_type(*expr, m) },
        ExprKind::Binary { operator, lhs, rhs } => if is_logical(operator) || is_comparison(operator) {
            TypeView::Int
        } else if is_shift(operator) {
            checked_type(*lhs, m)
        } else {
            common_type(checked_type(*lhs, m), checked_type(*rhs, m))
        },
        ExprKind::CompoundAssign { .. } => TypeView::Int,
        ExprKind::Assignment(l, _) => checked_type(*l, m),
        ExprKind::Prefix(_, x) => checked_type(*x, m),
        ExprKind::Postfix(_, x) => checked_type(*x, m),
        ExprKind::Conditional(_, t, f) => common_type(checked_type(*t, m), checked_type(*f, m)),
        ExprKind::FunctionCall { name, .. } => match m[name@].ty@ {
            TypeView::Function { return_type, .. } => *return_type,
            _ => TypeView::Int,
        },
    }
}

/// Whether `n` is expression `o` as the type checker leaves it: every node
/// has the type C gives it from the symbol table `m`, and an operand that
/// must have another type is wrapped in a cast to it.
pub open spec fn expr_checked(o: Expression, n: Expression, m: Map<crate::table::Key, Symbol>) -> bool
    decreases o, 1int,
{
    &&& n.span == o.span
    &&& match (o.kind, n.kind) {
        (ExprKind::Var(i), ExprKind::Var(j)) => {
            &&& j == i
            &&& m.dom().contains(i@)
            &&& !(m[i@].ty is Function)
            &&& n.ty@ == m[i@].ty@
        },
        (ExprKind::Constant(c), ExprKind::Constant(d)) => d == c && match c {
            Constant::Int(_) => n.ty is Int,
            Constant::Long(_) => n.ty is Long,
        },
        (ExprKind::Cast { target_type: t1, expr: a }, ExprKind::Cast { target_type: t2, expr: b }) =>
            t2 == t1 && n.ty@ == t1@ && expr_checked(*a, *b, m),
        (ExprKind::Unary { operator: p, expr: a }, ExprKind::Unary { operator: q, expr: b }) => {
            &&& q == p
            &&& expr_checked(*a, *b, m)
            &&& n.ty@ == (if p == UnaryOperator::Not { TypeView::Int } else { b.ty@ })
        },
        (ExprKind::Binary { operator: p, lhs: l1, rhs: r1 }, ExprKind::Binary { operator: q, lhs: l2, rhs: r2 }) => {
            &&& q == p
            &&& if is_logical(p) {
                &&& expr_checked(*l1, *l2, m)
                &&& expr_checked(*r1, *r2, m)
                &&& n.ty is Int
            } else if is_shift(p) {
                &&& expr_checked(*l1, *l2, m)
                &&& expr_checked(*r1, *r2, m)
                &&& n.ty@ == l2.ty@
            } else {
                &&& operand_checked(*l1, *l2, m)
                &&& operand_checked(*r1, *r2, m)
                &&& l2.ty@ == common_type(checked_type(*l1, m), checked_type(*r1, m))
                &&& l2.ty@ == r2.ty@
                &&& n.ty@ == (if is_comparison(p) { TypeView::Int } else { l2.ty@ })
            }
        },
        (ExprKind::Prefix(p, a), ExprKind::Prefix(q, b)) => q == p && expr_checked(*a, *b, m) && n.ty@ == b.ty@,
        (ExprKind::Postfix(p, a), ExprKind::Postfix(q, b)) => q == p && expr_checked(*a, *b, m) && n.ty@ == b.ty@,
        (ExprKind::Conditional(c1, t1, f1), ExprKind::Conditional(c2, t2, f2)) => {
            &&& expr_checked(*c1, *c2, m)
            &&& operand_checked(*t1, *t2, m)
            &&& operand_checked(*f1, *f2, m)
            &&& t2.ty@ == common_type(checked_type(*t1, m), checked_type(*f1, m))
            &&& t2.ty@ == f2.ty@
            &&& n.ty@ == t2.ty@
        },
        (ExprKind::Assignment(l1, r1), ExprKind::Assignment(l2, r2)) => {
            &&& expr_checked(*l1, *l2, m)
            &&& operand_checked(*r1, *r2, m)
            &&& r2.ty@ == l2.ty@
            &&& n.ty@ == l2.ty@
        },
        (ExprKind::FunctionCall { name: f1, args: a1 }, ExprKind::FunctionCall { name: f2, args: a2 }) => {
            &&& f2 == f1
            &&& m.dom().contains(f1@)
            &&& m[f1@].ty@ matches TypeView::Function { parameters, return_type, .. }
            &&& a2@.len() == a1@.len() && a1@.len() == parameters.len()
            &&& forall|k: int| 0 <= k < a1@.len() ==> operand_checked(#[trigger] a1@[k], a2@[k], m)
                && a2@[k].ty@ == parameters[k]
            &&& n.ty@ == *return_type
        },
        _ => false,
    }
}

/// Whether `n` is operand `o` checked, and converted by a cast where its
/// parent needs another type.
pub open spec fn operand_checked(o: Expression, n: Expression, m: Map<crate::table::Key, Symbol>) -> bool
    decreases o, 2int,
{
    ||| expr_checked(o, n, m)
    ||| (n.kind matches ExprKind::Cast { target_type, expr: inner } && n.span == o.span && n.ty@ == target_type@
        && inner.ty@ != target_type@ && expr_checked(o, *inner, m))
}

/// What the type checker records of a name: its attributes and its type.
pub type SymbolView = (IdentifierAttributes, TypeView);

/// The symbol table as values.
pub open spec fn table_view(m: Map<crate::table::Key, Symbol>) -> Map<crate::table::Key, SymbolView> {
    m.map_values(|s: Symbol| (s.attributes, s.ty@))
}

/// Recording a symbol records its value.
proof fn lemma_table_view_insert(m: Map<crate::table::Key, Symbol>, k: crate::table::Key, s: Symbol)
    ensures
        table_view(m.insert(k, s)) == table_view(m).insert(k, (s.attributes, s.ty@)),
{
    assert(table_view(m.insert(k, s)) =~= table_view(m).insert(k, (s.attributes, s.ty@)));
}

/// What checking local declaration `v` does, given table `m`: the table it
/// leaves and the errors it reports. An `extern` declaration is
/// recorded unless the name is known, and may not have an initializer nor
/// a type other than the known one; a `static` one needs a constant
/// initializer; an automatic one is recorded before its initializer is
/// checked.
pub open spec fn local_effect(v: VariableDeclaration, m: Map<crate::table::Key, SymbolView>) -> (Map<crate::table::Key, SymbolView>, Errors) {
    if v.storage_class == StorageClass::Extern {
        let bad_init: Errors = if v.init is Some {
            seq![(v.span, "initializer on local extern variable declaration"@)]
        } else {
            seq![]
        };
        if m.dom().contains(v.name@) {
            (m, bad_init + if m[v.name@].1 != v.ty@ { seq![(v.span, "redeclaration with a different type"@)] } else { seq![] })
        } else {
            (m.insert(v.name@, (IdentifierAttributes::Static { init: InitialValue::NoInitializer, global: true }, v.ty@)), bad_init)
        }
    } else if v.storage_class == StorageClass::Static {
        match v.init {
            Some(e) => match init_value(e) {
                Some(c) => (m.insert(v.name@, (IdentifierAttributes::Static {
                    init: InitialValue::Constant(spec_static_cast(spec_static_from_constant(c), static_int_type(v.ty@))),
                    global: false,
                }, v.ty@)), seq![]),
                None => (m, seq![(v.span, "initializer is not a constant integer"@)]),
            },
            None => (m.insert(v.name@, (IdentifierAttributes::Static { init: InitialValue::Tentitive, global: false }, v.ty@)), seq![]),
        }
    } else {
        let inner = m.insert(v.name@, (IdentifierAttributes::Local, v.ty@));
        (inner, match v.init {
            Some(e) => expr_errors(e, inner),
            None => seq![],
        })
    }
}

/// The errors checking an expression reports: its error, if it has one.
pub open spec fn expr_errors(e: Expression, m: Map<crate::table::Key, SymbolView>) -> Errors {
    match check_error(e, m) {
        Some(x) => seq![x],
        None => seq![],
    }
}

/// The errors checking an optional expression reports.
pub open spec fn opt_errors(e: Option<Expression>, m: Map<crate::table::Key, SymbolView>) -> Errors {
    match e {
        Some(x) => expr_errors(x, m),
        None => seq![],
    }
}

/// The table after the parameters `ps` are recorded as locals, in order.
pub open spec fn params_recorded(ps: Seq<crate::parser::ast::FunctionParameter>, m: Map<crate::table::Key, SymbolView>) -> Map<crate::table::Key, SymbolView>
    decreases ps.len(),
{
    if ps.len() == 0 {
        m
    } else {
        params_recorded(ps.drop_last(), m).insert(ps.last().name@, (IdentifierAttributes::Local, ps.last().ty@))
    }
}

/// What checking statement `s` does, given table `m`: the table it leaves
/// and the errors it reports. Expressions are checked against the
/// table where they stand; declarations in blocks and `for` headers record
/// their names for what follows.
pub open spec fn stmt_effect(s: Statement, m: Map<crate::table::Key, SymbolView>) -> (Map<crate::table::Key, SymbolView>, Errors)
    decreases s,
{
    match s.kind {
        StmtKind::Return(e) => (m, expr_errors(e, m)),
        StmtKind::Expression(e) => (m, expr_errors(e, m)),
        StmtKind::If { cond, then, else_ } => {
            let t = stmt_effect(*then, m);
            match else_ {
                Some(x) => {
                    let f = stmt_effect(*x, t.0);
                    (f.0, expr_errors(cond, m) + t.1 + f.1)
                },
                None => (t.0, expr_errors(cond, m) + t.1),
            }
        },
        StmtKind::While { cond, body, .. } => {
            let b = stmt_effect(*body, m);
            (b.0, expr_errors(cond, m) + b.1)
        },
        StmtKind::DoWhile { cond, body, .. } => {
            let b = stmt_effect(*body, m);
            (b.0, expr_errors(cond, m) + b.1)
        },
        StmtKind::For { init, condition, post, body, .. } => {
            let i = match init {
                ForInit::Decl(v) => local_effect(v, m),
                ForInit::Expr(e) => (m, expr_errors(e, m)),
                ForInit::Empty => (m, Seq::<(Span, Seq<char>)>::empty()),
            };
            let b = stmt_effect(*body, i.0);
            (b.0, i.1 + opt_errors(condition, i.0) + opt_errors(post, i.0) + b.1)
        },
        StmtKind::Switch(sw) => {
            let b = stmt_effect(*sw.body, m);
            (b.0, expr_errors(sw.value, m) + b.1)
        },
        StmtKind::Compound(items) => items_effect(items@, m),
        StmtKind::Label(_, x) => stmt_effect(*x, m),
        StmtKind::Case { stmt, .. } => stmt_effect(*stmt, m),
        StmtKind::DefaultCase { stmt, .. } => stmt_effect(*stmt, m),
        _ => (m, seq![]),
    }
}

/// What checking block items one after another does.
pub open spec fn items_effect(items: Seq<BlockItem>, m: Map<crate::table::Key, SymbolView>) -> (Map<crate::table::Key, SymbolView>, Errors)
    decreases items,
{
    if items.len() == 0 {
        (m, seq![])
    } else {
        let p = items_effect(items.drop_last(), m);
        let q = match items.last() {
            BlockItem::Stmt(s) => stmt_effect(s, p.0),
            BlockItem::Decl(Declaration::Var(v)) => local_effect(v, p.0),
            BlockItem::Decl(Declaration::Func(f)) => func_effect(f, p.0),
        };
        (q.0, p.1 + q.1)
    }
}

/// What checking a function declaration does: it is recorded, with the
/// conflicts against an earlier declaration reported, and then its body, if
/// any, is checked with its parameters recorded as locals.
pub open spec fn func_effect(f: FunctionDeclaration, m: Map<crate::table::Key, SymbolView>) -> (Map<crate::table::Key, SymbolView>, Errors)
    decreases f,
{
    let prev = previous_in(m, f.name);
    let has_body = f.body is Some;
    let is_static = f.storage_class == StorageClass::Static;
    let defined = function_defined(prev, has_body);
    let recorded = m.insert(f.name@, (
        IdentifierAttributes::Function { defined, global: function_global(prev, is_static) },
        TypeView::Function { parameters: parameter_types(f), defined, return_type: Box::new(f.return_type@) },
    ));
    let conflicts = function_conflicts(prev, parameter_types(f), has_body, is_static, f.name, f.span);
    match f.body {
        Some(b) => {
            let q = items_effect(b@, params_recorded(f.params@, recorded));
            (q.0, conflicts + q.1)
        },
        None => (recorded, conflicts),
    }
}

/// The arguments of `e`, when it is a call.
pub open spec fn call_args(e: Expression) -> Seq<Expression> {
    match e.kind {
        ExprKind::FunctionCall { args, .. } => args@,
        _ => seq![],
    }
}

/// The first of two possible errors.
pub open spec fn first_error(a: Option<(Span, Seq<char>)>, b: Option<(Span, Seq<char>)>) -> Option<(Span, Seq<char>)> {
    if a is Some { a } else { b }
}

/// The error that type checking `e` against the symbol table `m` reports,
/// with its span and message: the first met, operands left to right; `None`
/// when `e` checks.
pub open spec fn check_error(e: Expression, m: Map<crate::table::Key, SymbolView>) -> Option<(Span, Seq<char>)>
    decreases e, call_args(e).len() + 1,
{
    match e.kind {
        ExprKind::Var(i) => if !m.dom().contains(i@) {
            Some((e.span, "undeclared variable '"@ + i.1@ + "'"@))
        } else if m[i@].1 is Function {
            Some((e.span, "function name used as variable"@))
        } else {
            None
        },
        ExprKind::Constant(_) => None,
        ExprKind::Cast { expr, .. } => check_error(*expr, m),
        ExprKind::Unary { expr, .. } => check_error(*expr, m),
        ExprKind::Binary { lhs, rhs, .. } => first_error(check_error(*lhs, m), check_error(*rhs, m)),
        ExprKind::CompoundAssign { .. } => Some((e.span, "compound assignment left after analysis"@)),
        ExprKind::Assignment(l, r) => first_error(check_error(*l, m), check_error(*r, m)),
        ExprKind::Prefix(_, x) => check_error(*x, m),
        ExprKind::Postfix(_, x) => check_error(*x, m),
        ExprKind::Conditional(c, t, f) => first_error(check_error(*c, m), first_error(check_error(*t, m), check_error(*f, m))),
        ExprKind::FunctionCall { name, args } => if !m.dom().contains(name@) {
            Some((e.span, "undeclared function '"@ + name.1@ + "'"@))
        } else {
            match m[name@].1 {
                TypeView::Function { parameters, .. } => if parameters.len() != args@.len() {
                    Some((e.span, "wrong number of arguments: expected "@ + crate::text::decimal(parameters.len())
                        + ", found "@ + crate::text::decimal(args@.len())))
                } else {
                    args_error(e, 0, m)
                },
                _ => Some((e.span, "variable '"@ + name.1@ + "' used as a function"@)),
            }
        },
    }
}

/// The first error among the arguments of call `e` from the `k`th on.
pub open spec fn args_error(e: Expression, k: int, m: Map<crate::table::Key, SymbolView>) -> Option<(Span, Seq<char>)>
    decreases e, call_args(e).len() - k,
{
    if 0 <= k < call_args(e).len() {
        proof {
            match e.kind {
                ExprKind::FunctionCall { args, .. } => vstd::std_specs::vec::axiom_vec_index_decreases(args, k),
                _ => {},
            }
        }
        first_error(check_error(call_args(e)[k], m), args_error(e, k + 1, m))
    } else {
        None
    }
}

/// A checked expression has the type C gives it.
pub proof fn lemma_checked_type(o: Expression, n: Expression, m: Map<crate::table::Key, Symbol>)
    requires
        expr_checked(o, n, m),
    ensures
        n.ty@ == checked_type(o, m),
    decreases o,
{
    match (o.kind, n.kind) {
        (ExprKind::Unary { expr: a, .. }, ExprKind::Unary { expr: b, .. }) => lemma_checked_type(*a, *b, m),
        (ExprKind::Binary { lhs: l1, .. }, ExprKind::Binary { lhs: l2, .. }) => {
            if expr_checked(*l1, *l2, m) {
                lemma_checked_type(*l1, *l2, m);
            }
        },
        (ExprKind::Assignment(l1, _), ExprKind::Assignment(l2, _)) => lemma_checked_type(*l1, *l2, m),
        (ExprKind::Prefix(_, a), ExprKind::Prefix(_, b)) => lemma_checked_type(*a, *b, m),
        (ExprKind::Postfix(_, a), ExprKind::Postfix(_, b)) => lemma_checked_type(*a, *b, m),
        _ => {},
    }
}

fn get_common_type(a: &Type, b: &Type) -> (r: Type)
    ensures
        r@ == common_type(a@, b@),
{
    if same_type(a, b) {
        clone_type(a)
    } else {
        Type::Long
    }
}

/// Converts `expr` to `ty`, wrapping it in a cast when its type differs.
fn convert_to(expr: &mut Expression, ty: Type)
    ensures
        final(expr).ty@ == ty@,
        final(expr).span == old(expr).span,
        well_typed(*old(expr)) ==> well_typed(*final(expr)),
        old(expr).ty@ == ty@ ==> *final(expr) == *old(expr),
        old(expr).ty@ != ty@ ==> (final(expr).kind matches ExprKind::Cast { target_type, expr: inner }
            && target_type@ == ty@ && *inner == *old(expr)),
{
    if !same_type(&expr.ty, &ty) {
        let span = expr.span.start..expr.span.end;
        let mut inner = Expression { kind: ExprKind::Constant(Constant::Int(0)), span: expr.span.start..expr.span.end, ty: Type::Int };
        core::mem::swap(expr, &mut inner);
        let t = clone_type(&ty);
        *expr = Expression { kind: ExprKind::Cast { target_type: ty, expr: Box::new(inner) }, span, ty: t };
    }
}

/// A checked operand stays checked when converted to the type its parent needs.
proof fn lemma_converted_checked(o: Expression, x: Expression, y: Expression, ty: TypeView, m: Map<crate::table::Key, Symbol>)
    requires
        expr_checked(o, x, m),
        y.ty@ == ty,
        y.span == x.span,
        x.ty@ == ty ==> y == x,
        x.ty@ != ty ==> (y.kind matches ExprKind::Cast { target_type, expr: inner } && target_type@ == ty && *inner == x),
    ensures
        operand_checked(o, y, m),
{
}

/// Type-checks an expression. `None` when an error, which is reported,
/// stopped the check.
#[verifier::spinoff_prover]
#[verifier::rlimit(40)]
fn check_expression(expr: &mut Expression, symbols: &Symbols, diagnostics: &mut Diagnostics) -> (r: Option<()>)
    ensures
        r is Some ==> well_typed(*final(expr)),
        r is Some ==> expr_checked(*old(expr), *final(expr), symbols@),
        r is None ==> final(diagnostics).vec@.len() > old(diagnostics).vec@.len(),
        extended(*old(diagnostics), *final(diagnostics)),
        r is Some <==> check_error(*old(expr), table_view(symbols@)) is None,
        r is Some ==> final(diagnostics).vec@ == old(diagnostics).vec@,
        r is None ==> appended(*old(diagnostics), *final(diagnostics), 1)
            && final(diagnostics).vec@.last().span == check_error(*old(expr), table_view(symbols@))->Some_0.0
            && final(diagnostics).vec@.last().message@ == check_error(*old(expr), table_view(symbols@))->Some_0.1,
    decreases *old(expr),
{
    proof { lemma_extended_refl(*diagnostics); }
    let span = expr.span.start..expr.span.end;
    match &mut expr.kind {
        ExprKind::Var(i) => {
            let sym = match symbols.get(i) {
                Some(s) => s,
                None => {
                    let mut m = string_of("undeclared variable '");
                    push_string(&mut m, &i.1);
                    push_str(&mut m, "'");
                    report_string(diagnostics, span, m);
                    proof { lemma_appended_extended(*old(diagnostics), *diagnostics, 1); }
                    return None;
                },
            };
            if sym.ty.is_function() {
                proof { lemma_appended_extended(*old(diagnostics), *diagnostics, 0); }
                report(diagnostics, span, "function name used as variable");
                proof { lemma_appended_extended(*old(diagnostics), *diagnostics, 1); }
                return None;
            }
            expr.ty = clone_type(&sym.ty);
        },
        ExprKind::Constant(c) => {
            match c {
                Constant::Int(_) => expr.ty = Type::Int,
                Constant::Long(_) => expr.ty = Type::Long,
            }
        },
        ExprKind::Cast { target_type, expr: inner } => {
            check_expression(inner, symbols, diagnostics)?;
            expr.ty = clone_type(target_type);
        },
        ExprKind::Unary { operator, expr: inner } => {
            check_expression(inner, symbols, diagnostics)?;
            expr.ty = match operator {
                UnaryOperator::Not => Type::Int,
                _ => clone_type(&inner.ty),
            };
        },
        ExprKind::Binary { operator, lhs, rhs } => {
            check_expression(lhs, symbols, diagnostics)?;
            check_expression(rhs, symbols, diagnostics)?;
            if operator.is_logical() {
                expr.ty = Type::Int;
                return Some(());
            }
            if operator.is_shift() {
                expr.ty = clone_type(&lhs.ty);
                return Some(());
            }
            let common = get_common_type(&lhs.ty, &rhs.ty);
            let ghost l1 = **lhs;
            let ghost r1 = **rhs;
            proof {
                lemma_checked_type(*old(expr).kind->Binary_lhs, l1, symbols@);
                lemma_checked_type(*old(expr).kind->Binary_rhs, r1, symbols@);
            }
            convert_to(lhs, clone_type(&common));
            convert_to(rhs, clone_type(&common));
            proof {
                let m = symbols@;
                lemma_converted_checked(*old(expr).kind->Binary_lhs, l1, **lhs, common@, m);
                lemma_converted_checked(*old(expr).kind->Binary_rhs, r1, **rhs, common@, m);
            }
            if operator.is_comparison() {
                expr.ty = Type::Int;
            } else {
                expr.ty = common;
            }
        },
        ExprKind::Prefix(_, inner) => {
            check_expression(inner, symbols, diagnostics)?;
            expr.ty = clone_type(&inner.ty);
        },
        ExprKind::Postfix(_, inner) => {
            check_expression(inner, symbols, diagnostics)?;
            expr.ty = clone_type(&inner.ty);
        },
        ExprKind::Conditional(cond, then, else_) => {
            check_expression(cond, symbols, diagnostics)?;
            check_expression(then, symbols, diagnostics)?;
            check_expression(else_, symbols, diagnostics)?;
            proof {
                lemma_checked_type(*old(expr).kind->Conditional_1, **then, symbols@);
                lemma_checked_type(*old(expr).kind->Conditional_2, **else_, symbols@);
            }
            if !same_type(&then.ty, &else_.ty) {
                let common = get_common_type(&then.ty, &else_.ty);
                let ghost t1 = **then;
                let ghost f1 = **else_;
                convert_to(then, clone_type(&common));
                convert_to(else_, clone_type(&common));
                proof {
                    lemma_converted_checked(*old(expr).kind->Conditional_1, t1, **then, common@, symbols@);
                    lemma_converted_checked(*old(expr).kind->Conditional_2, f1, **else_, common@, symbols@);
                }
                expr.ty = common;
            } else {
                proof {
                    assert(operand_checked(*old(expr).kind->Conditional_1, **then, symbols@));
                    assert(operand_checked(*old(expr).kind->Conditional_2, **else_, symbols@));
                }
                expr.ty = clone_type(&then.ty);
            }
        },
        ExprKind::Assignment(lhs, rhs) => {
            check_expression(lhs, symbols, diagnostics)?;
            check_expression(rhs, symbols, diagnostics)?;
            let ghost r1 = **rhs;
            convert_to(rhs, clone_type(&lhs.ty));
            proof {
                lemma_converted_checked(*old(expr).kind->Assignment_1, r1, **rhs, lhs.ty@, symbols@);
            }
            expr.ty = clone_type(&lhs.ty);
        },
        ExprKind::CompoundAssign { .. } => {
            report(diagnostics, span, "compound assignment left after analysis");
            proof { lemma_appended_extended(*old(diagnostics), *diagnostics, 1); }
            return None;
        },
        ExprKind::FunctionCall { name, args } => {
            let sym = match symbols.get(name) {
                Some(s) => s,
                None => {
                    let mut m = string_of("undeclared function '");
                    push_string(&mut m, &name.1);
                    push_str(&mut m, "'");
                    report_string(diagnostics, span, m);
                    proof { lemma_appended_extended(*old(diagnostics), *diagnostics, 1); }
                    return None;
                },
            };
            match &sym.ty {
                Type::Function(f) => {
                    if f.parameters.len() != args.len() {
                        let mut m = string_of("wrong number of arguments: expected ");
                        push_decimal(&mut m, f.parameters.len() as u64);
                        push_str(&mut m, ", found ");
                        push_decimal(&mut m, args.len() as u64);
                        report_string(diagnostics, span, m);
                        proof { lemma_appended_extended(*old(diagnostics), *diagnostics, 1); }
                        return None;
                    }
                    let ghost orig = *args;
                    let n = args.len();
                    let mut k: usize = 0;
                    proof { lemma_function_view(*f); }
                    while k < n
                        invariant
                            symbols@.dom().contains(old(expr).kind->FunctionCall_name@),
                            symbols@[old(expr).kind->FunctionCall_name@].ty@ == (**f)@,
                            n == args@.len(),
                            n == orig@.len(),
                            n == f.parameters@.len(),
                            k <= n,
                            old(expr).kind is FunctionCall,
                            orig == old(expr).kind->FunctionCall_args,
                            forall|j: int| k <= j < n ==> args@[j] == orig@[j],
                            forall|j: int| 0 <= j < k ==> well_typed(#[trigger] args@[j]),
                            forall|j: int| 0 <= j < k ==> operand_checked(#[trigger] orig@[j], args@[j], symbols@)
                                && args@[j].ty@ == f.parameters@[j]@,
                            extended(*old(diagnostics), *diagnostics),
                            diagnostics.vec@.len() >= old(diagnostics).vec@.len(),
                            diagnostics.vec@ == old(diagnostics).vec@,
                            call_args(*old(expr)) == orig@,
                            args_error(*old(expr), 0, table_view(symbols@)) == args_error(*old(expr), k as int, table_view(symbols@)),
                        decreases n - k,
                    {
                        proof {
                            vstd::std_specs::vec::axiom_vec_index_decreases(orig, k as int);
                            assert(decreases_to!(*old(expr) => orig@[k as int]));
                        }
                        let ghost before = args@;
                        let ghost d_before = *diagnostics;
                        let checked = check_expression(&mut args[k], symbols, diagnostics);
                        proof {
                            assert(args_error(*old(expr), k as int, table_view(symbols@)) == first_error(
                                check_error(orig@[k as int], table_view(symbols@)), args_error(*old(expr), k + 1, table_view(symbols@))));
                        }
                        if checked.is_none() {
                            proof {
                                assert(check_error(*old(expr), table_view(symbols@)) == args_error(*old(expr), 0, table_view(symbols@)));
                            }
                            return None;
                        }
                        let ghost a1 = args@[k as int];
                        convert_to(&mut args[k], clone_type(&f.parameters[k]));
                        proof {
                            lemma_converted_checked(orig@[k as int], a1, args@[k as int], f.parameters@[k as int]@, symbols@);
                            assert forall|j: int| 0 <= j < k implies args@[j] == before[j] by {}
                        }
                        k = k + 1;
                    }
                    proof {
                        assert(args_error(*old(expr), n as int, table_view(symbols@)) is None);
                    }
                    expr.ty = clone_type(&f.return_type);
                },
                _ => {
                    let mut m = string_of("variable '");
                    push_string(&mut m, &name.1);
                    push_str(&mut m, "' used as a function");
                    report_string(diagnostics, span, m);
                    proof { lemma_appended_extended(*old(diagnostics), *diagnostics, 1); }
                    return None;
                },
            }
        },
    }
    Some(())
}

/// Whether a local variable's initializer, for an automatic variable, is well
/// typed and has the variable's type.
pub open spec fn local_typed(v: VariableDeclaration) -> bool {
    v.storage_class == StorageClass::Unspecified ==> (v.init matches Some(e) ==> well_typed(e) && e.ty@ == v.ty@)
}

/// Whether every expression of a statement is well typed, and every returned
/// expression has the type `ret`.
pub open spec fn stmt_typed(s: Statement, ret: TypeView) -> bool
    decreases s,
{
    match s.kind {
        StmtKind::Return(e) => well_typed(e) && e.ty@ == ret,
        StmtKind::Expression(e) => well_typed(e),
        StmtKind::If { cond, then, else_ } => {
            &&& well_typed(cond)
            &&& stmt_typed(*then, ret)
            &&& match else_ {
                Some(e) => stmt_typed(*e, ret),
                None => true,
            }
        },
        StmtKind::While { cond, body, .. } => well_typed(cond) && stmt_typed(*body, ret),
        StmtKind::DoWhile { cond, body, .. } => well_typed(cond) && stmt_typed(*body, ret),
        StmtKind::For { init, condition, post, body, .. } => {
            &&& match init {
                ForInit::Decl(v) => local_typed(v),
                ForInit::Expr(e) => well_typed(e),
                ForInit::Empty => true,
            }
            &&& (condition matches Some(c) ==> well_typed(c))
            &&& (post matches Some(p) ==> well_typed(p))
            &&& stmt_typed(*body, ret)
        },
        StmtKind::Switch(sw) => well_typed(sw.value) && stmt_typed(*sw.body, ret),
        StmtKind::Compound(items) => items_typed(items@, ret),
        StmtKind::Label(_, st) => stmt_typed(*st, ret),
        StmtKind::Case { stmt, .. } => stmt_typed(*stmt, ret),
        StmtKind::DefaultCase { stmt, .. } => stmt_typed(*stmt, ret),
        _ => true,
    }
}

pub open spec fn items_typed(items: Seq<BlockItem>, ret: TypeView) -> bool
    decreases items,
{
    if items.len() == 0 {
        true
    } else {
        &&& items_typed(items.drop_last(), ret)
        &&& match items.last() {
            BlockItem::Stmt(s) => stmt_typed(s, ret),
            BlockItem::Decl(Declaration::Var(v)) => local_typed(v),
            BlockItem::Decl(Declaration::Func(f)) => function_typed(f),
        }
    }
}

/// Whether a function's body, if any, is well typed against its return type.
pub open spec fn function_typed(f: FunctionDeclaration) -> bool
    decreases f,
{
    match f.body {
        Some(b) => items_typed(b@, f.return_type@),
        None => true,
    }
}

/// Whether `n` is expression `o` checked against the symbol table in force
/// where it stands.
pub open spec fn expr_checked_in_scope(o: Expression, n: Expression) -> bool {
    exists|m: Map<crate::table::Key, Symbol>| #[trigger] expr_checked(o, n, m)
}

/// Whether `n` is operand `o` checked against the symbol table in force
/// where it stands, and converted to the type its context needs.
pub open spec fn operand_checked_in_scope(o: Expression, n: Expression) -> bool {
    exists|m: Map<crate::table::Key, Symbol>| #[trigger] operand_checked(o, n, m)
}

/// An optional expression, checked.
pub open spec fn opt_checked(o: Option<Expression>, n: Option<Expression>) -> bool {
    match (o, n) {
        (None, None) => true,
        (Some(a), Some(b)) => expr_checked_in_scope(a, b),
        _ => false,
    }
}

/// Whether `n` is local variable declaration `o` as the checker leaves it:
/// only the initializer of an automatic variable changes, checked and
/// converted to the variable's type.
pub open spec fn local_checked(o: VariableDeclaration, n: VariableDeclaration) -> bool {
    &&& n.name == o.name
    &&& n.ty@ == o.ty@
    &&& n.storage_class == o.storage_class
    &&& n.span == o.span
    &&& if o.storage_class == StorageClass::Unspecified {
        match (o.init, n.init) {
            (None, None) => true,
            (Some(a), Some(b)) => operand_checked_in_scope(a, b) && b.ty@ == o.ty@,
            _ => false,
        }
    } else {
        n.init == o.init
    }
}

/// Whether `n` is statement `o` as the checker leaves it: the same statement
/// with each expression checked, and each returned expression converted to
/// the function's return type.
pub open spec fn stmt_checked(o: Statement, n: Statement) -> bool
    decreases o,
{
    &&& n.span == o.span
    &&& match (o.kind, n.kind) {
        (StmtKind::Return(a), StmtKind::Return(b)) => operand_checked_in_scope(a, b),
        (StmtKind::Expression(a), StmtKind::Expression(b)) => expr_checked_in_scope(a, b),
        (StmtKind::If { cond: c1, then: t1, else_: e1 }, StmtKind::If { cond: c2, then: t2, else_: e2 }) => {
            &&& expr_checked_in_scope(c1, c2)
            &&& stmt_checked(*t1, *t2)
            &&& match (e1, e2) {
                (None, None) => true,
                (Some(x), Some(y)) => stmt_checked(*x, *y),
                _ => false,
            }
        },
        (StmtKind::Null, StmtKind::Null) => true,
        (StmtKind::Goto(a), StmtKind::Goto(b)) => b == a,
        (StmtKind::Break(a), StmtKind::Break(b)) => b == a,
        (StmtKind::Continue(a), StmtKind::Continue(b)) => b == a,
        (StmtKind::Label(a, s), StmtKind::Label(b, t)) => b == a && stmt_checked(*s, *t),
        (StmtKind::Compound(x), StmtKind::Compound(y)) => items_checked(x@, y@),
        (StmtKind::While { cond: c1, body: b1, label: l1 }, StmtKind::While { cond: c2, body: b2, label: l2 }) =>
            l2 == l1 && expr_checked_in_scope(c1, c2) && stmt_checked(*b1, *b2),
        (StmtKind::DoWhile { body: b1, cond: c1, label: l1 }, StmtKind::DoWhile { body: b2, cond: c2, label: l2 }) =>
            l2 == l1 && expr_checked_in_scope(c1, c2) && stmt_checked(*b1, *b2),
        (
            StmtKind::For { init: i1, condition: c1, post: p1, body: b1, label: l1 },
            StmtKind::For { init: i2, condition: c2, post: p2, body: b2, label: l2 },
        ) => {
            &&& l2 == l1
            &&& match (i1, i2) {
                (ForInit::Decl(v), ForInit::Decl(w)) => local_checked(v, w),
                (ForInit::Expr(a), ForInit::Expr(b)) => expr_checked_in_scope(a, b),
                (ForInit::Empty, ForInit::Empty) => true,
                _ => false,
            }
            &&& opt_checked(c1, c2)
            &&& opt_checked(p1, p2)
            &&& stmt_checked(*b1, *b2)
        },
        (StmtKind::Switch(s1), StmtKind::Switch(s2)) => {
            &&& s2.label == s1.label
            &&& s2.case_set == s1.case_set
            &&& s2.cases == s1.cases
            &&& s2.default_case == s1.default_case
            &&& expr_checked_in_scope(s1.value, s2.value)
            &&& stmt_checked(*s1.body, *s2.body)
        },
        (
            StmtKind::Case { value: v1, label: l1, header_span: h1, stmt: s1 },
            StmtKind::Case { value: v2, label: l2, header_span: h2, stmt: s2 },
        ) => v2 == v1 && l2 == l1 && h2 == h1 && stmt_checked(*s1, *s2),
        (
            StmtKind::DefaultCase { label: l1, header_span: h1, stmt: s1 },
            StmtKind::DefaultCase { label: l2, header_span: h2, stmt: s2 },
        ) => l2 == l1 && h2 == h1 && stmt_checked(*s1, *s2),
        _ => false,
    }
}

/// Block items, each checked.
pub open spec fn items_checked(o: Seq<BlockItem>, n: Seq<BlockItem>) -> bool
    decreases o,
{
    &&& n.len() == o.len()
    &&& o.len() > 0 ==> {
        &&& items_checked(o.drop_last(), n.drop_last())
        &&& match (o.last(), n.last()) {
            (BlockItem::Stmt(s), BlockItem::Stmt(t)) => stmt_checked(s, t),
            (BlockItem::Decl(Declaration::Var(v)), BlockItem::Decl(Declaration::Var(w))) => local_checked(v, w),
            (BlockItem::Decl(Declaration::Func(f)), BlockItem::Decl(Declaration::Func(g))) => function_checked(f, g),
            _ => false,
        }
    }
}

/// Whether `n` is function declaration `o` with its body, if any, checked.
pub open spec fn function_checked(o: FunctionDeclaration, n: FunctionDeclaration) -> bool
    decreases o,
{
    &&& n.name == o.name
    &&& n.params == o.params
    &&& n.return_type == o.return_type
    &&& n.storage_class == o.storage_class
    &&& n.span == o.span
    &&& n.name_span == o.name_span
    &&& match (o.body, n.body) {
        (None, None) => true,
        (Some(a), Some(b)) => items_checked(a@, b@),
        _ => false,
    }
}

/// Whether `n` is file-scope declaration `o` as the checker leaves it: a
/// variable declaration unchanged, a function with its body checked.
pub open spec fn decl_checked(o: Declaration, n: Declaration) -> bool {
    match (o, n) {
        (Declaration::Var(a), Declaration::Var(b)) => b == a,
        (Declaration::Func(f), Declaration::Func(g)) => function_checked(f, g),
        _ => false,
    }
}

/// Whether nothing was reported between two states of the diagnostics.
pub open spec fn quiet(old: Diagnostics, new: Diagnostics) -> bool {
    new.vec@.len() == old.vec@.len()
}

/// The kind of static initializer for a variable type (`long` stands for
/// any type that is not `int`).
pub open spec fn static_int_type(t: TypeView) -> StaticIntType {
    match t {
        TypeView::Int => StaticIntType::Int,
        _ => StaticIntType::Long,
    }
}

fn static_int_type_exec(t: &Type) -> (r: StaticIntType)
    ensures
        r == static_int_type(t@),
{
    match t {
        Type::Int => StaticIntType::Int,
        _ => StaticIntType::Long,
    }
}

/// The value of an initializer when it is a constant expression whose
/// evaluation is defined.
pub open spec fn init_value(e: Expression) -> Option<Constant> {
    match spec_to_constant(e) {
        Some(c) => if const_defined(c) { Some(const_value(c)) } else { None },
        None => None,
    }
}

/// What the table records for a name, if anything.
pub open spec fn previous(symbols: Symbols, name: Identifier) -> Option<SymbolView> {
    previous_in(table_view(symbols@), name)
}

/// What a table of values records for a name, if anything.
pub open spec fn previous_in(m: Map<crate::table::Key, SymbolView>, name: Identifier) -> Option<SymbolView> {
    if m.dom().contains(name@) { Some(m[name@]) } else { None }
}

fn check_local_variable(decl: &mut VariableDeclaration, symbols: &mut Symbols, diagnostics: &mut Diagnostics)
    ensures
        extended(*old(diagnostics), *final(diagnostics)),
        quiet(*old(diagnostics), *final(diagnostics)) ==> local_typed(*final(decl)),
        quiet(*old(diagnostics), *final(diagnostics)) ==> local_checked(*old(decl), *final(decl)),
        final(decl).name == old(decl).name,
        final(decl).ty@ == old(decl).ty@,
        final(decl).storage_class == old(decl).storage_class,
        old(decl).storage_class == StorageClass::Unspecified ==> final(symbols)@ == old(symbols)@.insert(
            old(decl).name@, final(symbols)@[old(decl).name@]) && final(symbols)@[old(decl).name@].attributes
            == IdentifierAttributes::Local && final(symbols)@[old(decl).name@].ty@ == old(decl).ty@,
        table_view(final(symbols)@) == local_effect(*old(decl), table_view(old(symbols)@)).0,
        appended_errors(*old(diagnostics), *final(diagnostics), local_effect(*old(decl), table_view(old(symbols)@)).1),
{
    proof {
        lemma_extended_refl(*diagnostics);
        lemma_errors_none(*diagnostics);
    }
    let span = decl.span.start..decl.span.end;
    if decl.storage_class.is_extern() {
        if decl.init.is_some() {
            report(diagnostics, span, "initializer on local extern variable declaration");
            proof { lemma_appended_extended(*old(diagnostics), *diagnostics, 1); }
        }
        let ghost e0: Errors = if decl.init is Some {
            seq![(decl.span, "initializer on local extern variable declaration"@)]
        } else {
            seq![]
        };
        let ghost d0 = *diagnostics;
        let known = match symbols.get(&decl.name) {
            Some(old_decl) => {
                if !same_type(&old_decl.ty, &decl.ty) {
                    report(diagnostics, decl.span.start..decl.span.end, "redeclaration with a different type");
                    proof {
                        lemma_appended_extended(d0, *diagnostics, 1);
                        lemma_errors_trans(*old(diagnostics), d0, *diagnostics, e0,
                            seq![(decl.span, "redeclaration with a different type"@)]);
                    }
                } else {
                    proof {
                        lemma_errors_none(d0);
                        lemma_errors_trans(*old(diagnostics), d0, d0, e0, seq![]);
                    }
                }
                true
            },
            None => false,
        };
        if !known {
            let ty = clone_type(&decl.ty);
            symbols.insert(
                decl.name.clone(),
                Symbol { attributes: IdentifierAttributes::Static { init: InitialValue::NoInitializer, global: true }, ty },
            );
        }
    } else if decl.storage_class.is_static() {
        let initial_value;
        let value = match &decl.init {
            Some(init) => init.try_eval(),
            None => None,
        };
        match value {
            Some(constant) => {
                let static_int = StaticInit::from_constant(&constant).unwrap();
                initial_value = InitialValue::Constant(static_int.cast(static_int_type_exec(&decl.ty)));
            },
            None => {
                if decl.init.is_none() {
                    initial_value = InitialValue::Tentitive;
                } else {
                    report(diagnostics, span, "initializer is not a constant integer");
                    proof { lemma_appended_extended(*old(diagnostics), *diagnostics, 1); }
                    return;
                }
            },
        }
        let ty = clone_type(&decl.ty);
        symbols.insert(
            decl.name.clone(),
            Symbol { attributes: IdentifierAttributes::Static { init: initial_value, global: false }, ty },
        );
    } else {
        let ty = clone_type(&decl.ty);
        symbols.insert(decl.name.clone(), Symbol { attributes: IdentifierAttributes::Local, ty });
        let target = clone_type(&decl.ty);
        match &mut decl.init {
            Some(init) => {
                let ghost o = *init;
                let checked = check_expression(init, symbols, diagnostics);
                proof {
                    lemma_expression_errors(*old(diagnostics), *diagnostics, o, table_view(symbols@));
                }
                let ghost mid = *init;
                convert_to(init, target);
                proof {
                    if checked is Some {
                        lemma_converted_checked(o, mid, *init, old(decl).ty@, symbols@);
                    }
                }
            },
            None => {},
        }
    }
}

/// What checking an expression appends: its error, if it has one.
proof fn lemma_expression_errors(a: Diagnostics, b: Diagnostics, e: Expression, m: Map<crate::table::Key, SymbolView>)
    requires
        check_error(e, m) is None ==> b.vec@ == a.vec@,
        check_error(e, m) is Some ==> appended(a, b, 1)
            && b.vec@.last().span == check_error(e, m)->Some_0.0
            && b.vec@.last().message@ == check_error(e, m)->Some_0.1,
    ensures
        appended_errors(a, b, expr_errors(e, m)),
{
    if check_error(e, m) is Some {
        assert(b.vec@[a.vec@.len() as int + 0] == b.vec@.last());
    } else {
        assert(a.vec@.is_prefix_of(b.vec@));
    }
}

/// Checks an expression that stands in a statement.
fn check_in_statement(expr: &mut Expression, symbols: &Symbols, diagnostics: &mut Diagnostics)
    ensures
        extended(*old(diagnostics), *final(diagnostics)),
        quiet(*old(diagnostics), *final(diagnostics)) ==> well_typed(*final(expr)),
        quiet(*old(diagnostics), *final(diagnostics)) ==> expr_checked_in_scope(*old(expr), *final(expr)),
        appended_errors(*old(diagnostics), *final(diagnostics), expr_errors(*old(expr), table_view(symbols@))),
{
    let checked = check_expression(expr, symbols, diagnostics);
    proof {
        if checked is Some {
            assert(expr_checked(*old(expr), *expr, symbols@));
        }
        lemma_expression_errors(*old(diagnostics), *diagnostics, *old(expr), table_view(symbols@));
    }
}

/// Checks a returned expression and converts it to the return type.
fn check_returned(expr: &mut Expression, symbols: &Symbols, diagnostics: &mut Diagnostics, ret: &Type)
    ensures
        extended(*old(diagnostics), *final(diagnostics)),
        quiet(*old(diagnostics), *final(diagnostics)) ==> well_typed(*final(expr)) && final(expr).ty@ == ret@,
        quiet(*old(diagnostics), *final(diagnostics)) ==> operand_checked_in_scope(*old(expr), *final(expr)),
        quiet(*old(diagnostics), *final(diagnostics)) ==> operand_checked(*old(expr), *final(expr), symbols@),
        appended_errors(*old(diagnostics), *final(diagnostics), expr_errors(*old(expr), table_view(symbols@))),
{
    let checked = check_expression(expr, symbols, diagnostics);
    proof {
        lemma_expression_errors(*old(diagnostics), *diagnostics, *old(expr), table_view(symbols@));
    }
    let ghost mid = *expr;
    convert_to(expr, clone_type(ret));
    proof {
        if checked is Some {
            lemma_converted_checked(*old(expr), mid, *expr, ret@, symbols@);
            assert(operand_checked(*old(expr), *expr, symbols@));
        }
    }
}

#[verifier::spinoff_prover]
#[verifier::rlimit(60)]
fn check_statement(stmt: &mut Statement, symbols: &mut Symbols, diagnostics: &mut Diagnostics, ret: &Type)
    ensures
        extended(*old(diagnostics), *final(diagnostics)),
        quiet(*old(diagnostics), *final(diagnostics)) ==> stmt_typed(*final(stmt), ret@),
        quiet(*old(diagnostics), *final(diagnostics)) ==> stmt_checked(*old(stmt), *final(stmt)),
        table_view(final(symbols)@) == stmt_effect(*old(stmt), table_view(old(symbols)@)).0,
        quiet(*old(diagnostics), *final(diagnostics)) ==> (old(stmt).kind matches StmtKind::Return(e)
            ==> final(stmt).kind matches StmtKind::Return(f) && operand_checked(e, f, old(symbols)@) && f.ty@ == ret@),
        appended_errors(*old(diagnostics), *final(diagnostics), stmt_effect(*old(stmt), table_view(old(symbols)@)).1),
    decreases *old(stmt),
{
    proof { lemma_extended_refl(*diagnostics); }
    let ghost d0 = *diagnostics;
    let ghost m0 = table_view(symbols@);
    match &mut stmt.kind {
        StmtKind::Compound(items) => {
            check_block(items, symbols, diagnostics, ret);
        },
        StmtKind::Switch(sw) => {
            let ghost v = sw.value;
            check_in_statement(&mut sw.value, symbols, diagnostics);
            let ghost d1 = *diagnostics;
            let ghost b = *sw.body;
            check_statement(&mut sw.body, symbols, diagnostics, ret);
            proof { lemma_errors_trans(d0, d1, *diagnostics, expr_errors(v, m0), stmt_effect(b, m0).1); }
        },
        StmtKind::If { cond, then, else_ } => {
            let ghost c = *cond;
            check_in_statement(cond, symbols, diagnostics);
            let ghost d1 = *diagnostics;
            let ghost t = **then;
            check_statement(then, symbols, diagnostics, ret);
            let ghost d2 = *diagnostics;
            let ghost m2 = table_view(symbols@);
            proof { lemma_errors_trans(d0, d1, d2, expr_errors(c, m0), stmt_effect(t, m0).1); }
            match else_ {
                Some(e) => {
                    let ghost x = **e;
                    check_statement(e, symbols, diagnostics, ret);
                    proof {
                        lemma_errors_trans(d0, d2, *diagnostics, expr_errors(c, m0) + stmt_effect(t, m0).1, stmt_effect(x, m2).1);
                    }
                },
                None => {},
            }
        },
        StmtKind::While { cond, body, .. } => {
            let ghost c = *cond;
            check_in_statement(cond, symbols, diagnostics);
            let ghost d1 = *diagnostics;
            let ghost b = **body;
            check_statement(body, symbols, diagnostics, ret);
            proof { lemma_errors_trans(d0, d1, *diagnostics, expr_errors(c, m0), stmt_effect(b, m0).1); }
        },
        StmtKind::DoWhile { body, cond, .. } => {
            let ghost c = *cond;
            check_in_statement(cond, symbols, diagnostics);
            let ghost d1 = *diagnostics;
            let ghost b = **body;
            check_statement(body, symbols, diagnostics, ret);
            proof { lemma_errors_trans(d0, d1, *diagnostics, expr_errors(c, m0), stmt_effect(b, m0).1); }
        },
        StmtKind::For { init, condition, post, body, .. } => {
            let ghost oi = *init;
            match init {
                ForInit::Decl(d) => check_local_variable(d, symbols, diagnostics),
                ForInit::Expr(e) => {
                    check_in_statement(e, symbols, diagnostics);
                },
                ForInit::Empty => {
                    proof { lemma_errors_none(*diagnostics); }
                },
            }
            let ghost d1 = *diagnostics;
            let ghost m1 = table_view(symbols@);
            let ghost e1 = match oi {
                ForInit::Decl(v) => local_effect(v, m0).1,
                ForInit::Expr(e) => expr_errors(e, m0),
                ForInit::Empty => Seq::<(Span, Seq<char>)>::empty(),
            };
            let ghost oc = *condition;
            match condition {
                Some(c) => {
                    check_in_statement(c, symbols, diagnostics);
                },
                None => {
                    proof { lemma_errors_none(*diagnostics); }
                },
            }
            let ghost d2 = *diagnostics;
            proof { lemma_errors_trans(d0, d1, d2, e1, opt_errors(oc, m1)); }
            let ghost op = *post;
            match post {
                Some(p) => {
                    check_in_statement(p, symbols, diagnostics);
                },
                None => {
                    proof { lemma_errors_none(*diagnostics); }
                },
            }
            let ghost d3 = *diagnostics;
            proof { lemma_errors_trans(d0, d2, d3, e1 + opt_errors(oc, m1), opt_errors(op, m1)); }
            let ghost b = **body;
            check_statement(body, symbols, diagnostics, ret);
            proof {
                lemma_errors_trans(d0, d3, *diagnostics, e1 + opt_errors(oc, m1) + opt_errors(op, m1), stmt_effect(b, m1).1);
            }
        },
        StmtKind::Expression(e) => {
            check_in_statement(e, symbols, diagnostics);
        },
        StmtKind::Return(e) => {
            check_returned(e, symbols, diagnostics, ret);
        },
        StmtKind::Label(_, s) => check_statement(s, symbols, diagnostics, ret),
        StmtKind::Case { stmt: s, .. } => check_statement(s, symbols, diagnostics, ret),
        StmtKind::DefaultCase { stmt: s, .. } => check_statement(s, symbols, diagnostics, ret),
        _ => {
            proof { lemma_errors_none(*diagnostics); }
        },
    }
}

fn check_block(items: &mut Vec<BlockItem>, symbols: &mut Symbols, diagnostics: &mut Diagnostics, ret: &Type)
    ensures
        extended(*old(diagnostics), *final(diagnostics)),
        quiet(*old(diagnostics), *final(diagnostics)) ==> items_typed(final(items)@, ret@),
        quiet(*old(diagnostics), *final(diagnostics)) ==> items_checked(old(items)@, final(items)@),
        table_view(final(symbols)@) == items_effect(old(items)@, table_view(old(symbols)@)).0,
        appended_errors(*old(diagnostics), *final(diagnostics), items_effect(old(items)@, table_view(old(symbols)@)).1),
    decreases *old(items),
{
    proof { lemma_extended_refl(*diagnostics); }
    let ghost orig = items@;
    let n = items.len();
    let mut k: usize = 0;
    while k < n
        invariant
            n == items@.len(),
            orig == old(items)@,
            orig.len() == n,
            k <= n,
            forall|j: int| k <= j < n ==> items@[j] == orig[j],
            extended(*old(diagnostics), *diagnostics),
            quiet(*old(diagnostics), *diagnostics) ==> items_typed(items@.take(k as int), ret@),
            quiet(*old(diagnostics), *diagnostics) ==> items_checked(orig.take(k as int), items@.take(k as int)),
            table_view(symbols@) == items_effect(orig.take(k as int), table_view(old(symbols)@)).0,
            appended_errors(*old(diagnostics), *diagnostics, items_effect(orig.take(k as int), table_view(old(symbols)@)).1),
        decreases n - k,
    {
        let ghost prev = items@;
        let ghost d0 = *diagnostics;
        let ghost t0 = table_view(symbols@);
        proof {
            vstd::std_specs::vec::axiom_vec_index_decreases(*old(items), k as int);
        }
        match &mut items[k] {
            BlockItem::Stmt(s) => check_statement(s, symbols, diagnostics, ret),
            BlockItem::Decl(Declaration::Var(v)) => check_local_variable(v, symbols, diagnostics),
            BlockItem::Decl(Declaration::Func(f)) => {
                check_function_declaration(f, symbols, diagnostics);
            },
        }
        proof {
            assert(items@.take(k + 1).drop_last() =~= items@.take(k as int));
            assert(items@.take(k as int) =~= prev.take(k as int));
            assert(orig.take(k + 1).drop_last() =~= orig.take(k as int));
            assert(orig.take(k + 1).last() == orig[k as int]);
            assert(items@.take(k + 1).last() == items@[k as int]);
            let q = match orig[k as int] {
                BlockItem::Stmt(st) => stmt_effect(st, t0),
                BlockItem::Decl(Declaration::Var(v)) => local_effect(v, t0),
                BlockItem::Decl(Declaration::Func(f)) => func_effect(f, t0),
            };
            lemma_errors_trans(*old(diagnostics), d0, *diagnostics,
                items_effect(orig.take(k as int), table_view(old(symbols)@)).1, q.1);
        }
        k = k + 1;
    }
    proof {
        assert(items@.take(n as int) =~= items@);
        assert(orig.take(n as int) =~= orig);
    }
}

/// The types of a parameter list.
pub open spec fn parameter_types(decl: FunctionDeclaration) -> Seq<TypeView> {
    Seq::new(decl.params@.len(), |i: int| decl.params@[i].ty@)
}

/// Whether a function ends up defined: it has a body now or had one before.
pub open spec fn function_defined(prev: Option<SymbolView>, has_body: bool) -> bool {
    match prev {
        Some(s) => match s.1 {
            TypeView::Function { defined, .. } => defined || has_body,
            _ => has_body,
        },
        None => has_body,
    }
}

/// Whether a function has external linkage: as its earlier declaration says,
/// or, for a first declaration, unless it is `static`.
pub open spec fn function_global(prev: Option<SymbolView>, is_static: bool) -> bool {
    match prev {
        Some(s) => if s.1 is Function { spec_global(s.0) } else { !is_static },
        None => !is_static,
    }
}

/// The errors by which a function declaration of `name` at `span`
/// conflicts with an earlier declaration: parameter lists that differ, a
/// second definition, `static` after external linkage; or an earlier
/// variable of the name.
pub open spec fn function_conflicts(prev: Option<SymbolView>, params: Seq<TypeView>, has_body: bool, is_static: bool,
    name: Identifier, span: Span) -> Errors {
    match prev {
        Some(s) => match s.1 {
            TypeView::Function { parameters, defined, .. } => {
                (if parameters != params {
                    seq![(span, "incompatible function declarations: '"@
                        + crate::analysis::typechecking::type_text_of_arity(parameters.len())
                        + "' vs '"@ + crate::analysis::typechecking::type_text_of_arity(params.len()) + "'"@)]
                } else {
                    seq![]
                }) + (if defined && has_body {
                    seq![(span, "redefinition of function '"@ + name.1@ + "'"@)]
                } else {
                    seq![]
                }) + (if spec_global(s.0) && is_static {
                    seq![(span, "static declaration of '"@ + name.1@ + "' follows non-static declaration"@)]
                } else {
                    seq![]
                })
            },
            _ => seq![(span, "'"@ + name.1@ + "' redeclared as a function but was previously declared as a variable"@)],
        },
        None => seq![],
    }
}

fn function_type_text(n: usize) -> (s: String)
    ensures
        s@ == crate::analysis::typechecking::type_text_of_arity(n as nat),
{
    crate::analysis::typechecking::arity_text(n)
}

/// Records a function declaration in the table, reporting conflicts with an
/// earlier declaration of the name.
fn declare_function(decl: &FunctionDeclaration, symbols: &mut Symbols, diagnostics: &mut Diagnostics)
    ensures
        ({
            let prev = previous(*old(symbols), decl.name);
            let has_body = decl.body is Some;
            let is_static = decl.storage_class == StorageClass::Static;
            let defined = function_defined(prev, has_body);
            &&& final(symbols)@ == old(symbols)@.insert(decl.name@, final(symbols)@[decl.name@])
            &&& final(symbols)@[decl.name@].attributes == (IdentifierAttributes::Function {
                defined,
                global: function_global(prev, is_static),
            })
            &&& final(symbols)@[decl.name@].ty@ == (TypeView::Function {
                parameters: parameter_types(*decl),
                defined,
                return_type: Box::new(decl.return_type@),
            })
            &&& appended_errors(*old(diagnostics), *final(diagnostics),
                function_conflicts(prev, parameter_types(*decl), has_body, is_static, decl.name, decl.span))
        }),
{
    let has_body = decl.body.is_some();
    let mut parameters: Vec<Type> = Vec::new();
    let mut i: usize = 0;
    while i < decl.params.len()
        invariant
            i <= decl.params@.len(),
            parameters@.len() == i,
            forall|k: int| 0 <= k < i ==> (#[trigger] parameters@[k])@ == decl.params@[k].ty@,
        decreases decl.params@.len() - i,
    {
        parameters.push(clone_type(&decl.params[i].ty));
        i = i + 1;
    }
    let mut defined = has_body;
    let is_static = decl.storage_class.is_static();
    let mut is_global = !is_static;
    let span = decl.span.start..decl.span.end;
    proof {
        lemma_appended_refl_local(*diagnostics);
        assert(crate::analysis::typechecking::types_view(parameters@) =~= parameter_types(*decl));
    }
    match symbols.get(&decl.name) {
        Some(old_decl) => match &old_decl.ty {
            Type::Function(old) => {
                defined = old.defined || has_body;
                let ghost d0 = *diagnostics;
                let ghost mut n0: Errors = seq![];
                if !same_types(&old.parameters, &parameters) {
                    let mut m = string_of("incompatible function declarations: '");
                    push_string(&mut m, &function_type_text(old.parameters.len()));
                    push_str(&mut m, "' vs '");
                    push_string(&mut m, &function_type_text(parameters.len()));
                    push_str(&mut m, "'");
                    report_string(diagnostics, decl.span.start..decl.span.end, m);
                    proof { n0 = seq![(decl.span, m@)]; }
                }
                let ghost d1 = *diagnostics;
                let ghost mut n1: Errors = seq![];
                if old.defined && has_body {
                    let mut m = string_of("redefinition of function '");
                    push_string(&mut m, &decl.name.1);
                    push_str(&mut m, "'");
                    report_string(diagnostics, decl.span.start..decl.span.end, m);
                    proof { n1 = seq![(decl.span, m@)]; }
                }
                let ghost d2 = *diagnostics;
                let ghost mut n2: Errors = seq![];
                if old_decl.attributes.global() && is_static {
                    let mut m = string_of("static declaration of '");
                    push_string(&mut m, &decl.name.1);
                    push_str(&mut m, "' follows non-static declaration");
                    report_string(diagnostics, decl.span.start..decl.span.end, m);
                    proof { n2 = seq![(decl.span, m@)]; }
                }
                proof {
                    if n0.len() == 0 { lemma_errors_none(d0); }
                    if n1.len() == 0 { lemma_errors_none(d1); }
                    if n2.len() == 0 { lemma_errors_none(d2); }
                    lemma_errors_trans(d0, d1, d2, n0, n1);
                    lemma_errors_trans(d0, d2, *diagnostics, n0 + n1, n2);
                    crate::analysis::typechecking::lemma_function_view(*old);
                }
                is_global = old_decl.attributes.global();
            },
            _ => {
                let mut m = string_of("'");
                push_string(&mut m, &decl.name.1);
                push_str(&mut m, "' redeclared as a function but was previously declared as a variable");
                report_string(diagnostics, span, m);
            },
        },
        None => {},
    }
    let return_type = clone_type(&decl.return_type);
    let new = FunctionType { parameters, return_type, defined };
    proof {
        crate::analysis::typechecking::lemma_function_view(Box::new(new));
    }
    symbols.insert(
        decl.name.clone(),
        Symbol { attributes: IdentifierAttributes::Function { defined, global: is_global }, ty: Type::Function(Box::new(new)) },
    );
}

proof fn lemma_appended_refl_local(d: Diagnostics)
    ensures
        appended(d, d, 0),
{
}

/// Type-checks a function declaration: records it, then checks its body with
/// its parameters recorded as locals.
fn check_function_declaration(decl: &mut FunctionDeclaration, symbols: &mut Symbols, diagnostics: &mut Diagnostics)
    ensures
        extended(*old(diagnostics), *final(diagnostics)),
        quiet(*old(diagnostics), *final(diagnostics)) ==> function_typed(*final(decl)),
        quiet(*old(diagnostics), *final(diagnostics)) ==> function_checked(*old(decl), *final(decl)),
        table_view(final(symbols)@) == func_effect(*old(decl), table_view(old(symbols)@)).0,
        appended_errors(*old(diagnostics), *final(diagnostics), func_effect(*old(decl), table_view(old(symbols)@)).1),
        final(decl).name == old(decl).name,
        final(decl).params == old(decl).params,
        final(decl).return_type == old(decl).return_type,
        final(decl).storage_class == old(decl).storage_class,
        final(decl).body is Some <==> old(decl).body is Some,
    decreases *old(decl),
{
    declare_function(decl, symbols, diagnostics);
    let ghost conflicts = function_conflicts(previous(*old(symbols), decl.name), parameter_types(*decl), decl.body is Some,
        decl.storage_class == StorageClass::Static, decl.name, decl.span);
    let ghost d1 = *diagnostics;
    let ghost recorded = table_view(symbols@);
    proof {
        lemma_appended_extended(*old(diagnostics), *diagnostics, conflicts.len());
        assert(recorded == table_view(old(symbols)@).insert(decl.name@, (
            IdentifierAttributes::Function {
                defined: function_defined(previous(*old(symbols), decl.name), decl.body is Some),
                global: function_global(previous(*old(symbols), decl.name), decl.storage_class == StorageClass::Static),
            },
            TypeView::Function {
                parameters: parameter_types(*decl),
                defined: function_defined(previous(*old(symbols), decl.name), decl.body is Some),
                return_type: Box::new(decl.return_type@),
            },
        )));
    }
    let ret = clone_type(&decl.return_type);
    match &mut decl.body {
        Some(body) => {
            let mut i: usize = 0;
            while i < decl.params.len()
                invariant
                    i <= decl.params@.len(),
                    table_view(symbols@) == params_recorded(decl.params@.take(i as int), recorded),
                decreases decl.params@.len() - i,
            {
                let ghost before = symbols@;
                let ty = clone_type(&decl.params[i].ty);
                symbols.insert(decl.params[i].name.clone(), Symbol { attributes: IdentifierAttributes::Local, ty });
                proof {
                    lemma_table_view_insert(before, decl.params@[i as int].name@, Symbol { attributes: IdentifierAttributes::Local, ty });
                    assert(decl.params@.take(i + 1).drop_last() =~= decl.params@.take(i as int));
                }
                i = i + 1;
            }
            proof {
                assert(decl.params@.take(decl.params@.len() as int) =~= decl.params@);
            }
            let ghost d2 = *diagnostics;
            check_block(body, symbols, diagnostics, &ret);
            proof {
                lemma_errors_trans(*old(diagnostics), d1, *diagnostics, conflicts,
                    items_effect(old(decl).body.unwrap()@, params_recorded(old(decl).params@, recorded)).1);
            }
        },
        None => {},
    }
}

/// The initial value a file-scope variable declaration gives by itself:
/// its constant initializer converted to its type, nothing for `extern`,
/// a tentative definition otherwise.
pub open spec fn own_initial_value(decl: VariableDeclaration) -> InitialValue {
    match decl.init {
        Some(e) => InitialValue::Constant(spec_static_cast(
            spec_static_from_constant(init_value(e).unwrap()),
            static_int_type(decl.ty@),
        )),
        None => if decl.storage_class == StorageClass::Extern {
            InitialValue::NoInitializer
        } else {
            InitialValue::Tentitive
        },
    }
}

/// The initial value recorded for a file-scope variable, given what an
/// earlier declaration recorded.
pub open spec fn merged_initial_value(own: InitialValue, prev: Option<SymbolView>) -> InitialValue {
    match prev {
        Some(s) => match s.0 {
            IdentifierAttributes::Static { init: old_init, .. } => {
                if old_init is Constant {
                    if own is Constant { own } else { old_init }
                } else if !(own is Constant) && old_init is Tentitive {
                    InitialValue::Tentitive
                } else {
                    own
                }
            },
            _ => own,
        },
        None => own,
    }
}

/// Whether a file-scope variable has external linkage.
pub open spec fn variable_global(decl: VariableDeclaration, prev: Option<SymbolView>) -> bool {
    match prev {
        Some(s) => if decl.storage_class == StorageClass::Extern {
            spec_global(s.0)
        } else {
            decl.storage_class != StorageClass::Static
        },
        None => decl.storage_class != StorageClass::Static,
    }
}

/// The text of a type, as messages write it.
pub open spec fn view_text(t: TypeView) -> Seq<char> {
    match t {
        TypeView::Int => "int"@,
        TypeView::Long => "long"@,
        TypeView::Function { parameters, .. } => crate::analysis::typechecking::type_text_of_arity(parameters.len()),
    }
}

/// The errors by which a file-scope variable declaration conflicts with an
/// earlier declaration: an earlier function or another type, another
/// linkage, a second definition.
pub open spec fn variable_conflicts(decl: VariableDeclaration, own: InitialValue, prev: Option<SymbolView>) -> Errors {
    match prev {
        Some(s) => {
            (if s.1 is Function {
                seq![(decl.span, "'"@ + decl.name.1@ + "' redeclared as a variable but was previously a function"@)]
            } else if s.1 != decl.ty@ {
                seq![(decl.span, "conflicting types for '"@ + decl.name.1@ + "': '"@ + view_text(s.1) + "' vs '"@
                    + view_text(decl.ty@) + "'"@)]
            } else {
                seq![]
            })
            + (if decl.storage_class != StorageClass::Extern
                && spec_global(s.0) != (decl.storage_class != StorageClass::Static) {
                seq![(decl.span, "conflicting linkage for variable '"@ + decl.name.1@ + "'"@)]
            } else {
                seq![]
            })
            + (match s.0 {
                IdentifierAttributes::Static { init: old_init, .. } => if old_init is Constant && own is Constant {
                    seq![(decl.span, "conflicting file-scope definitions for '"@ + decl.name.1@ + "'"@)]
                } else {
                    seq![]
                },
                _ => seq![],
            })
        },
        None => seq![],
    }
}

/// Records a file-scope variable declaration. An initializer that is not a
/// constant expression (or whose evaluation would overflow) is reported and
/// nothing is recorded.
fn check_global_variable_declaration(decl: &VariableDeclaration, symbols: &mut Symbols, diagnostics: &mut Diagnostics)
    ensures
        extended(*old(diagnostics), *final(diagnostics)),
        ({
            let prev = previous(*old(symbols), decl.name);
            let own = own_initial_value(*decl);
            if decl.init matches Some(e) && init_value(e) is None {
                &&& final(symbols)@ == old(symbols)@
                &&& appended_errors(*old(diagnostics), *final(diagnostics), seq![(decl.span, "initializer is not a constant int"@)])
            } else {
                &&& final(symbols)@ == old(symbols)@.insert(decl.name@, final(symbols)@[decl.name@])
                &&& final(symbols)@[decl.name@].attributes == (IdentifierAttributes::Static {
                    init: merged_initial_value(own, prev),
                    global: variable_global(*decl, prev),
                })
                &&& final(symbols)@[decl.name@].ty@ == decl.ty@
                &&& appended_errors(*old(diagnostics), *final(diagnostics), variable_conflicts(*decl, own, prev))
            }
        }),
{
    let span = decl.span.start..decl.span.end;
    let mut initial_value;
    match &decl.init {
        Some(init) => match init.try_eval() {
            Some(constant) => {
                let static_int = StaticInit::from_constant(&constant).unwrap();
                initial_value = InitialValue::Constant(static_int.cast(static_int_type_exec(&decl.ty)));
            },
            None => {
                report(diagnostics, span, "initializer is not a constant int");
                proof { lemma_appended_extended(*old(diagnostics), *diagnostics, 1); }
                return;
            },
        },
        None => {
            if decl.storage_class.is_extern() {
                initial_value = InitialValue::NoInitializer;
            } else {
                initial_value = InitialValue::Tentitive;
            }
        },
    }
    let is_extern = decl.storage_class.is_extern();
    let mut is_global = !decl.storage_class.is_static();
    let ghost own = initial_value;
    let ghost d0 = *diagnostics;
    proof { lemma_appended_refl_local(*diagnostics); }
    match symbols.get(&decl.name) {
        Some(old_decl) => {
            let ghost mut n0: Errors = seq![];
            if old_decl.ty.is_function() {
                let mut m = string_of("'");
                push_string(&mut m, &decl.name.1);
                push_str(&mut m, "' redeclared as a variable but was previously a function");
                report_string(diagnostics, decl.span.start..decl.span.end, m);
                proof { n0 = seq![(decl.span, m@)]; }
            } else if !same_type(&old_decl.ty, &decl.ty) {
                let mut m = string_of("conflicting types for '");
                push_string(&mut m, &decl.name.1);
                push_str(&mut m, "': '");
                push_string(&mut m, &old_decl.ty.text());
                push_str(&mut m, "' vs '");
                push_string(&mut m, &decl.ty.text());
                push_str(&mut m, "'");
                report_string(diagnostics, decl.span.start..decl.span.end, m);
                proof { n0 = seq![(decl.span, m@)]; }
            }
            let ghost d1 = *diagnostics;
            let ghost mut n1: Errors = seq![];
            if is_extern {
                is_global = old_decl.attributes.global();
            } else if old_decl.attributes.global() != is_global {
                let mut m = string_of("conflicting linkage for variable '");
                push_string(&mut m, &decl.name.1);
                push_str(&mut m, "'");
                report_string(diagnostics, decl.span.start..decl.span.end, m);
                proof { n1 = seq![(decl.span, m@)]; }
            }
            let ghost d2 = *diagnostics;
            let ghost mut n2: Errors = seq![];
            match old_decl.attributes.initial_value() {
                Some(old_init) => {
                    if old_init.is_constant() {
                        if initial_value.is_constant() {
                            let mut m = string_of("conflicting file-scope definitions for '");
                            push_string(&mut m, &decl.name.1);
                            push_str(&mut m, "'");
                            report_string(diagnostics, decl.span.start..decl.span.end, m);
                            proof { n2 = seq![(decl.span, m@)]; }
                        } else {
                            initial_value = old_init;
                        }
                    } else if !initial_value.is_constant() && old_init.is_tentitive() {
                        initial_value = InitialValue::Tentitive;
                    }
                },
                None => {},
            }
            proof {
                if n0.len() == 0 { lemma_errors_none(d0); }
                if n1.len() == 0 { lemma_errors_none(d1); }
                if n2.len() == 0 { lemma_errors_none(d2); }
                lemma_errors_trans(d0, d1, d2, n0, n1);
                lemma_errors_trans(d0, d2, *diagnostics, n0 + n1, n2);
                lemma_appended_extended(d0, *diagnostics, (n0 + n1 + n2).len());
            }
        },
        None => {
            proof { lemma_extended_refl(d0); }
        },
    }
    let ty = clone_type(&decl.ty);
    symbols.insert(
        decl.name.clone(),
        Symbol { attributes: IdentifierAttributes::Static { init: initial_value, global: is_global }, ty },
    );
}

/// What checking a file-scope declaration does, given table `m`: the table
/// it leaves and the errors it reports. A variable needs a
/// constant initializer, if any, and is merged with an earlier declaration
/// of its name; a function is checked as `func_effect` says.
pub open spec fn decl_effect(d: Declaration, m: Map<crate::table::Key, SymbolView>) -> (Map<crate::table::Key, SymbolView>, Errors) {
    match d {
        Declaration::Var(v) => {
            let prev = previous_in(m, v.name);
            let own = own_initial_value(v);
            if v.init matches Some(e) && init_value(e) is None {
                (m, seq![(v.span, "initializer is not a constant int"@)])
            } else {
                (m.insert(v.name@, (
                    IdentifierAttributes::Static { init: merged_initial_value(own, prev), global: variable_global(v, prev) },
                    v.ty@,
                )), variable_conflicts(v, own, prev))
            }
        },
        Declaration::Func(f) => func_effect(f, m),
    }
}

/// What checking the declarations of a program one after another does.
pub open spec fn decls_effect(ds: Seq<Declaration>, m: Map<crate::table::Key, SymbolView>) -> (Map<crate::table::Key, SymbolView>, Errors)
    decreases ds.len(),
{
    if ds.len() == 0 {
        (m, seq![])
    } else {
        let p = decls_effect(ds.drop_last(), m);
        let q = decl_effect(ds.last(), p.0);
        (q.0, p.1 + q.1)
    }
}

/// Type-checks a program: records every declaration in the symbol table,
/// which it returns, gives every expression its type and inserts the implicit
/// conversions.
pub fn check_all_types(program: &mut Program, diagnostics: &mut Diagnostics) -> (symbols: Symbols)
    ensures
        extended(*old(diagnostics), *final(diagnostics)),
        final(program).0@.len() == old(program).0@.len(),
        quiet(*old(diagnostics), *final(diagnostics)) ==> forall|k: int| 0 <= k < final(program).0@.len() ==>
            (#[trigger] final(program).0@[k] matches Declaration::Func(f) ==> function_typed(f)),
        quiet(*old(diagnostics), *final(diagnostics)) ==> forall|k: int| 0 <= k < old(program).0@.len() ==>
            decl_checked(#[trigger] old(program).0@[k], final(program).0@[k]),
        table_view(symbols@) == decls_effect(old(program).0@, Map::empty()).0,
        appended_errors(*old(diagnostics), *final(diagnostics), decls_effect(old(program).0@, Map::empty()).1),
{
    let mut symbols: Symbols = Table::new();
    let ghost orig = program.0@;
    let n = program.0.len();
    let mut k: usize = 0;
    proof { lemma_extended_refl(*diagnostics); }
    while k < n
        invariant
            n == program.0@.len(),
            k <= n,
            extended(*old(diagnostics), *diagnostics),
            quiet(*old(diagnostics), *diagnostics) ==> forall|j: int| 0 <= j < k ==>
                (#[trigger] program.0@[j] matches Declaration::Func(f) ==> function_typed(f)),
            orig == old(program).0@,
            forall|j: int| k <= j < n ==> #[trigger] program.0@[j] == orig[j],
            quiet(*old(diagnostics), *diagnostics) ==> forall|j: int| 0 <= j < k ==>
                decl_checked(#[trigger] orig[j], program.0@[j]),
            orig.len() == n,
            table_view(symbols@) == decls_effect(orig.take(k as int), Map::empty()).0,
            appended_errors(*old(diagnostics), *diagnostics, decls_effect(orig.take(k as int), Map::empty()).1),
        decreases n - k,
    {
        let ghost before = *diagnostics;
        let ghost prev = program.0@;
        let ghost t0 = table_view(symbols@);
        match &mut program.0[k] {
            Declaration::Var(decl) => {
                check_global_variable_declaration(decl, &mut symbols, diagnostics);
            },
            Declaration::Func(decl) => check_function_declaration(decl, &mut symbols, diagnostics),
        }
        proof {
            assert forall|j: int| 0 <= j < k implies program.0@[j] == prev[j] by {}
            assert(orig.take(k + 1).drop_last() =~= orig.take(k as int));
            assert(orig.take(k + 1).last() == orig[k as int]);
            lemma_errors_trans(*old(diagnostics), before, *diagnostics,
                decls_effect(orig.take(k as int), Map::empty()).1, decl_effect(orig[k as int], t0).1);
        }
        k = k + 1;
    }
    proof {
        assert(orig.take(n as int) =~= orig);
    }
    symbols
}

} // verus!
