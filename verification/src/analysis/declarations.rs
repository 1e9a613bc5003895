//! Name resolution: gives every local variable a unique name, points every
//! use of a name at its declaration, and reports undeclared names, invalid
//! assignment targets and conflicting declarations.
use vstd::prelude::*;
use crate::analysis::reporting::{
    appended, appended_errors, extended, lemma_appended_extended, lemma_errors_none, lemma_errors_trans,
    lemma_extended_refl, lemma_extended_trans, report_string, Errors,
};
use crate::parser::display::expression_text;
use crate::diagnostics::{Diagnostics, Span};
use crate::parser::ast::{
    Block, BlockItem, Declaration, ExprKind, Expression, ForInit, FunctionDeclaration, FunctionParameter, Identifier,
    Program, Statement, StmtKind, StorageClass, VariableDeclaration,
};
use crate::table::Table;
use crate::text::{push_str, push_string, string_of};

verus! {

broadcast use vstd::std_specs::vec::axiom_spec_len, lemma_extended_trans;

/// Where a declaration stands.
#[derive(Clone, Copy, Debug, PartialEq, Eq, Structural)]
pub enum Scope {
    Global,
    Local,
}

impl Scope {
    pub fn is_global(&self) -> (r: bool)
        ensures
            r == (*self == Scope::Global),
    {
        *self == Scope::Global
    }

    pub fn is_local(&self) -> (r: bool)
        ensures
            r == (*self == Scope::Local),
    {
        *self == Scope::Local
    }
}

/// What name resolution knows of a name in scope.
#[derive(Debug)]
pub struct ScopedIdentifier {
    pub resolved_name: Identifier,
    pub from_this_scope: bool,
    pub external_linkage: bool,
    pub defined: bool,
}

impl Clone for ScopedIdentifier {
    fn clone(&self) -> (r: Self)
        ensures
            r == *self,
    {
        ScopedIdentifier {
            resolved_name: self.resolved_name.clone(),
            from_this_scope: self.from_this_scope,
            external_linkage: self.external_linkage,
            defined: self.defined,
        }
    }
}

pub type IdentifierMap = Table<ScopedIdentifier>;

/// Whether every assignment, compound assignment and increment in an
/// expression applies to a variable.
pub open spec fn lvalues_ok(e: Expression) -> bool
    decreases e,
{
    match e.kind {
        ExprKind::Var(_) | ExprKind::Constant(_) => true,
        ExprKind::Cast { expr, .. } => lvalues_ok(*expr),
        ExprKind::Unary { expr, .. } => lvalues_ok(*expr),
        ExprKind::Binary { lhs, rhs, .. } => lvalues_ok(*lhs) && lvalues_ok(*rhs),
        ExprKind::CompoundAssign { lhs, rhs, .. } => lhs.kind is Var && lvalues_ok(*rhs),
        ExprKind::Assignment(l, r) => l.kind is Var && lvalues_ok(*r),
        ExprKind::Prefix(_, inner) => inner.kind is Var,
        ExprKind::Postfix(_, inner) => inner.kind is Var,
        ExprKind::Conditional(c, t, f) => lvalues_ok(*c) && lvalues_ok(*t) && lvalues_ok(*f),
        ExprKind::FunctionCall { args, .. } => forall|k: int| 0 <= k < args@.len() ==> lvalues_ok(#[trigger] args@[k]),
    }
}

/// The names a scope resolves, each to the name it resolves to.
pub open spec fn resolved_names(m: Map<crate::table::Key, ScopedIdentifier>) -> Map<crate::table::Key, Identifier> {
    Map::new(|k: crate::table::Key| m.dom().contains(k), |k: crate::table::Key| m[k].resolved_name)
}

/// The name a use of `i` refers to: the resolved name that the scope
/// records for it, or `i` itself when the scope has none.
pub open spec fn renamed(i: Identifier, m: Map<crate::table::Key, Identifier>) -> Identifier {
    if m.dom().contains(i@) { m[i@] } else { i }
}

/// Whether `n` is `o` with every variable and every called function named
/// as the scope `m` resolves it, and nothing else changed.
pub open spec fn expr_resolved(o: Expression, n: Expression, m: Map<crate::table::Key, Identifier>) -> bool
    decreases o,
{
    &&& n.span == o.span
    &&& n.ty == o.ty
    &&& match (o.kind, n.kind) {
        (ExprKind::Var(i), ExprKind::Var(j)) => j == renamed(i, m),
        (ExprKind::Constant(c), ExprKind::Constant(d)) => c == d,
        (ExprKind::Cast { target_type: t1, expr: a }, ExprKind::Cast { target_type: t2, expr: b }) =>
            t1 == t2 && expr_resolved(*a, *b, m),
        (ExprKind::Unary { operator: p, expr: a }, ExprKind::Unary { operator: q, expr: b }) =>
            p == q && expr_resolved(*a, *b, m),
        (ExprKind::Binary { operator: p, lhs: a1, rhs: a2 }, ExprKind::Binary { operator: q, lhs: b1, rhs: b2 }) =>
            p == q && expr_resolved(*a1, *b1, m) && expr_resolved(*a2, *b2, m),
        (ExprKind::CompoundAssign { operator: p, lhs: a1, rhs: a2 }, ExprKind::CompoundAssign { operator: q, lhs: b1, rhs: b2 }) =>
            p == q && expr_resolved(*a1, *b1, m) && expr_resolved(*a2, *b2, m),
        (ExprKind::Assignment(a1, a2), ExprKind::Assignment(b1, b2)) =>
            expr_resolved(*a1, *b1, m) && expr_resolved(*a2, *b2, m),
        (ExprKind::Prefix(p, a), ExprKind::Prefix(q, b)) => p == q && expr_resolved(*a, *b, m),
        (ExprKind::Postfix(p, a), ExprKind::Postfix(q, b)) => p == q && expr_resolved(*a, *b, m),
        (ExprKind::Conditional(a1, a2, a3), ExprKind::Conditional(b1, b2, b3)) =>
            expr_resolved(*a1, *b1, m) && expr_resolved(*a2, *b2, m) && expr_resolved(*a3, *b3, m),
        (ExprKind::FunctionCall { name: f1, args: a }, ExprKind::FunctionCall { name: f2, args: b }) => {
            &&& f2 == renamed(f1, m)
            &&& a@.len() == b@.len()
            &&& forall|k: int| 0 <= k < a@.len() ==> expr_resolved(#[trigger] a@[k], b@[k], m)
        },
        _ => false,
    }
}

/// Whether every variable and function that `e` names is in scope `m`.
pub open spec fn names_declared(e: Expression, m: Map<crate::table::Key, Identifier>) -> bool
    decreases e,
{
    match e.kind {
        ExprKind::Var(i) => m.dom().contains(i@),
        ExprKind::Constant(_) => true,
        ExprKind::Cast { expr, .. } => names_declared(*expr, m),
        ExprKind::Unary { expr, .. } => names_declared(*expr, m),
        ExprKind::Binary { lhs, rhs, .. } => names_declared(*lhs, m) && names_declared(*rhs, m),
        ExprKind::CompoundAssign { lhs, rhs, .. } => names_declared(*lhs, m) && names_declared(*rhs, m),
        ExprKind::Assignment(l, r) => names_declared(*l, m) && names_declared(*r, m),
        ExprKind::Prefix(_, inner) => names_declared(*inner, m),
        ExprKind::Postfix(_, inner) => names_declared(*inner, m),
        ExprKind::Conditional(c, t, f) => names_declared(*c, m) && names_declared(*t, m) && names_declared(*f, m),
        ExprKind::FunctionCall { name, args } => m.dom().contains(name@)
            && forall|k: int| 0 <= k < args@.len() ==> names_declared(#[trigger] args@[k], m),
    }
}

/// Whether an optional expression is resolved in scope `m`.
pub open spec fn opt_expr_resolved(o: Option<Expression>, n: Option<Expression>, m: Map<crate::table::Key, Identifier>) -> bool {
    match (o, n) {
        (None, None) => true,
        (Some(a), Some(b)) => expr_resolved(a, b, m),
        _ => false,
    }
}

/// Whether `n` is the variable declaration `o` resolved in scope `m`: a local
/// that is not `extern` gets a fresh name, any other keeps its own; the
/// initializer is resolved with the variable already in scope.
pub open spec fn var_resolved(o: VariableDeclaration, n: VariableDeclaration, m: Map<crate::table::Key, Identifier>, scope: Scope) -> bool {
    &&& n.span == o.span
    &&& n.storage_class == o.storage_class
    &&& n.ty == o.ty
    &&& if scope == Scope::Local && o.storage_class != StorageClass::Extern {
        fresh_name_for(n.name, o.name.0@)
    } else {
        n.name == o.name
    }
    &&& opt_expr_resolved(o.init, n.init, m.insert(o.name@, n.name))
}

/// The scope after the parameters `os`, renamed to `ns`, are declared in `m`.
pub open spec fn params_scope(os: Seq<FunctionParameter>, ns: Seq<FunctionParameter>, m: Map<crate::table::Key, Identifier>) -> Map<crate::table::Key, Identifier>
    decreases os.len(),
{
    if os.len() == 0 {
        m
    } else {
        params_scope(os.drop_last(), ns.drop_last(), m).insert(os.last().name@, ns.last().name)
    }
}

/// The scope after a block item is resolved in `m`.
pub open spec fn item_scope(o: BlockItem, n: BlockItem, m: Map<crate::table::Key, Identifier>) -> Map<crate::table::Key, Identifier> {
    match (o, n) {
        (BlockItem::Decl(Declaration::Var(v)), BlockItem::Decl(Declaration::Var(w))) => m.insert(v.name@, w.name),
        (BlockItem::Decl(Declaration::Func(f)), _) => m.insert(f.name@, f.name),
        _ => m,
    }
}

/// The scope after the items `os`, resolved to `ns`, in `m`.
pub open spec fn items_scope(os: Seq<BlockItem>, ns: Seq<BlockItem>, m: Map<crate::table::Key, Identifier>) -> Map<crate::table::Key, Identifier>
    decreases os.len(),
{
    if os.len() == 0 {
        m
    } else {
        item_scope(os.last(), ns.last(), items_scope(os.drop_last(), ns.drop_last(), m))
    }
}

/// The scope in which the rest of a `for` header and its body are resolved.
pub open spec fn for_scope(o: ForInit, n: ForInit, m: Map<crate::table::Key, Identifier>) -> Map<crate::table::Key, Identifier> {
    match (o, n) {
        (ForInit::Decl(v), ForInit::Decl(w)) => m.insert(v.name@, w.name),
        _ => m,
    }
}

/// Whether a `for` initializer is resolved in scope `m`.
pub open spec fn for_init_resolved(o: ForInit, n: ForInit, m: Map<crate::table::Key, Identifier>) -> bool {
    match (o, n) {
        (ForInit::Decl(v), ForInit::Decl(w)) => var_resolved(v, w, m, Scope::Local),
        (ForInit::Expr(a), ForInit::Expr(b)) => expr_resolved(a, b, m),
        (ForInit::Empty, ForInit::Empty) => true,
        _ => false,
    }
}

/// Whether `n` is statement `o` with every name resolved in scope `m`: a
/// block and a `for` loop open a scope of their own, nothing else changes.
pub open spec fn stmt_resolved(o: Statement, n: Statement, m: Map<crate::table::Key, Identifier>) -> bool
    decreases o,
{
    &&& n.span == o.span
    &&& match (o.kind, n.kind) {
        (StmtKind::Return(a), StmtKind::Return(b)) => expr_resolved(a, b, m),
        (StmtKind::Expression(a), StmtKind::Expression(b)) => expr_resolved(a, b, m),
        (StmtKind::If { cond: c1, then: t1, else_: e1 }, StmtKind::If { cond: c2, then: t2, else_: e2 }) => {
            &&& expr_resolved(c1, c2, m)
            &&& stmt_resolved(*t1, *t2, m)
            &&& match (e1, e2) {
                (None, None) => true,
                (Some(x), Some(y)) => stmt_resolved(*x, *y, m),
                _ => false,
            }
        },
        (StmtKind::Compound(b1), StmtKind::Compound(b2)) => items_resolved(b1@, b2@, m),
        (StmtKind::While { cond: c1, body: b1, label: l1 }, StmtKind::While { cond: c2, body: b2, label: l2 }) =>
            l1 == l2 && expr_resolved(c1, c2, m) && stmt_resolved(*b1, *b2, m),
        (StmtKind::DoWhile { body: b1, cond: c1, label: l1 }, StmtKind::DoWhile { body: b2, cond: c2, label: l2 }) =>
            l1 == l2 && expr_resolved(c1, c2, m) && stmt_resolved(*b1, *b2, m),
        (StmtKind::For { init: i1, condition: c1, post: p1, body: b1, label: l1 },
         StmtKind::For { init: i2, condition: c2, post: p2, body: b2, label: l2 }) => {
            &&& l1 == l2
            &&& for_init_resolved(i1, i2, m)
            &&& opt_expr_resolved(c1, c2, for_scope(i1, i2, m))
            &&& opt_expr_resolved(p1, p2, for_scope(i1, i2, m))
            &&& stmt_resolved(*b1, *b2, for_scope(i1, i2, m))
        },
        (StmtKind::Label(l1, s1), StmtKind::Label(l2, s2)) => l1 == l2 && stmt_resolved(*s1, *s2, m),
        (StmtKind::Switch(w1), StmtKind::Switch(w2)) => {
            &&& w1.label == w2.label
            &&& w1.case_set == w2.case_set
            &&& w1.cases == w2.cases
            &&& w1.default_case == w2.default_case
            &&& expr_resolved(w1.value, w2.value, m)
            &&& stmt_resolved(*w1.body, *w2.body, m)
        },
        (StmtKind::Case { value: v1, label: l1, header_span: h1, stmt: s1 },
         StmtKind::Case { value: v2, label: l2, header_span: h2, stmt: s2 }) =>
            v1 == v2 && l1 == l2 && h1 == h2 && stmt_resolved(*s1, *s2, m),
        (StmtKind::DefaultCase { label: l1, header_span: h1, stmt: s1 },
         StmtKind::DefaultCase { label: l2, header_span: h2, stmt: s2 }) =>
            l1 == l2 && h1 == h2 && stmt_resolved(*s1, *s2, m),
        (StmtKind::Goto(a), StmtKind::Goto(b)) => a == b,
        (StmtKind::Break(a), StmtKind::Break(b)) => a == b,
        (StmtKind::Continue(a), StmtKind::Continue(b)) => a == b,
        (StmtKind::Null, StmtKind::Null) => true,
        _ => false,
    }
}

/// Whether a function declaration is resolved in scope `m`: it keeps its
/// name, its parameters get fresh names, and its body is resolved in a scope
/// with the function and then each parameter declared.
pub open spec fn func_resolved(o: FunctionDeclaration, n: FunctionDeclaration, m: Map<crate::table::Key, Identifier>) -> bool
    decreases o,
{
    &&& n.name == o.name
    &&& n.span == o.span
    &&& n.name_span == o.name_span
    &&& n.storage_class == o.storage_class
    &&& n.return_type == o.return_type
    &&& n.params@.len() == o.params@.len()
    &&& forall|i: int| 0 <= i < o.params@.len() ==> {
        &&& fresh_name_for((#[trigger] n.params@[i]).name, o.params@[i].name.0@)
        &&& n.params@[i].span == o.params@[i].span
        &&& n.params@[i].ty == o.params@[i].ty
    }
    &&& match (o.body, n.body) {
        (None, None) => true,
        (Some(b1), Some(b2)) => items_resolved(b1@, b2@, params_scope(o.params@, n.params@, m.insert(o.name@, o.name))),
        _ => false,
    }
}

/// Whether a block item is resolved in scope `m`.
pub open spec fn item_resolved(o: BlockItem, n: BlockItem, m: Map<crate::table::Key, Identifier>) -> bool
    decreases o,
{
    match (o, n) {
        (BlockItem::Stmt(a), BlockItem::Stmt(b)) => stmt_resolved(a, b, m),
        (BlockItem::Decl(Declaration::Var(v)), BlockItem::Decl(Declaration::Var(w))) => var_resolved(v, w, m, Scope::Local),
        (BlockItem::Decl(Declaration::Func(f)), BlockItem::Decl(Declaration::Func(g))) => func_resolved(f, g, m),
        _ => false,
    }
}

/// Whether the items of a block are resolved one after another, each in the
/// scope the items before it leave.
pub open spec fn items_resolved(os: Seq<BlockItem>, ns: Seq<BlockItem>, m: Map<crate::table::Key, Identifier>) -> bool
    decreases os,
{
    &&& os.len() == ns.len()
    &&& os.len() > 0 ==> {
        &&& items_resolved(os.drop_last(), ns.drop_last(), m)
        &&& item_resolved(os.last(), ns.last(), items_scope(os.drop_last(), ns.drop_last(), m))
    }
}

/// The file scope after a top-level declaration.
pub open spec fn decl_scope(o: Declaration, n: Declaration, m: Map<crate::table::Key, Identifier>) -> Map<crate::table::Key, Identifier> {
    match (o, n) {
        (Declaration::Var(v), Declaration::Var(w)) => m.insert(v.name@, w.name),
        (Declaration::Func(f), _) => m.insert(f.name@, f.name),
        _ => m,
    }
}

/// The file scope after the declarations `os`, resolved to `ns`.
pub open spec fn decls_scope(os: Seq<Declaration>, ns: Seq<Declaration>, m: Map<crate::table::Key, Identifier>) -> Map<crate::table::Key, Identifier>
    decreases os.len(),
{
    if os.len() == 0 {
        m
    } else {
        decl_scope(os.last(), ns.last(), decls_scope(os.drop_last(), ns.drop_last(), m))
    }
}

/// Whether a top-level declaration is resolved in file scope `m`.
pub open spec fn decl_resolved(o: Declaration, n: Declaration, m: Map<crate::table::Key, Identifier>) -> bool {
    match (o, n) {
        (Declaration::Var(v), Declaration::Var(w)) => var_resolved(v, w, m, Scope::Global),
        (Declaration::Func(f), Declaration::Func(g)) => func_resolved(f, g, m),
        _ => false,
    }
}

/// Whether the declarations of a program are resolved one after another, each
/// in the file scope the ones before it leave.
pub open spec fn decls_resolved(os: Seq<Declaration>, ns: Seq<Declaration>, m: Map<crate::table::Key, Identifier>) -> bool
    decreases os.len(),
{
    &&& os.len() == ns.len()
    &&& os.len() > 0 ==> {
        &&& decls_resolved(os.drop_last(), ns.drop_last(), m)
        &&& decl_resolved(os.last(), ns.last(), decls_scope(os.drop_last(), ns.drop_last(), m))
    }
}

/// Declaring a name in a scope adds its resolved name to the names it resolves.
pub proof fn lemma_resolved_names_insert(m: Map<crate::table::Key, ScopedIdentifier>, k: crate::table::Key, s: ScopedIdentifier)
    ensures
        resolved_names(m.insert(k, s)) == resolved_names(m).insert(k, s.resolved_name),
{
    assert(resolved_names(m.insert(k, s)) =~= resolved_names(m).insert(k, s.resolved_name));
}

/// Whether nothing was reported between two states of the diagnostics.
pub open spec fn quiet(old: Diagnostics, new: Diagnostics) -> bool {
    new.vec@.len() == old.vec@.len()
}

/// What the errors of name resolution depend on in a scope: for each name,
/// whether it was declared in this scope and whether it has linkage.
pub type Flags = Map<crate::table::Key, (bool, bool)>;

pub open spec fn scope_flags(m: Map<crate::table::Key, ScopedIdentifier>) -> Flags {
    m.map_values(|s: ScopedIdentifier| (s.from_this_scope, s.external_linkage))
}

/// A scope inside `f`: every name of it, marked as declared outside.
pub open spec fn inner_flags(f: Flags) -> Flags {
    f.map_values(|x: (bool, bool)| (false, x.1))
}

/// The error for an assignment target that is not a variable.
pub open spec fn lvalue_errors(e: Expression) -> Errors {
    if e.kind is Var {
        seq![]
    } else {
        seq![(e.span, "invalid assignment target '"@ + expression_text(e) + "'"@)]
    }
}

/// The errors resolving expression `e` reports, in order, where the names of
/// `d` are declared: each assignment or increment target that is not a
/// variable, each undeclared variable and function.
pub open spec fn expr_res_errors(e: Expression, d: Set<crate::table::Key>) -> Errors
    decreases e, 1int,
{
    match e.kind {
        ExprKind::Var(i) => if d.contains(i@) {
            seq![]
        } else {
            seq![(e.span, "undeclared "@ + "variable"@ + " '"@ + i.0@ + "'"@)]
        },
        ExprKind::Constant(_) => seq![],
        ExprKind::Cast { expr, .. } => expr_res_errors(*expr, d),
        ExprKind::Unary { expr, .. } => expr_res_errors(*expr, d),
        ExprKind::Binary { lhs, rhs, .. } => expr_res_errors(*lhs, d) + expr_res_errors(*rhs, d),
        ExprKind::CompoundAssign { lhs, rhs, .. } => lvalue_errors(*lhs) + expr_res_errors(*lhs, d) + expr_res_errors(*rhs, d),
        ExprKind::Assignment(l, r) => lvalue_errors(*l) + expr_res_errors(*l, d) + expr_res_errors(*r, d),
        ExprKind::Prefix(_, x) => lvalue_errors(*x) + expr_res_errors(*x, d),
        ExprKind::Postfix(_, x) => lvalue_errors(*x) + expr_res_errors(*x, d),
        ExprKind::Conditional(a, b, c) => expr_res_errors(*a, d) + expr_res_errors(*b, d) + expr_res_errors(*c, d),
        ExprKind::FunctionCall { name, args } => (if d.contains(name@) {
            seq![]
        } else {
            seq![(e.span, "undeclared "@ + "function"@ + " '"@ + name.0@ + "'"@)]
        }) + args_res_errors(e, args@.len() as int, d),
    }
}

/// The errors resolving the first `k` arguments of call `e` reports.
pub open spec fn args_res_errors(e: Expression, k: int, d: Set<crate::table::Key>) -> Errors
    decreases e, 0int, k,
{
    match e.kind {
        ExprKind::FunctionCall { args, .. } => if 0 < k <= args@.len() {
            proof { vstd::std_specs::vec::axiom_vec_index_decreases(args, k - 1); }
            args_res_errors(e, k - 1, d) + expr_res_errors(args@[k - 1], d)
        } else {
            seq![]
        },
        _ => seq![],
    }
}

pub open spec fn opt_res_errors(e: Option<Expression>, d: Set<crate::table::Key>) -> Errors {
    match e {
        Some(x) => expr_res_errors(x, d),
        None => seq![],
    }
}

/// What declaring variable `v` in scope `f` does: the error for a conflicting
/// local declaration (one of this scope, unless both are `extern`), the
/// scope after, and the errors of its initializer, resolved with it declared.
pub open spec fn var_res_effect(v: VariableDeclaration, f: Flags, scope: Scope) -> (Errors, Flags) {
    let is_extern = v.storage_class == StorageClass::Extern;
    let conflict = scope == Scope::Local && f.dom().contains(v.name@) && f[v.name@].0 && !(f[v.name@].1 && is_extern);
    let after = f.insert(v.name@, (true, scope == Scope::Global || is_extern));
    ((if conflict {
        seq![(v.span, "conflicting declarations for local variable '"@ + v.name.0@ + "'"@)]
    } else {
        seq![]
    }) + opt_res_errors(v.init, after.dom()), after)
}

/// What declaring the parameters `ps` one after another in scope `f` does:
/// the error for each redeclared in this scope, and the scope after.
pub open spec fn params_res_effect(ps: Seq<FunctionParameter>, f: Flags) -> (Errors, Flags)
    decreases ps.len(),
{
    if ps.len() == 0 {
        (seq![], f)
    } else {
        let q = params_res_effect(ps.drop_last(), f);
        let p = ps.last();
        ((q.0 + if q.1.dom().contains(p.name@) && q.1[p.name@].0 {
            seq![(p.span, "redeclaration of variable '"@ + p.name.0@ + "'"@)]
        } else {
            seq![]
        }), q.1.insert(p.name@, (true, false)))
    }
}

/// What resolving statement `s` in scope `f` reports; the scope is unchanged
/// after it. A block and a `for` loop open a scope of their own.
pub open spec fn stmt_res_errors(s: Statement, f: Flags) -> Errors
    decreases s, 1int,
{
    match s.kind {
        StmtKind::Return(e) => expr_res_errors(e, f.dom()),
        StmtKind::Expression(e) => expr_res_errors(e, f.dom()),
        StmtKind::If { cond, then, else_ } => expr_res_errors(cond, f.dom()) + stmt_res_errors(*then, f) + match else_ {
            Some(x) => stmt_res_errors(*x, f),
            None => seq![],
        },
        StmtKind::Compound(items) => items_res_effect(items@, inner_flags(f)).0,
        StmtKind::While { cond, body, .. } => expr_res_errors(cond, f.dom()) + stmt_res_errors(*body, f),
        StmtKind::DoWhile { cond, body, .. } => expr_res_errors(cond, f.dom()) + stmt_res_errors(*body, f),
        StmtKind::For { init, condition, post, body, .. } => {
            let i = for_init_res_effect(init, inner_flags(f));
            i.0 + opt_res_errors(condition, i.1.dom()) + opt_res_errors(post, i.1.dom()) + stmt_res_errors(*body, i.1)
        },
        StmtKind::Label(_, x) => stmt_res_errors(*x, f),
        StmtKind::Switch(sw) => expr_res_errors(sw.value, f.dom()) + stmt_res_errors(*sw.body, f),
        StmtKind::Case { stmt, .. } => stmt_res_errors(*stmt, f),
        StmtKind::DefaultCase { stmt, .. } => stmt_res_errors(*stmt, f),
        _ => seq![],
    }
}

pub open spec fn for_init_res_effect(i: ForInit, f: Flags) -> (Errors, Flags) {
    match i {
        ForInit::Decl(v) => var_res_effect(v, f, Scope::Local),
        ForInit::Expr(e) => (expr_res_errors(e, f.dom()), f),
        ForInit::Empty => (seq![], f),
    }
}

/// What resolving the items of a block one after another in scope `f` does:
/// the errors, and the scope after.
pub open spec fn items_res_effect(items: Seq<BlockItem>, f: Flags) -> (Errors, Flags)
    decreases items, 0int,
{
    if items.len() == 0 {
        (seq![], f)
    } else {
        let p = items_res_effect(items.drop_last(), f);
        let q = match items.last() {
            BlockItem::Stmt(st) => (stmt_res_errors(st, p.1), p.1),
            BlockItem::Decl(Declaration::Var(v)) => var_res_effect(v, p.1, Scope::Local),
            BlockItem::Decl(Declaration::Func(g)) => func_res_effect(g, p.1, Scope::Local),
        };
        (p.0 + q.0, q.1)
    }
}

/// What declaring function `g` in scope `f` does: the error for a `static`
/// function in a block, the error for redeclaring a name of this scope that
/// has no linkage, the scope after; then the errors of its parameters and
/// body, resolved in a scope of their own.
pub open spec fn func_res_effect(g: FunctionDeclaration, f: Flags, scope: Scope) -> (Errors, Flags)
    decreases g, 2int,
{
    let after = f.insert(g.name@, (true, true));
    let own = (if scope == Scope::Local && g.storage_class == StorageClass::Static {
        seq![(g.name_span, "function '"@ + g.name.0@ + "' declared 'static' in a local scope"@)]
    } else {
        seq![]
    }) + (if f.dom().contains(g.name@) && f[g.name@].0 && !f[g.name@].1 {
        seq![(g.name_span, "redeclaration of function '"@ + g.name.0@ + "'"@)]
    } else {
        seq![]
    });
    let ps = params_res_effect(g.params@, inner_flags(after));
    (own + ps.0 + match g.body {
        Some(b) => items_res_effect(b@, ps.1).0,
        None => seq![],
    }, after)
}

/// What resolving the declarations of a program one after another does.
pub open spec fn decls_res_effect(ds: Seq<Declaration>, f: Flags) -> (Errors, Flags)
    decreases ds.len(),
{
    if ds.len() == 0 {
        (seq![], f)
    } else {
        let p = decls_res_effect(ds.drop_last(), f);
        let q = match ds.last() {
            Declaration::Var(v) => var_res_effect(v, p.1, Scope::Global),
            Declaration::Func(g) => func_res_effect(g, p.1, Scope::Global),
        };
        (p.0 + q.0, q.1)
    }
}

/// A new scope inside `outer`: every name of it, marked as declared outside.
fn create_inner_scope(outer: &IdentifierMap) -> (r: IdentifierMap)
    ensures
        r@.dom() == outer@.dom(),
        forall|k: crate::table::Key| #[trigger] r@.dom().contains(k) ==> !r@[k].from_this_scope
            && r@[k].resolved_name == outer@[k].resolved_name && r@[k].external_linkage == outer@[k].external_linkage
            && r@[k].defined == outer@[k].defined,
        resolved_names(r@) == resolved_names(outer@),
        scope_flags(r@) == inner_flags(scope_flags(outer@)),
{
    let mut map: IdentifierMap = Table::new();
    let mut i: usize = 0;
    while i < outer.entries.len()
        invariant
            i <= outer.entries@.len(),
            map.entries@.len() == i,
            forall|j: int| 0 <= j < i ==> (#[trigger] map.entries@[j]).0@ == outer.entries@[j].0@
                && map.entries@[j].1 == (ScopedIdentifier { from_this_scope: false, ..outer.entries@[j].1 }),
        decreases outer.entries@.len() - i,
    {
        let e = &outer.entries[i];
        let mut v = e.1.clone();
        v.from_this_scope = false;
        map.insert(e.0.clone(), v);
        i = i + 1;
    }
    proof {
        lemma_inner_scope(outer.entries@, map.entries@);
        assert(resolved_names(map@) =~= resolved_names(outer@));
        assert(scope_flags(map@) =~= inner_flags(scope_flags(outer@)));
    }
    map
}

/// Declaring a name records its flags.
proof fn lemma_flags_insert(m: Map<crate::table::Key, ScopedIdentifier>, k: crate::table::Key, v: ScopedIdentifier)
    ensures
        scope_flags(m.insert(k, v)) == scope_flags(m).insert(k, (v.from_this_scope, v.external_linkage)),
{
    assert(scope_flags(m.insert(k, v)) =~= scope_flags(m).insert(k, (v.from_this_scope, v.external_linkage)));
}

proof fn lemma_inner_scope(outer: Seq<(Identifier, ScopedIdentifier)>, inner: Seq<(Identifier, ScopedIdentifier)>)
    requires
        outer.len() == inner.len(),
        forall|j: int| 0 <= j < outer.len() ==> (#[trigger] inner[j]).0@ == outer[j].0@
            && inner[j].1 == (ScopedIdentifier { from_this_scope: false, ..outer[j].1 }),
    ensures
        crate::table::entries_map(inner).dom() == crate::table::entries_map(outer).dom(),
        forall|k: crate::table::Key| #[trigger] crate::table::entries_map(inner).dom().contains(k) ==>
            crate::table::entries_map(inner)[k] == (ScopedIdentifier { from_this_scope: false, ..crate::table::entries_map(outer)[k] }),
    decreases outer.len(),
{
    if outer.len() > 0 {
        lemma_inner_scope(outer.drop_last(), inner.drop_last());
        assert(crate::table::entries_map(inner).dom() =~= crate::table::entries_map(outer).dom());
    }
}

/// Reports `expr` when it is not a variable, as the target of an assignment
/// or increment.
fn check_lvalue(expr: &Expression, diagnostics: &mut Diagnostics)
    ensures
        extended(*old(diagnostics), *final(diagnostics)),
        quiet(*old(diagnostics), *final(diagnostics)) <==> expr.kind is Var,
        appended_errors(*old(diagnostics), *final(diagnostics), lvalue_errors(*expr)),
{
    if !expr.is_var() {
        let mut m = string_of("invalid assignment target '");
        push_string(&mut m, &expr.text());
        push_str(&mut m, "'");
        report_string(diagnostics, expr.span.start..expr.span.end, m);
        proof { lemma_appended_extended(*old(diagnostics), *diagnostics, 1); }
    } else {
        proof {
            lemma_extended_refl(*diagnostics);
            lemma_errors_none(*diagnostics);
        }
    }
}

fn undeclared(diagnostics: &mut Diagnostics, span: Span, what: &str, name: &String)
    ensures
        extended(*old(diagnostics), *final(diagnostics)),
        final(diagnostics).vec@.len() == old(diagnostics).vec@.len() + 1,
        crate::analysis::reporting::appended_errors(*old(diagnostics), *final(diagnostics),
            seq![(span, "undeclared "@ + what@ + " '"@ + name@ + "'"@)]),
{
    let mut m = string_of("undeclared ");
    push_str(&mut m, what);
    push_str(&mut m, " '");
    push_string(&mut m, name);
    push_str(&mut m, "'");
    report_string(diagnostics, span, m);
    proof { lemma_appended_extended(*old(diagnostics), *diagnostics, 1); }
}

/// Resolves the names used in an expression.
fn resolve_expression(expr: &mut Expression, map: &IdentifierMap, diagnostics: &mut Diagnostics)
    ensures
        extended(*old(diagnostics), *final(diagnostics)),
        quiet(*old(diagnostics), *final(diagnostics)) ==> lvalues_ok(*final(expr)),
        quiet(*old(diagnostics), *final(diagnostics)) ==> names_declared(*old(expr), resolved_names(map@)),
        final(expr).kind is Var <==> old(expr).kind is Var,
        expr_resolved(*old(expr), *final(expr), resolved_names(map@)),
        appended_errors(*old(diagnostics), *final(diagnostics), expr_res_errors(*old(expr), map@.dom())),
        match old(expr).kind {
            ExprKind::Var(i) => if map@.dom().contains(i@) {
                *final(diagnostics) == *old(diagnostics)
            } else {
                crate::analysis::reporting::appended_errors(*old(diagnostics), *final(diagnostics),
                    seq![(old(expr).span, "undeclared "@ + "variable"@ + " '"@ + i.0@ + "'"@)])
            },
            _ => true,
        },
    decreases *old(expr),
{
    proof {
        lemma_extended_refl(*diagnostics);
        lemma_errors_none(*diagnostics);
    }
    let ghost d0 = *diagnostics;
    let ghost dm = map@.dom();
    let span = expr.span.start..expr.span.end;
    match &mut expr.kind {
        ExprKind::Assignment(lhs, rhs) => {
            let ghost l = **lhs;
            let ghost r = **rhs;
            check_lvalue(lhs, diagnostics);
            let ghost d1 = *diagnostics;
            resolve_expression(lhs, map, diagnostics);
            let ghost d2 = *diagnostics;
            resolve_expression(rhs, map, diagnostics);
            proof {
                lemma_errors_trans(d0, d1, d2, lvalue_errors(l), expr_res_errors(l, dm));
                lemma_errors_trans(d0, d2, *diagnostics, lvalue_errors(l) + expr_res_errors(l, dm), expr_res_errors(r, dm));
            }
        },
        ExprKind::Var(i) => {
            match map.get(i) {
                Some(unique) => {
                    *i = unique.resolved_name.clone();
                },
                None => undeclared(diagnostics, span, "variable", &i.0),
            }
        },
        ExprKind::Unary { expr: inner, .. } => resolve_expression(inner, map, diagnostics),
        ExprKind::Cast { expr: inner, .. } => resolve_expression(inner, map, diagnostics),
        ExprKind::Binary { lhs, rhs, .. } => {
            let ghost l = **lhs;
            let ghost r = **rhs;
            resolve_expression(lhs, map, diagnostics);
            let ghost d1 = *diagnostics;
            resolve_expression(rhs, map, diagnostics);
            proof { lemma_errors_trans(d0, d1, *diagnostics, expr_res_errors(l, dm), expr_res_errors(r, dm)); }
        },
        ExprKind::CompoundAssign { lhs, rhs, .. } => {
            let ghost l = **lhs;
            let ghost r = **rhs;
            check_lvalue(lhs, diagnostics);
            let ghost d1 = *diagnostics;
            resolve_expression(lhs, map, diagnostics);
            let ghost d2 = *diagnostics;
            resolve_expression(rhs, map, diagnostics);
            proof {
                lemma_errors_trans(d0, d1, d2, lvalue_errors(l), expr_res_errors(l, dm));
                lemma_errors_trans(d0, d2, *diagnostics, lvalue_errors(l) + expr_res_errors(l, dm), expr_res_errors(r, dm));
            }
        },
        ExprKind::Postfix(_, inner) => {
            let ghost x = **inner;
            check_lvalue(inner, diagnostics);
            let ghost d1 = *diagnostics;
            resolve_expression(inner, map, diagnostics);
            proof { lemma_errors_trans(d0, d1, *diagnostics, lvalue_errors(x), expr_res_errors(x, dm)); }
        },
        ExprKind::Prefix(_, inner) => {
            let ghost x = **inner;
            check_lvalue(inner, diagnostics);
            let ghost d1 = *diagnostics;
            resolve_expression(inner, map, diagnostics);
            proof { lemma_errors_trans(d0, d1, *diagnostics, lvalue_errors(x), expr_res_errors(x, dm)); }
        },
        ExprKind::Conditional(a, b, c) => {
            let ghost x = **a;
            let ghost y = **b;
            let ghost z = **c;
            resolve_expression(a, map, diagnostics);
            let ghost d1 = *diagnostics;
            resolve_expression(b, map, diagnostics);
            let ghost d2 = *diagnostics;
            resolve_expression(c, map, diagnostics);
            proof {
                lemma_errors_trans(d0, d1, d2, expr_res_errors(x, dm), expr_res_errors(y, dm));
                lemma_errors_trans(d0, d2, *diagnostics, expr_res_errors(x, dm) + expr_res_errors(y, dm), expr_res_errors(z, dm));
            }
        },
        ExprKind::FunctionCall { args, name } => {
            let ghost e0: Errors = if dm.contains(name@) {
                seq![]
            } else {
                seq![(old(expr).span, "undeclared "@ + "function"@ + " '"@ + name.0@ + "'"@)]
            };
            match map.get(name) {
                Some(i) => {
                    *name = i.resolved_name.clone();
                },
                None => undeclared(diagnostics, span, "function", &name.0),
            }
            let ghost d0 = *diagnostics;
            let ghost orig = *args;
            proof {
                lemma_errors_none(d0);
                assert(args_res_errors(*old(expr), 0, dm) =~= Seq::<(Span, Seq<char>)>::empty());
            }
            let n = args.len();
            let mut k: usize = 0;
            while k < n
                invariant
                    n == args@.len(),
                    n == orig@.len(),
                    k <= n,
                    old(expr).kind is FunctionCall,
                    orig == old(expr).kind->FunctionCall_args,
                    forall|j: int| k <= j < n ==> args@[j] == orig@[j],
                    extended(*old(diagnostics), *diagnostics),
                    extended(d0, *diagnostics),
                    quiet(d0, *diagnostics) ==> forall|j: int| 0 <= j < k ==> lvalues_ok(#[trigger] args@[j]),
                    quiet(d0, *diagnostics) ==> forall|j: int| 0 <= j < k ==> names_declared(#[trigger] orig@[j], resolved_names(map@)),
                    forall|j: int| 0 <= j < k ==> expr_resolved(#[trigger] orig@[j], args@[j], resolved_names(map@)),
                    dm == map@.dom(),
                    appended_errors(d0, *diagnostics, args_res_errors(*old(expr), k as int, dm)),
                decreases n - k,
            {
                proof {
                    vstd::std_specs::vec::axiom_vec_index_decreases(orig, k as int);
                    assert(decreases_to!(*old(expr) => orig@[k as int]));
                }
                let ghost before = args@;
                let ghost dk = *diagnostics;
                resolve_expression(&mut args[k], map, diagnostics);
                proof {
                    assert forall|j: int| 0 <= j < k implies args@[j] == before[j] by {}
                    lemma_errors_trans(d0, dk, *diagnostics, args_res_errors(*old(expr), k as int, dm), expr_res_errors(orig@[k as int], dm));
                }
                k = k + 1;
            }
            proof {
                lemma_errors_trans(*old(diagnostics), d0, *diagnostics, e0, args_res_errors(*old(expr), n as int, dm));
            }
        },
        ExprKind::Constant(_) => {},
    }
}

fn resolve_optional_expression(expr: &mut Option<Expression>, map: &IdentifierMap, diagnostics: &mut Diagnostics)
    ensures
        extended(*old(diagnostics), *final(diagnostics)),
        quiet(*old(diagnostics), *final(diagnostics)) ==> (*final(expr) matches Some(e) ==> lvalues_ok(e)),
        *final(expr) is Some <==> *old(expr) is Some,
        opt_expr_resolved(*old(expr), *final(expr), resolved_names(map@)),
        appended_errors(*old(diagnostics), *final(diagnostics), opt_res_errors(*old(expr), map@.dom())),
{
    proof {
        lemma_extended_refl(*diagnostics);
        lemma_errors_none(*diagnostics);
    }
    match expr {
        Some(e) => resolve_expression(e, map, diagnostics),
        None => {},
    }
}

pub open spec fn var_lvalues_ok(v: VariableDeclaration) -> bool {
    v.init matches Some(e) ==> lvalues_ok(e)
}

/// Whether every expression of a statement has valid assignment targets.
pub open spec fn stmt_lvalues_ok(s: Statement) -> bool
    decreases s,
{
    match s.kind {
        StmtKind::Return(e) => lvalues_ok(e),
        StmtKind::Expression(e) => lvalues_ok(e),
        StmtKind::If { cond, then, else_ } => {
            &&& lvalues_ok(cond)
            &&& stmt_lvalues_ok(*then)
            &&& match else_ {
                Some(e) => stmt_lvalues_ok(*e),
                None => true,
            }
        },
        StmtKind::While { cond, body, .. } => lvalues_ok(cond) && stmt_lvalues_ok(*body),
        StmtKind::DoWhile { cond, body, .. } => lvalues_ok(cond) && stmt_lvalues_ok(*body),
        StmtKind::For { init, condition, post, body, .. } => {
            &&& match init {
                ForInit::Decl(v) => var_lvalues_ok(v),
                ForInit::Expr(e) => lvalues_ok(e),
                ForInit::Empty => true,
            }
            &&& (condition matches Some(c) ==> lvalues_ok(c))
            &&& (post matches Some(p) ==> lvalues_ok(p))
            &&& stmt_lvalues_ok(*body)
        },
        StmtKind::Switch(sw) => lvalues_ok(sw.value) && stmt_lvalues_ok(*sw.body),
        StmtKind::Compound(items) => items_lvalues_ok(items@),
        StmtKind::Label(_, st) => stmt_lvalues_ok(*st),
        StmtKind::Case { stmt, .. } => stmt_lvalues_ok(*stmt),
        StmtKind::DefaultCase { stmt, .. } => stmt_lvalues_ok(*stmt),
        _ => true,
    }
}

pub open spec fn items_lvalues_ok(items: Seq<BlockItem>) -> bool
    decreases items,
{
    if items.len() == 0 {
        true
    } else {
        &&& items_lvalues_ok(items.drop_last())
        &&& match items.last() {
            BlockItem::Stmt(s) => stmt_lvalues_ok(s),
            BlockItem::Decl(Declaration::Var(v)) => var_lvalues_ok(v),
            BlockItem::Decl(Declaration::Func(f)) => function_lvalues_ok(f),
        }
    }
}

pub open spec fn function_lvalues_ok(f: FunctionDeclaration) -> bool
    decreases f,
{
    match f.body {
        Some(b) => items_lvalues_ok(b@),
        None => true,
    }
}

pub open spec fn declaration_lvalues_ok(d: Declaration) -> bool {
    match d {
        Declaration::Var(v) => var_lvalues_ok(v),
        Declaration::Func(f) => function_lvalues_ok(f),
    }
}

/// Whether `name` is a fresh local name made from `source`.
pub open spec fn fresh_name_for(name: Identifier, source: Seq<char>) -> bool {
    &&& name.1@ == source
    &&& exists|s: Seq<char>| crate::parser::ast::is_random_suffix(s)
        && name.0@ == crate::parser::ast::local_prefix() + source + "__"@ + s
}

fn report_named(diagnostics: &mut Diagnostics, span: Span, before: &str, name: &String, after: &str)
    ensures
        extended(*old(diagnostics), *final(diagnostics)),
        final(diagnostics).vec@.len() == old(diagnostics).vec@.len() + 1,
        appended_errors(*old(diagnostics), *final(diagnostics), seq![(span, before@ + name@ + after@)]),
{
    let mut m = string_of(before);
    push_string(&mut m, name);
    push_str(&mut m, after);
    report_string(diagnostics, span, m);
    proof { lemma_appended_extended(*old(diagnostics), *diagnostics, 1); }
}

/// Declares a parameter or automatic local: reports a redeclaration in the
/// same scope, gives it a fresh name, and resolves its initializer.
fn resolve_var_like_identifier(
    name: &mut Identifier,
    init: Option<&mut Expression>,
    span: &Span,
    map: &mut IdentifierMap,
    diagnostics: &mut Diagnostics,
)
    ensures
        extended(*old(diagnostics), *final(diagnostics)),
        fresh_name_for(*final(name), old(name).0@),
        final(map)@ == old(map)@.insert(old(name)@, ScopedIdentifier {
            resolved_name: *final(name),
            from_this_scope: true,
            external_linkage: false,
            defined: true,
        }),
        init matches Some(e) ==> (quiet(*old(diagnostics), *final(diagnostics)) ==> lvalues_ok(*final(e))),
        init is None ==> appended_errors(*old(diagnostics), *final(diagnostics),
            if old(map)@.dom().contains(old(name)@) && old(map)@[old(name)@].from_this_scope {
                seq![(*span, "redeclaration of variable '"@ + old(name).0@ + "'"@)]
            } else {
                seq![]
            }),
{
    proof {
        lemma_extended_refl(*diagnostics);
        lemma_errors_none(*diagnostics);
    }
    match map.get(name) {
        Some(var) => {
            if var.from_this_scope {
                report_named(diagnostics, span.start..span.end, "redeclaration of variable '", &name.0, "'");
            }
        },
        None => {},
    }
    let unique_name = Identifier::new(name.0.as_str());
    map.insert(name.clone(), ScopedIdentifier {
        resolved_name: unique_name.clone(),
        from_this_scope: true,
        external_linkage: false,
        defined: true,
    });
    match init {
        Some(e) => resolve_expression(e, map, diagnostics),
        None => {},
    }
    *name = unique_name;
}

fn resolve_parameter(p: &mut FunctionParameter, map: &mut IdentifierMap, diagnostics: &mut Diagnostics)
    ensures
        extended(*old(diagnostics), *final(diagnostics)),
        fresh_name_for(final(p).name, old(p).name.0@),
        final(p).span == old(p).span,
        final(p).ty == old(p).ty,
        resolved_names(final(map)@) == resolved_names(old(map)@).insert(old(p).name@, final(p).name),
        scope_flags(final(map)@) == scope_flags(old(map)@).insert(old(p).name@, (true, false)),
        appended_errors(*old(diagnostics), *final(diagnostics),
            if scope_flags(old(map)@).dom().contains(old(p).name@) && scope_flags(old(map)@)[old(p).name@].0 {
                seq![(old(p).span, "redeclaration of variable '"@ + old(p).name.0@ + "'"@)]
            } else {
                seq![]
            }),
{
    let span = p.span.start..p.span.end;
    let ghost m0 = map@;
    resolve_var_like_identifier(&mut p.name, None, &span, map, diagnostics);
    proof {
        lemma_flags_insert(m0, old(p).name@, map@[old(p).name@]);
        lemma_resolved_names_insert(m0, old(p).name@, ScopedIdentifier {
            resolved_name: p.name,
            from_this_scope: true,
            external_linkage: false,
            defined: true,
        });
    }
}

/// Declares a variable: at file scope under its own name; in a block under a
/// fresh name, unless it is `extern`; reports a conflicting declaration in
/// the same block.
fn resolve_variable_declaration(decl: &mut VariableDeclaration, map: &mut IdentifierMap, diagnostics: &mut Diagnostics, scope: Scope)
    ensures
        extended(*old(diagnostics), *final(diagnostics)),
        quiet(*old(diagnostics), *final(diagnostics)) ==> var_lvalues_ok(*final(decl)),
        final(decl).storage_class == old(decl).storage_class,
        scope == Scope::Local && old(decl).storage_class != StorageClass::Extern ==> fresh_name_for(final(decl).name, old(decl).name.0@),
        !(scope == Scope::Local && old(decl).storage_class != StorageClass::Extern) ==> final(decl).name == old(decl).name,
        var_resolved(*old(decl), *final(decl), resolved_names(old(map)@), scope),
        resolved_names(final(map)@) == resolved_names(old(map)@).insert(old(decl).name@, final(decl).name),
        final(map)@ == old(map)@.insert(old(decl).name@, ScopedIdentifier {
            resolved_name: final(decl).name,
            from_this_scope: true,
            external_linkage: scope == Scope::Global || old(decl).storage_class == StorageClass::Extern,
            defined: true,
        }),
        scope_flags(final(map)@) == var_res_effect(*old(decl), scope_flags(old(map)@), scope).1,
        appended_errors(*old(diagnostics), *final(diagnostics), var_res_effect(*old(decl), scope_flags(old(map)@), scope).0),
{
    let ghost m0 = map@;
    let ghost key = decl.name@;
    proof {
        lemma_extended_refl(*diagnostics);
        lemma_errors_none(*diagnostics);
    }
    if scope.is_global() {
        map.insert(decl.name.clone(), ScopedIdentifier {
            resolved_name: decl.name.clone(),
            from_this_scope: true,
            external_linkage: true,
            defined: true,
        });
    } else {
        let conflict = match map.get(&decl.name) {
            Some(prev) => prev.from_this_scope && !(prev.external_linkage && decl.storage_class.is_extern()),
            None => false,
        };
        if conflict {
            report_named(diagnostics, decl.span.start..decl.span.end, "conflicting declarations for local variable '", &decl.name.0, "'");
        }
        if decl.storage_class.is_extern() {
            map.insert(decl.name.clone(), ScopedIdentifier {
                resolved_name: decl.name.clone(),
                from_this_scope: true,
                external_linkage: true,
                defined: true,
            });
        } else {
            let new_name = Identifier::new(decl.name.0.as_str());
            map.insert(decl.name.clone(), ScopedIdentifier {
                resolved_name: new_name.clone(),
                from_this_scope: true,
                external_linkage: false,
                defined: true,
            });
            decl.name = new_name;
        }
    }
    proof {
        lemma_resolved_names_insert(m0, key, map@[key]);
        lemma_flags_insert(m0, key, map@[key]);
        assert(map@ == m0.insert(key, map@[key]));
        assert(map@[key].resolved_name == decl.name);
    }
    let ghost d1 = *diagnostics;
    let ghost oi = decl.init;
    resolve_optional_expression(&mut decl.init, map, diagnostics);
    proof {
        let f = scope_flags(m0);
        let is_extern = old(decl).storage_class == StorageClass::Extern;
        let after = f.insert(key, (true, scope == Scope::Global || is_extern));
        assert(after.dom() =~= map@.dom());
        let conflict = scope == Scope::Local && f.dom().contains(key) && f[key].0 && !(f[key].1 && is_extern);
        let e0: Errors = if conflict {
            seq![(old(decl).span, "conflicting declarations for local variable '"@ + old(decl).name.0@ + "'"@)]
        } else {
            seq![]
        };
        lemma_errors_trans(*old(diagnostics), d1, *diagnostics, e0, opt_res_errors(oi, map@.dom()));
    }
}

fn resolve_for_init(init: &mut ForInit, map: &mut IdentifierMap, diagnostics: &mut Diagnostics)
    ensures
        extended(*old(diagnostics), *final(diagnostics)),
        quiet(*old(diagnostics), *final(diagnostics)) ==> match *final(init) {
            ForInit::Decl(v) => var_lvalues_ok(v),
            ForInit::Expr(e) => lvalues_ok(e),
            ForInit::Empty => true,
        },
        for_init_resolved(*old(init), *final(init), resolved_names(old(map)@)),
        resolved_names(final(map)@) == for_scope(*old(init), *final(init), resolved_names(old(map)@)),
        scope_flags(final(map)@) == for_init_res_effect(*old(init), scope_flags(old(map)@)).1,
        appended_errors(*old(diagnostics), *final(diagnostics), for_init_res_effect(*old(init), scope_flags(old(map)@)).0),
{
    proof {
        lemma_extended_refl(*diagnostics);
        lemma_errors_none(*diagnostics);
    }
    proof { assert(scope_flags(map@).dom() =~= map@.dom()); }
    match init {
        ForInit::Expr(e) => resolve_expression(e, map, diagnostics),
        ForInit::Decl(decl) => resolve_variable_declaration(decl, map, diagnostics, Scope::Local),
        ForInit::Empty => {},
    }
}

fn resolve_statement(stmt: &mut Statement, map: &mut IdentifierMap, diagnostics: &mut Diagnostics)
    ensures
        extended(*old(diagnostics), *final(diagnostics)),
        quiet(*old(diagnostics), *final(diagnostics)) ==> stmt_lvalues_ok(*final(stmt)),
        final(map)@ == old(map)@,
        stmt_resolved(*old(stmt), *final(stmt), resolved_names(old(map)@)),
        appended_errors(*old(diagnostics), *final(diagnostics), stmt_res_errors(*old(stmt), scope_flags(old(map)@))),
    decreases *old(stmt),
{
    proof {
        lemma_extended_refl(*diagnostics);
        lemma_errors_none(*diagnostics);
        assert(scope_flags(map@).dom() =~= map@.dom());
    }
    let ghost d0 = *diagnostics;
    let ghost f = scope_flags(map@);
    match &mut stmt.kind {
        StmtKind::Return(e) => resolve_expression(e, map, diagnostics),
        StmtKind::Expression(e) => resolve_expression(e, map, diagnostics),
        StmtKind::If { cond, then, else_ } => {
            let ghost c = *cond;
            let ghost t = **then;
            resolve_expression(cond, map, diagnostics);
            let ghost d1 = *diagnostics;
            resolve_statement(then, map, diagnostics);
            let ghost d2 = *diagnostics;
            proof { lemma_errors_trans(d0, d1, d2, expr_res_errors(c, f.dom()), stmt_res_errors(t, f)); }
            match else_ {
                Some(e) => {
                    let ghost x = **e;
                    resolve_statement(e, map, diagnostics);
                    proof {
                        lemma_errors_trans(d0, d2, *diagnostics, expr_res_errors(c, f.dom()) + stmt_res_errors(t, f),
                            stmt_res_errors(x, f));
                    }
                },
                None => {
                    proof {
                        lemma_errors_none(d2);
                        lemma_errors_trans(d0, d2, d2, expr_res_errors(c, f.dom()) + stmt_res_errors(t, f), seq![]);
                    }
                },
            }
        },
        StmtKind::Compound(block) => {
            let mut inner = create_inner_scope(map);
            resolve_block(block, &mut inner, diagnostics);
        },
        StmtKind::While { cond, body, .. } => {
            let ghost c = *cond;
            let ghost b = **body;
            resolve_expression(cond, map, diagnostics);
            let ghost d1 = *diagnostics;
            resolve_statement(body, map, diagnostics);
            proof { lemma_errors_trans(d0, d1, *diagnostics, expr_res_errors(c, f.dom()), stmt_res_errors(b, f)); }
        },
        StmtKind::DoWhile { body, cond, .. } => {
            let ghost c = *cond;
            let ghost b = **body;
            resolve_expression(cond, map, diagnostics);
            let ghost d1 = *diagnostics;
            resolve_statement(body, map, diagnostics);
            proof { lemma_errors_trans(d0, d1, *diagnostics, expr_res_errors(c, f.dom()), stmt_res_errors(b, f)); }
        },
        StmtKind::For { init, condition, post, body, .. } => {
            let mut inner = create_inner_scope(map);
            let ghost oi = *init;
            let ghost oc = *condition;
            let ghost op = *post;
            let ghost ob = **body;
            resolve_for_init(init, &mut inner, diagnostics);
            let ghost d1 = *diagnostics;
            let ghost f1 = scope_flags(inner@);
            proof { assert(f1.dom() =~= inner@.dom()); }
            resolve_optional_expression(condition, &inner, diagnostics);
            let ghost d2 = *diagnostics;
            resolve_optional_expression(post, &inner, diagnostics);
            let ghost d3 = *diagnostics;
            resolve_statement(body, &mut inner, diagnostics);
            proof {
                let e1 = for_init_res_effect(oi, inner_flags(f)).0;
                lemma_errors_trans(d0, d1, d2, e1, opt_res_errors(oc, f1.dom()));
                lemma_errors_trans(d0, d2, d3, e1 + opt_res_errors(oc, f1.dom()), opt_res_errors(op, f1.dom()));
                lemma_errors_trans(d0, d3, *diagnostics, e1 + opt_res_errors(oc, f1.dom()) + opt_res_errors(op, f1.dom()),
                    stmt_res_errors(ob, f1));
            }
        },
        StmtKind::Label(_, s) => resolve_statement(s, map, diagnostics),
        StmtKind::Switch(sw) => {
            let ghost v = sw.value;
            let ghost b = *sw.body;
            resolve_expression(&mut sw.value, map, diagnostics);
            let ghost d1 = *diagnostics;
            resolve_statement(&mut sw.body, map, diagnostics);
            proof { lemma_errors_trans(d0, d1, *diagnostics, expr_res_errors(v, f.dom()), stmt_res_errors(b, f)); }
        },
        StmtKind::Case { stmt: s, .. } => resolve_statement(s, map, diagnostics),
        StmtKind::DefaultCase { stmt: s, .. } => resolve_statement(s, map, diagnostics),
        _ => {},
    }
}

fn resolve_block(block: &mut Block, map: &mut IdentifierMap, diagnostics: &mut Diagnostics)
    ensures
        extended(*old(diagnostics), *final(diagnostics)),
        quiet(*old(diagnostics), *final(diagnostics)) ==> items_lvalues_ok(final(block)@),
        items_resolved(old(block)@, final(block)@, resolved_names(old(map)@)),
        resolved_names(final(map)@) == items_scope(old(block)@, final(block)@, resolved_names(old(map)@)),
        scope_flags(final(map)@) == items_res_effect(old(block)@, scope_flags(old(map)@)).1,
        appended_errors(*old(diagnostics), *final(diagnostics), items_res_effect(old(block)@, scope_flags(old(map)@)).0),
    decreases *old(block),
{
    proof {
        lemma_extended_refl(*diagnostics);
        lemma_errors_none(*diagnostics);
    }
    let ghost orig = block@;
    let n = block.len();
    let mut k: usize = 0;
    while k < n
        invariant
            n == block@.len(),
            orig == old(block)@,
            orig.len() == n,
            k <= n,
            forall|j: int| k <= j < n ==> block@[j] == orig[j],
            extended(*old(diagnostics), *diagnostics),
            quiet(*old(diagnostics), *diagnostics) ==> items_lvalues_ok(block@.take(k as int)),
            items_resolved(orig.take(k as int), block@.take(k as int), resolved_names(old(map)@)),
            resolved_names(map@) == items_scope(orig.take(k as int), block@.take(k as int), resolved_names(old(map)@)),
            scope_flags(map@) == items_res_effect(orig.take(k as int), scope_flags(old(map)@)).1,
            appended_errors(*old(diagnostics), *diagnostics, items_res_effect(orig.take(k as int), scope_flags(old(map)@)).0),
        decreases n - k,
    {
        let ghost prev = block@;
        let ghost before = resolved_names(map@);
        let ghost dk = *diagnostics;
        let ghost fk = scope_flags(map@);
        proof {
            vstd::std_specs::vec::axiom_vec_index_decreases(*old(block), k as int);
        }
        match &mut block[k] {
            BlockItem::Stmt(s) => resolve_statement(s, map, diagnostics),
            BlockItem::Decl(Declaration::Var(v)) => resolve_variable_declaration(v, map, diagnostics, Scope::Local),
            BlockItem::Decl(Declaration::Func(f)) => resolve_function_declaration(f, map, diagnostics, Scope::Local),
        }
        proof {
            assert(block@.take(k + 1).drop_last() =~= block@.take(k as int));
            assert(block@.take(k as int) =~= prev.take(k as int));
            assert(orig.take(k + 1).drop_last() =~= orig.take(k as int));
            assert(orig.take(k + 1).last() == orig[k as int]);
            assert(block@.take(k + 1).last() == block@[k as int]);
            assert(item_resolved(orig[k as int], block@[k as int], before));
            assert(resolved_names(map@) == item_scope(orig[k as int], block@[k as int], before));
            let q = match orig[k as int] {
                BlockItem::Stmt(st) => (stmt_res_errors(st, fk), fk),
                BlockItem::Decl(Declaration::Var(v)) => var_res_effect(v, fk, Scope::Local),
                BlockItem::Decl(Declaration::Func(g)) => func_res_effect(g, fk, Scope::Local),
            };
            lemma_errors_trans(*old(diagnostics), dk, *diagnostics,
                items_res_effect(orig.take(k as int), scope_flags(old(map)@)).0, q.0);
        }
        k = k + 1;
    }
    proof {
        assert(block@.take(n as int) =~= block@);
        assert(orig.take(n as int) =~= orig);
    }
}

/// Declares a function under its own name, with external linkage, and
/// resolves its parameters and body in a scope of their own.
fn resolve_function_declaration(decl: &mut FunctionDeclaration, map: &mut IdentifierMap, diagnostics: &mut Diagnostics, scope: Scope)
    ensures
        extended(*old(diagnostics), *final(diagnostics)),
        quiet(*old(diagnostics), *final(diagnostics)) ==> function_lvalues_ok(*final(decl)),
        final(decl).name == old(decl).name,
        final(decl).storage_class == old(decl).storage_class,
        final(decl).params@.len() == old(decl).params@.len(),
        final(decl).body is Some <==> old(decl).body is Some,
        final(map)@ == old(map)@.insert(old(decl).name@, ScopedIdentifier {
            resolved_name: old(decl).name,
            from_this_scope: true,
            external_linkage: true,
            defined: old(decl).body is Some || (old(map)@.dom().contains(old(decl).name@) && old(map)@[old(decl).name@].defined),
        }),
        func_resolved(*old(decl), *final(decl), resolved_names(old(map)@)),
        scope_flags(final(map)@) == func_res_effect(*old(decl), scope_flags(old(map)@), scope).1,
        appended_errors(*old(diagnostics), *final(diagnostics), func_res_effect(*old(decl), scope_flags(old(map)@), scope).0),
    decreases *old(decl),
{
    let ghost m0 = map@;
    let ghost f0 = scope_flags(m0);
    proof {
        lemma_extended_refl(*diagnostics);
        lemma_errors_none(*diagnostics);
    }
    let ghost es: Errors = if scope == Scope::Local && old(decl).storage_class == StorageClass::Static {
        seq![(old(decl).name_span, "function '"@ + old(decl).name.0@ + "' declared 'static' in a local scope"@)]
    } else {
        seq![]
    };
    let ghost er: Errors = if f0.dom().contains(old(decl).name@) && f0[old(decl).name@].0 && !f0[old(decl).name@].1 {
        seq![(old(decl).name_span, "redeclaration of function '"@ + old(decl).name.0@ + "'"@)]
    } else {
        seq![]
    };
    if scope.is_local() && decl.storage_class.is_static() {
        report_named(diagnostics, decl.name_span.start..decl.name_span.end, "function '", &decl.name.0, "' declared 'static' in a local scope");
    }
    let ghost d1 = *diagnostics;
    proof { lemma_errors_none(d1); }
    let mut defined = decl.body.is_some();
    match map.get(&decl.name) {
        Some(prev) => {
            defined = defined || prev.defined;
            if prev.from_this_scope && !prev.external_linkage {
                report_named(diagnostics, decl.name_span.start..decl.name_span.end, "redeclaration of function '", &decl.name.0, "'");
            }
        },
        None => {},
    }
    let ghost d2 = *diagnostics;
    proof {
        lemma_errors_trans(*old(diagnostics), d1, d2, es, er);
    }
    map.insert(decl.name.clone(), ScopedIdentifier {
        resolved_name: decl.name.clone(),
        from_this_scope: true,
        external_linkage: true,
        defined,
    });
    let ghost names1 = resolved_names(m0).insert(old(decl).name@, old(decl).name);
    let ghost f1 = f0.insert(old(decl).name@, (true, true));
    proof {
        lemma_flags_insert(m0, old(decl).name@, map@[old(decl).name@]);
        lemma_resolved_names_insert(m0, old(decl).name@, map@[old(decl).name@]);
        assert(map@ == m0.insert(old(decl).name@, map@[old(decl).name@]));
        assert(resolved_names(map@) == names1);
    }
    let something_to_resolve = !(decl.params.len() == 0 && decl.body.is_none());
    if something_to_resolve {
        let mut inner = create_inner_scope(map);
        let np = decl.params.len();
        let mut i: usize = 0;
        proof {
            assert(old(decl).params@.take(0) =~= Seq::<FunctionParameter>::empty());
            assert(decl.params@.take(0) =~= Seq::<FunctionParameter>::empty());
            lemma_errors_none(d2);
        }
        while i < np
            invariant
                i <= np,
                np == decl.params@.len(),
                np == old(decl).params@.len(),
                decl.name == old(decl).name,
                decl.span == old(decl).span,
                decl.name_span == old(decl).name_span,
                decl.return_type == old(decl).return_type,
                decl.storage_class == old(decl).storage_class,
                decl.body == old(decl).body,
                extended(*old(diagnostics), *diagnostics),
                forall|j: int| i <= j < np ==> decl.params@[j] == old(decl).params@[j],
                forall|j: int| 0 <= j < i ==> {
                    &&& fresh_name_for((#[trigger] decl.params@[j]).name, old(decl).params@[j].name.0@)
                    &&& decl.params@[j].span == old(decl).params@[j].span
                    &&& decl.params@[j].ty == old(decl).params@[j].ty
                },
                resolved_names(inner@) == params_scope(old(decl).params@.take(i as int), decl.params@.take(i as int), names1),
                scope_flags(inner@) == params_res_effect(old(decl).params@.take(i as int), inner_flags(f1)).1,
                appended_errors(d2, *diagnostics, params_res_effect(old(decl).params@.take(i as int), inner_flags(f1)).0),
            decreases np - i,
        {
            let ghost before = decl.params@;
            let ghost di = *diagnostics;
            let ghost fi = scope_flags(inner@);
            resolve_parameter(&mut decl.params[i], &mut inner, diagnostics);
            proof {
                let pp = old(decl).params@[i as int];
                lemma_errors_trans(d2, di, *diagnostics, params_res_effect(old(decl).params@.take(i as int), inner_flags(f1)).0,
                    if fi.dom().contains(pp.name@) && fi[pp.name@].0 {
                        seq![(pp.span, "redeclaration of variable '"@ + pp.name.0@ + "'"@)]
                    } else {
                        seq![]
                    });
                assert(old(decl).params@.take(i + 1).drop_last() =~= old(decl).params@.take(i as int));
                assert(decl.params@.take(i + 1).drop_last() =~= before.take(i as int));
                assert(before.take(i as int) =~= decl.params@.take(i as int));
                assert(old(decl).params@.take(i + 1).last() == old(decl).params@[i as int]);
                assert(decl.params@.take(i + 1).last() == decl.params@[i as int]);
            }
            i = i + 1;
        }
        proof {
            assert(old(decl).params@.take(np as int) =~= old(decl).params@);
            assert(decl.params@.take(np as int) =~= decl.params@);
        }
        let ghost d3 = *diagnostics;
        let ghost ps = params_res_effect(old(decl).params@, inner_flags(f1));
        proof { lemma_errors_trans(*old(diagnostics), d2, d3, es + er, ps.0); }
        match &mut decl.body {
            Some(body) => {
                resolve_block(body, &mut inner, diagnostics);
                proof {
                    lemma_errors_trans(*old(diagnostics), d3, *diagnostics, es + er + ps.0,
                        items_res_effect(old(decl).body.unwrap()@, ps.1).0);
                }
            },
            None => {
                proof {
                    lemma_errors_none(d3);
                    lemma_errors_trans(*old(diagnostics), d3, d3, es + er + ps.0, seq![]);
                }
            },
        }
    } else {
        proof {
            assert(old(decl).params@.len() == 0);
            assert(params_res_effect(old(decl).params@, inner_flags(f1)).0 =~= Seq::<(Span, Seq<char>)>::empty());
            lemma_errors_none(d2);
            lemma_errors_trans(*old(diagnostics), d2, d2, es + er, seq![]);
            lemma_errors_trans(*old(diagnostics), d2, d2, es + er + seq![], seq![]);
        }
    }
}

/// Resolves every name of the program; returns what is known of the names in
/// file scope.
#[verifier::rlimit(80)]
#[verifier::spinoff_prover]
pub fn resolve_all_identifiers(program: &mut Program, diagnostics: &mut Diagnostics) -> (map: IdentifierMap)
    ensures
        extended(*old(diagnostics), *final(diagnostics)),
        final(program).0@.len() == old(program).0@.len(),
        quiet(*old(diagnostics), *final(diagnostics)) ==> forall|k: int| 0 <= k < final(program).0@.len()
            ==> declaration_lvalues_ok(#[trigger] final(program).0@[k]),
        decls_resolved(old(program).0@, final(program).0@, Map::empty()),
        resolved_names(map@) == decls_scope(old(program).0@, final(program).0@, Map::empty()),
        appended_errors(*old(diagnostics), *final(diagnostics), decls_res_effect(old(program).0@, Map::empty()).0),
{
    proof {
        lemma_extended_refl(*diagnostics);
        lemma_errors_none(*diagnostics);
    }
    let mut map: IdentifierMap = Table::new();
    let ghost orig = program.0@;
    proof {
        assert(resolved_names(map@) =~= Map::<crate::table::Key, Identifier>::empty());
        assert(scope_flags(map@) =~= Map::<crate::table::Key, (bool, bool)>::empty());
        assert(orig.take(0) =~= Seq::<Declaration>::empty());
        assert(program.0@.take(0) =~= Seq::<Declaration>::empty());
    }
    let n = program.0.len();
    let mut k: usize = 0;
    while k < n
        invariant
            k <= n,
            n == program.0@.len(),
            extended(*old(diagnostics), *diagnostics),
            quiet(*old(diagnostics), *diagnostics) ==> forall|j: int| 0 <= j < k ==> declaration_lvalues_ok(#[trigger] program.0@[j]),
            orig == old(program).0@,
            orig.len() == n,
            forall|j: int| k <= j < n ==> program.0@[j] == orig[j],
            decls_resolved(orig.take(k as int), program.0@.take(k as int), Map::empty()),
            resolved_names(map@) == decls_scope(orig.take(k as int), program.0@.take(k as int), Map::empty()),
            scope_flags(map@) == decls_res_effect(orig.take(k as int), Map::empty()).1,
            appended_errors(*old(diagnostics), *diagnostics, decls_res_effect(orig.take(k as int), Map::empty()).0),
        decreases n - k,
    {
        let ghost prev = program.0@;
        let ghost before = resolved_names(map@);
        let ghost dk = *diagnostics;
        let ghost fk = scope_flags(map@);
        match &mut program.0[k] {
            Declaration::Var(v) => resolve_variable_declaration(v, &mut map, diagnostics, Scope::Global),
            Declaration::Func(f) => resolve_function_declaration(f, &mut map, diagnostics, Scope::Global),
        }
        proof {
            assert forall|j: int| 0 <= j < k implies program.0@[j] == prev[j] by {}
            assert(program.0@.len() == prev.len());
            assert forall|j: int| 0 <= j < k implies program.0@.take(k + 1).drop_last()[j] == prev.take(k as int)[j] by {
                assert(program.0@[j] == prev[j]);
            }
            assert(orig.take(k + 1).drop_last() =~= orig.take(k as int));
            assert(program.0@.take(k + 1).drop_last() =~= prev.take(k as int));
            assert(prev.take(k as int) =~= program.0@.take(k as int));
            assert(orig.take(k + 1).last() == orig[k as int]);
            assert(program.0@.take(k + 1).last() == program.0@[k as int]);
            assert(decl_resolved(orig[k as int], program.0@[k as int], before));
            let q = match orig[k as int] {
                Declaration::Var(v) => var_res_effect(v, fk, Scope::Global),
                Declaration::Func(g) => func_res_effect(g, fk, Scope::Global),
            };
            lemma_errors_trans(*old(diagnostics), dk, *diagnostics, decls_res_effect(orig.take(k as int), Map::empty()).0, q.0);
        }
        k = k + 1;
    }
    proof {
        assert(orig.take(n as int) =~= orig);
        assert(program.0@.take(n as int) =~= program.0@);
    }
    map
}

} // verus!
