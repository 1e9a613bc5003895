//! What the passes that only name jumps leave alone.
use vstd::prelude::*;
use crate::parser::ast::{BlockItem, Declaration, FunctionDeclaration, Statement, StmtKind};

verus! {

/// Whether `n` is `o` up to the names that jumps use: the targets of
/// `break`, `continue` and `goto`, the names of labeled statements, and the
/// cases a switch records may differ; every expression, declaration, loop
/// label, case and statement kind is the same.
pub open spec fn same_code(o: Statement, n: Statement) -> bool
    decreases o,
{
    &&& n.span == o.span
    &&& match (o.kind, n.kind) {
        (StmtKind::Return(a), StmtKind::Return(b)) => b == a,
        (StmtKind::Expression(a), StmtKind::Expression(b)) => b == a,
        (StmtKind::If { cond: c1, then: t1, else_: e1 }, StmtKind::If { cond: c2, then: t2, else_: e2 }) => {
            &&& c2 == c1
            &&& same_code(*t1, *t2)
            &&& match (e1, e2) {
                (None, None) => true,
                (Some(x), Some(y)) => same_code(*x, *y),
                _ => false,
            }
        },
        (StmtKind::Null, StmtKind::Null) => true,
        (StmtKind::Goto(_), StmtKind::Goto(_)) => true,
        (StmtKind::Break(_), StmtKind::Break(_)) => true,
        (StmtKind::Continue(_), StmtKind::Continue(_)) => true,
        (StmtKind::Label(_, s), StmtKind::Label(_, t)) => same_code(*s, *t),
        (StmtKind::Compound(x), StmtKind::Compound(y)) => items_same_code(x@, y@),
        (StmtKind::While { cond: c1, body: b1, label: l1 }, StmtKind::While { cond: c2, body: b2, label: l2 }) =>
            l2 == l1 && c2 == c1 && same_code(*b1, *b2),
        (StmtKind::DoWhile { body: b1, cond: c1, label: l1 }, StmtKind::DoWhile { body: b2, cond: c2, label: l2 }) =>
            l2 == l1 && c2 == c1 && same_code(*b1, *b2),
        (
            StmtKind::For { init: i1, condition: c1, post: p1, body: b1, label: l1 },
            StmtKind::For { init: i2, condition: c2, post: p2, body: b2, label: l2 },
        ) => l2 == l1 && i2 == i1 && c2 == c1 && p2 == p1 && same_code(*b1, *b2),
        (StmtKind::Switch(s1), StmtKind::Switch(s2)) =>
            s2.label == s1.label && s2.value == s1.value && same_code(*s1.body, *s2.body),
        (
            StmtKind::Case { value: v1, label: l1, header_span: h1, stmt: s1 },
            StmtKind::Case { value: v2, label: l2, header_span: h2, stmt: s2 },
        ) => v2 == v1 && l2 == l1 && h2 == h1 && same_code(*s1, *s2),
        (
            StmtKind::DefaultCase { label: l1, header_span: h1, stmt: s1 },
            StmtKind::DefaultCase { label: l2, header_span: h2, stmt: s2 },
        ) => l2 == l1 && h2 == h1 && same_code(*s1, *s2),
        _ => false,
    }
}

/// Block items, each the same code: statements up to jump names,
/// declarations unchanged.
pub open spec fn items_same_code(o: Seq<BlockItem>, n: Seq<BlockItem>) -> bool
    decreases o,
{
    &&& n.len() == o.len()
    &&& o.len() > 0 ==> {
        &&& items_same_code(o.drop_last(), n.drop_last())
        &&& match (o.last(), n.last()) {
            (BlockItem::Stmt(s), BlockItem::Stmt(t)) => same_code(s, t),
            (BlockItem::Decl(d), BlockItem::Decl(e)) => e == d,
            _ => false,
        }
    }
}

/// A function declaration whose body, if any, is the same code.
pub open spec fn function_same_code(o: FunctionDeclaration, n: FunctionDeclaration) -> bool {
    &&& n.name == o.name
    &&& n.params == o.params
    &&& n.return_type == o.return_type
    &&& n.storage_class == o.storage_class
    &&& n.span == o.span
    &&& n.name_span == o.name_span
    &&& match (o.body, n.body) {
        (None, None) => true,
        (Some(a), Some(b)) => items_same_code(a@, b@),
        _ => false,
    }
}

/// A file-scope declaration: a variable unchanged, a function the same code.
pub open spec fn decl_same_code(o: Declaration, n: Declaration) -> bool {
    match (o, n) {
        (Declaration::Var(a), Declaration::Var(b)) => b == a,
        (Declaration::Func(f), Declaration::Func(g)) => function_same_code(f, g),
        _ => false,
    }
}

/// Each declaration of a program the same code.
pub open spec fn decls_same_code(o: Seq<Declaration>, n: Seq<Declaration>) -> bool {
    &&& n.len() == o.len()
    &&& forall|k: int| 0 <= k < o.len() ==> decl_same_code(#[trigger] o[k], n[k])
}

/// Every statement is the same code as itself.
pub proof fn lemma_same_code_refl(s: Statement)
    ensures
        same_code(s, s),
    decreases s,
{
    match s.kind {
        StmtKind::If { then, else_, .. } => {
            lemma_same_code_refl(*then);
            match else_ {
                Some(e) => lemma_same_code_refl(*e),
                None => {},
            }
        },
        StmtKind::Label(_, t) => lemma_same_code_refl(*t),
        StmtKind::Compound(items) => lemma_items_same_code_refl(items@),
        StmtKind::While { body, .. } => lemma_same_code_refl(*body),
        StmtKind::DoWhile { body, .. } => lemma_same_code_refl(*body),
        StmtKind::For { body, .. } => lemma_same_code_refl(*body),
        StmtKind::Switch(sw) => lemma_same_code_refl(*sw.body),
        StmtKind::Case { stmt, .. } => lemma_same_code_refl(*stmt),
        StmtKind::DefaultCase { stmt, .. } => lemma_same_code_refl(*stmt),
        _ => {},
    }
}

/// Every list of block items is the same code as itself.
pub proof fn lemma_items_same_code_refl(items: Seq<BlockItem>)
    ensures
        items_same_code(items, items),
    decreases items,
{
    if items.len() > 0 {
        lemma_items_same_code_refl(items.drop_last());
        match items.last() {
            BlockItem::Stmt(s) => lemma_same_code_refl(s),
            _ => {},
        }
    }
}

/// The items of `o` taken up to `k + 1` are the same code as those of `n`
/// when they were up to `k` and the `k`th pair is.
pub(crate) proof fn lemma_items_same_code_step(o: Seq<BlockItem>, n: Seq<BlockItem>, k: int)
    requires
        0 <= k < o.len(),
        k < n.len(),
        items_same_code(o.take(k), n.take(k)),
        match (o[k], n[k]) {
            (BlockItem::Stmt(s), BlockItem::Stmt(t)) => same_code(s, t),
            (BlockItem::Decl(d), BlockItem::Decl(e)) => e == d,
            _ => false,
        },
    ensures
        items_same_code(o.take(k + 1), n.take(k + 1)),
{
    assert(o.take(k + 1).drop_last() =~= o.take(k));
    assert(n.take(k + 1).drop_last() =~= n.take(k));
}

} // verus!
