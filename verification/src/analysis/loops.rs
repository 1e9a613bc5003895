//! Gives `break` and `continue` the label of the loop or switch they leave.
use vstd::prelude::*;
use crate::diagnostics::{Diagnostics, Span, Stage};
use crate::parser::ast::{BlockItem, Declaration, Identifier, Program, Statement, StmtKind};
use crate::text::string_of;
use crate::analysis::reporting::{appended_errors, body_of, lemma_errors_none, lemma_errors_trans, report, Errors};
use crate::analysis::shape::{decl_same_code, decls_same_code, items_same_code, lemma_items_same_code_step, same_code};

verus! {

broadcast use vstd::std_specs::vec::axiom_spec_len;

/// Whether every `break` and `continue` in `s` carries the label of the
/// closest construct it leaves (`brk` for `break`, `cont` for `continue`,
/// where there is one).
pub open spec fn loops_labeled(s: Statement, brk: Option<Identifier>, cont: Option<Identifier>) -> bool
    decreases s,
{
    match s.kind {
        StmtKind::Break(i) => brk matches Some(l) ==> i == l,
        StmtKind::Continue(i) => cont matches Some(l) ==> i == l,
        StmtKind::If { then, else_, .. } => {
            &&& loops_labeled(*then, brk, cont)
            &&& match else_ {
                Some(e) => loops_labeled(*e, brk, cont),
                None => true,
            }
        },
        StmtKind::While { body, label, .. } => loops_labeled(*body, Some(label), Some(label)),
        StmtKind::DoWhile { body, label, .. } => loops_labeled(*body, Some(label), Some(label)),
        StmtKind::For { body, label, .. } => loops_labeled(*body, Some(label), Some(label)),
        StmtKind::Compound(items) => items_labeled(items@, brk, cont),
        StmtKind::Label(_, st) => loops_labeled(*st, brk, cont),
        StmtKind::Switch(sw) => loops_labeled(*sw.body, Some(sw.label), cont),
        StmtKind::Case { stmt, .. } => loops_labeled(*stmt, brk, cont),
        StmtKind::DefaultCase { stmt, .. } => loops_labeled(*stmt, brk, cont),
        _ => true,
    }
}

pub open spec fn items_labeled(items: Seq<BlockItem>, brk: Option<Identifier>, cont: Option<Identifier>) -> bool
    decreases items,
{
    if items.len() == 0 {
        true
    } else {
        &&& items_labeled(items.drop_last(), brk, cont)
        &&& match items.last() {
            BlockItem::Stmt(s) => loops_labeled(s, brk, cont),
            _ => true,
        }
    }
}

/// Whether `n` is `o` with each `break` given the label `brk` of the
/// closest construct it leaves and each `continue` the label `cont` of the
/// closest loop, where there is one; a `break` or `continue` with none keeps
/// its label, and nothing else changes.
pub open spec fn loops_relabeled(o: Statement, n: Statement, brk: Option<Identifier>, cont: Option<Identifier>) -> bool
    decreases o,
{
    &&& n.span == o.span
    &&& match (o.kind, n.kind) {
        (StmtKind::Break(a), StmtKind::Break(b)) => b == match brk {
            Some(l) => l,
            None => a,
        },
        (StmtKind::Continue(a), StmtKind::Continue(b)) => b == match cont {
            Some(l) => l,
            None => a,
        },
        (StmtKind::Label(a, s), StmtKind::Label(b, t)) => b == a && loops_relabeled(*s, *t, brk, cont),
        (StmtKind::If { cond: c1, then: t1, else_: e1 }, StmtKind::If { cond: c2, then: t2, else_: e2 }) => {
            &&& c2 == c1
            &&& loops_relabeled(*t1, *t2, brk, cont)
            &&& match (e1, e2) {
                (None, None) => true,
                (Some(x), Some(y)) => loops_relabeled(*x, *y, brk, cont),
                _ => false,
            }
        },
        (StmtKind::Compound(x), StmtKind::Compound(y)) => items_loops_relabeled(x@, y@, brk, cont),
        (StmtKind::While { cond: c1, body: b1, label: l1 }, StmtKind::While { cond: c2, body: b2, label: l2 }) =>
            l2 == l1 && c2 == c1 && loops_relabeled(*b1, *b2, Some(l1), Some(l1)),
        (StmtKind::DoWhile { body: b1, cond: c1, label: l1 }, StmtKind::DoWhile { body: b2, cond: c2, label: l2 }) =>
            l2 == l1 && c2 == c1 && loops_relabeled(*b1, *b2, Some(l1), Some(l1)),
        (
            StmtKind::For { init: i1, condition: c1, post: p1, body: b1, label: l1 },
            StmtKind::For { init: i2, condition: c2, post: p2, body: b2, label: l2 },
        ) => l2 == l1 && i2 == i1 && c2 == c1 && p2 == p1 && loops_relabeled(*b1, *b2, Some(l1), Some(l1)),
        (StmtKind::Switch(s1), StmtKind::Switch(s2)) => {
            &&& s2.label == s1.label
            &&& s2.value == s1.value
            &&& s2.case_set == s1.case_set
            &&& s2.cases == s1.cases
            &&& s2.default_case == s1.default_case
            &&& loops_relabeled(*s1.body, *s2.body, Some(s1.label), cont)
        },
        (
            StmtKind::Case { value: v1, label: l1, header_span: h1, stmt: s1 },
            StmtKind::Case { value: v2, label: l2, header_span: h2, stmt: s2 },
        ) => v2 == v1 && l2 == l1 && h2 == h1 && loops_relabeled(*s1, *s2, brk, cont),
        (
            StmtKind::DefaultCase { label: l1, header_span: h1, stmt: s1 },
            StmtKind::DefaultCase { label: l2, header_span: h2, stmt: s2 },
        ) => l2 == l1 && h2 == h1 && loops_relabeled(*s1, *s2, brk, cont),
        (StmtKind::Break(_), _) | (StmtKind::Continue(_), _) | (StmtKind::Label(..), _) | (StmtKind::If { .. }, _)
            | (StmtKind::Compound(_), _) | (StmtKind::While { .. }, _) | (StmtKind::DoWhile { .. }, _)
            | (StmtKind::For { .. }, _) | (StmtKind::Switch(_), _) | (StmtKind::Case { .. }, _)
            | (StmtKind::DefaultCase { .. }, _) => false,
        (a, b) => b == a,
    }
}

/// Block items, each statement relabeled as `loops_relabeled` says and each
/// declaration unchanged.
pub open spec fn items_loops_relabeled(o: Seq<BlockItem>, n: Seq<BlockItem>, brk: Option<Identifier>, cont: Option<Identifier>) -> bool
    decreases o,
{
    &&& n.len() == o.len()
    &&& o.len() > 0 ==> {
        &&& items_loops_relabeled(o.drop_last(), n.drop_last(), brk, cont)
        &&& match (o.last(), n.last()) {
            (BlockItem::Stmt(s), BlockItem::Stmt(t)) => loops_relabeled(s, t, brk, cont),
            (BlockItem::Decl(d), BlockItem::Decl(e)) => e == d,
            _ => false,
        }
    }
}

/// A declaration whose body, if it is a function with one, has its loops
/// relabeled from outside any loop or switch, and nothing else changed.
pub open spec fn decl_loops_relabeled(o: Declaration, n: Declaration) -> bool {
    match (o, n) {
        (Declaration::Var(a), Declaration::Var(b)) => b == a,
        (Declaration::Func(f), Declaration::Func(g)) => {
            &&& g.name == f.name
            &&& g.params == f.params
            &&& g.span == f.span
            &&& g.name_span == f.name_span
            &&& g.storage_class == f.storage_class
            &&& g.return_type == f.return_type
            &&& match (f.body, g.body) {
                (None, None) => true,
                (Some(x), Some(y)) => items_loops_relabeled(x@, y@, None, None),
                _ => false,
            }
        },
        _ => false,
    }
}

/// The errors for the `break` statements outside any loop or switch, and the
/// `continue` statements outside any loop, in `s`, in order (`brk` and `cont`
/// tell whether `s` itself stands in such a construct).
pub open spec fn orphans(s: Statement, brk: bool, cont: bool) -> Errors
    decreases s,
{
    match s.kind {
        StmtKind::Break(_) => if brk { seq![] } else { seq![(s.span, "'break' outside of a loop or switch"@)] },
        StmtKind::Continue(_) => if cont { seq![] } else { seq![(s.span, "'continue' outside of a loop"@)] },
        StmtKind::If { then, else_, .. } => orphans(*then, brk, cont) + match else_ {
            Some(e) => orphans(*e, brk, cont),
            None => seq![],
        },
        StmtKind::While { body, .. } => orphans(*body, true, true),
        StmtKind::DoWhile { body, .. } => orphans(*body, true, true),
        StmtKind::For { body, .. } => orphans(*body, true, true),
        StmtKind::Compound(items) => items_orphans(items@, brk, cont),
        StmtKind::Label(_, st) => orphans(*st, brk, cont),
        StmtKind::Switch(sw) => orphans(*sw.body, true, cont),
        StmtKind::Case { stmt, .. } => orphans(*stmt, brk, cont),
        StmtKind::DefaultCase { stmt, .. } => orphans(*stmt, brk, cont),
        _ => seq![],
    }
}

pub open spec fn items_orphans(items: Seq<BlockItem>, brk: bool, cont: bool) -> Errors
    decreases items,
{
    if items.len() == 0 {
        seq![]
    } else {
        items_orphans(items.drop_last(), brk, cont) + match items.last() {
            BlockItem::Stmt(s) => orphans(s, brk, cont),
            _ => seq![],
        }
    }
}

/// The label held by an optional reference.
pub open spec fn label_of(l: Option<&Identifier>) -> Option<Identifier> {
    match l {
        Some(i) => Some(*i),
        None => None,
    }
}

fn loop_labeling(stmt: &mut Statement, brk: Option<&Identifier>, cont: Option<&Identifier>, diagnostics: &mut Diagnostics)
    ensures
        loops_labeled(*final(stmt), label_of(brk), label_of(cont)),
        orphans(*final(stmt), brk is Some, cont is Some) == orphans(*old(stmt), brk is Some, cont is Some),
        appended_errors(*old(diagnostics), *final(diagnostics), orphans(*old(stmt), brk is Some, cont is Some)),
        same_code(*old(stmt), *final(stmt)),
        loops_relabeled(*old(stmt), *final(stmt), label_of(brk), label_of(cont)),
    decreases *old(stmt),
{
    let span = stmt.span.start..stmt.span.end;
    match &mut stmt.kind {
        StmtKind::Break(i) => match brk {
            Some(l) => {
                *i = l.clone();
                proof { lemma_errors_none(*diagnostics); }
            },
            None => report(diagnostics, span, "'break' outside of a loop or switch"),
        },
        StmtKind::Continue(i) => match cont {
            Some(l) => {
                *i = l.clone();
                proof { lemma_errors_none(*diagnostics); }
            },
            None => report(diagnostics, span, "'continue' outside of a loop"),
        },
        StmtKind::If { then, else_, .. } => {
            let ghost d0 = *diagnostics;
            loop_labeling(then, brk, cont, diagnostics);
            let ghost d1 = *diagnostics;
            match else_ {
                Some(e) => {
                    loop_labeling(e, brk, cont, diagnostics);
                    proof { lemma_errors_trans(d0, d1, *diagnostics, orphans(*old(stmt).kind->then, brk is Some, cont is Some), orphans(*(old(stmt).kind->else_).unwrap(), brk is Some, cont is Some)); }
                },
                None => {},
            }
        },
        StmtKind::While { body, label, .. } => {
            loop_labeling(body, Some(&*label), Some(&*label), diagnostics);
        },
        StmtKind::DoWhile { body, label, .. } => {
            loop_labeling(body, Some(&*label), Some(&*label), diagnostics);
        },
        StmtKind::For { body, label, .. } => {
            loop_labeling(body, Some(&*label), Some(&*label), diagnostics);
        },
        StmtKind::Compound(items) => {
            label_items(items, brk, cont, diagnostics);
        },
        StmtKind::Label(_, s) => {
            loop_labeling(s, brk, cont, diagnostics);
        },
        StmtKind::Switch(sw) => {
            loop_labeling(&mut sw.body, Some(&sw.label), cont, diagnostics);
        },
        StmtKind::Case { stmt: s, .. } => {
            loop_labeling(s, brk, cont, diagnostics);
        },
        StmtKind::DefaultCase { stmt: s, .. } => {
            loop_labeling(s, brk, cont, diagnostics);
        },
        _ => {
            proof { lemma_errors_none(*diagnostics); }
        },
    }
}

fn label_items(items: &mut Vec<BlockItem>, brk: Option<&Identifier>, cont: Option<&Identifier>, diagnostics: &mut Diagnostics)
    ensures
        items_labeled(final(items)@, label_of(brk), label_of(cont)),
        items_orphans(final(items)@, brk is Some, cont is Some) == items_orphans(old(items)@, brk is Some, cont is Some),
        appended_errors(*old(diagnostics), *final(diagnostics), items_orphans(old(items)@, brk is Some, cont is Some)),
        items_same_code(old(items)@, final(items)@),
        items_loops_relabeled(old(items)@, final(items)@, label_of(brk), label_of(cont)),
    decreases *old(items),
{
    let ghost old_items = items@;
    assert(old_items == old(items)@);
    let n = items.len();
    let mut k: usize = 0;
    proof { lemma_errors_none(*diagnostics); }
    while k < n
        invariant
            n == items@.len(),
            old_items.len() == n,
            old_items == old(items)@,
            k <= n,
            forall|j: int| k <= j < n ==> items@[j] == old_items[j],
            items_labeled(items@.take(k as int), label_of(brk), label_of(cont)),
            items_orphans(items@.take(k as int), brk is Some, cont is Some) == items_orphans(old_items.take(k as int), brk is Some, cont is Some),
            appended_errors(*old(diagnostics), *diagnostics, items_orphans(old_items.take(k as int), brk is Some, cont is Some)),
            items_same_code(old_items.take(k as int), items@.take(k as int)),
            items_loops_relabeled(old_items.take(k as int), items@.take(k as int), label_of(brk), label_of(cont)),
        decreases n - k,
    {
        let ghost before = *diagnostics;
        let ghost prev = items@;
        match &mut items[k] {
            BlockItem::Stmt(s) => {
                proof {
                    vstd::std_specs::vec::axiom_vec_index_decreases(*old(items), k as int);
                    assert(decreases_to!(*old(items) => *s));
                }
                loop_labeling(s, brk, cont, diagnostics);
            },
            _ => {
                proof { lemma_errors_none(*diagnostics); }
            },
        }
        proof {
            assert(items@.take(k + 1).drop_last() =~= items@.take(k as int));
            assert(old_items.take(k + 1).drop_last() =~= old_items.take(k as int));
            assert(items@.take(k as int) =~= prev.take(k as int));
            lemma_errors_trans(*old(diagnostics), before, *diagnostics,
                items_orphans(old_items.take(k as int), brk is Some, cont is Some),
                match old_items[k as int] { BlockItem::Stmt(s) => orphans(s, brk is Some, cont is Some), _ => Seq::<(Span, Seq<char>)>::empty() });
            lemma_items_same_code_step(old_items, items@, k as int);
            assert(items_loops_relabeled(old_items.take(k + 1), items@.take(k + 1), label_of(brk), label_of(cont)));
        }
        k = k + 1;
    }
    proof {
        assert(items@.take(n as int) =~= items@);
        assert(old_items.take(n as int) =~= old_items);
    }
}

/// The misplaced `break`/`continue` statements in the function bodies of `ds`.
pub open spec fn decls_orphans(ds: Seq<Declaration>) -> Errors
    decreases ds.len(),
{
    if ds.len() == 0 {
        seq![]
    } else {
        decls_orphans(ds.drop_last()) + match body_of(ds.last()) {
            Some(b) => items_orphans(b, false, false),
            None => seq![],
        }
    }
}

/// Labels every `break` and `continue` in the function bodies; an error is
/// reported, at its span, for each that stands outside any loop (or, for
/// `break`, switch).
pub fn label_all_loops(program: &mut Program, diagnostics: &mut Diagnostics)
    ensures
        final(program).0@.len() == old(program).0@.len(),
        forall|k: int| 0 <= k < final(program).0@.len() ==> (body_of(#[trigger] final(program).0@[k]) is Some
            <==> body_of(old(program).0@[k]) is Some),
        forall|k: int| 0 <= k < final(program).0@.len() ==> (body_of(#[trigger] final(program).0@[k]) matches Some(b)
            ==> items_labeled(b, None, None)),
        appended_errors(*old(diagnostics), *final(diagnostics), decls_orphans(old(program).0@)),
        decls_same_code(old(program).0@, final(program).0@),
        forall|k: int| 0 <= k < old(program).0@.len() ==> decl_loops_relabeled(#[trigger] old(program).0@[k], final(program).0@[k]),
{
    let ghost old_decls = program.0@;
    let n = program.0.len();
    let mut k: usize = 0;
    proof { lemma_errors_none(*diagnostics); }
    while k < n
        invariant
            n == program.0@.len(),
            old_decls.len() == n,
            old_decls == old(program).0@,
            k <= n,
            forall|j: int| k <= j < n ==> program.0@[j] == old_decls[j],
            forall|j: int| 0 <= j < n ==> (body_of(#[trigger] program.0@[j]) is Some <==> body_of(old_decls[j]) is Some),
            forall|j: int| 0 <= j < k ==> (body_of(#[trigger] program.0@[j]) matches Some(b) ==> items_labeled(b, None, None)),
            appended_errors(*old(diagnostics), *diagnostics, decls_orphans(old_decls.take(k as int))),
            forall|j: int| 0 <= j < k ==> decl_same_code(#[trigger] old_decls[j], program.0@[j]),
            forall|j: int| 0 <= j < k ==> decl_loops_relabeled(#[trigger] old_decls[j], program.0@[j]),
        decreases n - k,
    {
        let ghost before = *diagnostics;
        let ghost prev = program.0@;
        match &mut program.0[k] {
            Declaration::Func(f) => match &mut f.body {
                Some(b) => {
                    label_items(b, None, None, diagnostics);
                },
                None => {
                    proof { lemma_errors_none(*diagnostics); }
                },
            },
            _ => {
                proof { lemma_errors_none(*diagnostics); }
            },
        }
        proof {
            assert forall|j: int| 0 <= j < k implies program.0@[j] == prev[j] by {}
            assert(old_decls.take(k + 1).drop_last() =~= old_decls.take(k as int));
            lemma_errors_trans(*old(diagnostics), before, *diagnostics,
                decls_orphans(old_decls.take(k as int)),
                match body_of(old_decls[k as int]) { Some(b) => items_orphans(b, false, false), None => Seq::<(Span, Seq<char>)>::empty() });
        }
        k = k + 1;
    }
    proof {
        assert(old_decls.take(n as int) =~= old_decls);
    }
}

} // verus!
