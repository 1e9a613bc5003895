//! Labels and `goto`: each label and target gets its function's name as a
//! suffix, and every target must name a label of its function, once.
use vstd::prelude::*;
use crate::analysis::reporting::{appended_errors, body_of, lemma_errors_none, lemma_errors_trans, report_string, Errors};
use crate::analysis::shape::{decl_same_code, decls_same_code, items_same_code, lemma_items_same_code_step, same_code};
use crate::diagnostics::{Diagnostics, Span};
use crate::parser::ast::{BlockItem, Declaration, Identifier, Program, Statement, StmtKind};
use crate::table::Key;
use crate::text::{push_str, push_string, string_of};

verus! {

broadcast use vstd::std_specs::vec::axiom_spec_len;

/// The names of the labels of a statement, in order.
pub open spec fn label_names(s: Statement) -> Seq<Key>
    decreases s,
{
    match s.kind {
        StmtKind::Label(i, st) => seq![i@] + label_names(*st),
        StmtKind::If { then, else_, .. } => label_names(*then) + match else_ {
            Some(e) => label_names(*e),
            None => seq![],
        },
        StmtKind::While { body, .. } => label_names(*body),
        StmtKind::DoWhile { body, .. } => label_names(*body),
        StmtKind::For { body, .. } => label_names(*body),
        StmtKind::Switch(sw) => label_names(*sw.body),
        StmtKind::Case { stmt, .. } => label_names(*stmt),
        StmtKind::DefaultCase { stmt, .. } => label_names(*stmt),
        StmtKind::Compound(items) => items_label_names(items@),
        _ => seq![],
    }
}

pub open spec fn items_label_names(items: Seq<BlockItem>) -> Seq<Key>
    decreases items,
{
    if items.len() == 0 {
        seq![]
    } else {
        items_label_names(items.drop_last()) + match items.last() {
            BlockItem::Stmt(s) => label_names(s),
            _ => seq![],
        }
    }
}

/// The targets of the `goto` statements of a statement, in order.
pub open spec fn goto_names(s: Statement) -> Seq<Key>
    decreases s,
{
    match s.kind {
        StmtKind::Goto(i) => seq![i@],
        StmtKind::Label(_, st) => goto_names(*st),
        StmtKind::If { then, else_, .. } => goto_names(*then) + match else_ {
            Some(e) => goto_names(*e),
            None => seq![],
        },
        StmtKind::While { body, .. } => goto_names(*body),
        StmtKind::DoWhile { body, .. } => goto_names(*body),
        StmtKind::For { body, .. } => goto_names(*body),
        StmtKind::Switch(sw) => goto_names(*sw.body),
        StmtKind::Case { stmt, .. } => goto_names(*stmt),
        StmtKind::DefaultCase { stmt, .. } => goto_names(*stmt),
        StmtKind::Compound(items) => items_goto_names(items@),
        _ => seq![],
    }
}

pub open spec fn items_goto_names(items: Seq<BlockItem>) -> Seq<Key>
    decreases items,
{
    if items.len() == 0 {
        seq![]
    } else {
        items_goto_names(items.drop_last()) + match items.last() {
            BlockItem::Stmt(s) => goto_names(s),
            _ => seq![],
        }
    }
}

/// The labels of a statement, each with the span of the statement it
/// labels, in order.
pub open spec fn label_places(s: Statement) -> Seq<(Key, Span)>
    decreases s,
{
    match s.kind {
        StmtKind::Label(i, st) => seq![(i@, s.span)] + label_places(*st),
        StmtKind::If { then, else_, .. } => label_places(*then) + match else_ {
            Some(e) => label_places(*e),
            None => seq![],
        },
        StmtKind::While { body, .. } => label_places(*body),
        StmtKind::DoWhile { body, .. } => label_places(*body),
        StmtKind::For { body, .. } => label_places(*body),
        StmtKind::Switch(sw) => label_places(*sw.body),
        StmtKind::Case { stmt, .. } => label_places(*stmt),
        StmtKind::DefaultCase { stmt, .. } => label_places(*stmt),
        StmtKind::Compound(items) => items_label_places(items@),
        _ => seq![],
    }
}

pub open spec fn items_label_places(items: Seq<BlockItem>) -> Seq<(Key, Span)>
    decreases items,
{
    if items.len() == 0 {
        seq![]
    } else {
        items_label_places(items.drop_last()) + match items.last() {
            BlockItem::Stmt(s) => label_places(s),
            _ => seq![],
        }
    }
}

/// The targets of the `goto` statements of a statement, each with the
/// statement's span, in order.
pub open spec fn goto_places(s: Statement) -> Seq<(Key, Span)>
    decreases s,
{
    match s.kind {
        StmtKind::Goto(i) => seq![(i@, s.span)],
        StmtKind::Label(_, st) => goto_places(*st),
        StmtKind::If { then, else_, .. } => goto_places(*then) + match else_ {
            Some(e) => goto_places(*e),
            None => seq![],
        },
        StmtKind::While { body, .. } => goto_places(*body),
        StmtKind::DoWhile { body, .. } => goto_places(*body),
        StmtKind::For { body, .. } => goto_places(*body),
        StmtKind::Switch(sw) => goto_places(*sw.body),
        StmtKind::Case { stmt, .. } => goto_places(*stmt),
        StmtKind::DefaultCase { stmt, .. } => goto_places(*stmt),
        StmtKind::Compound(items) => items_goto_places(items@),
        _ => seq![],
    }
}

pub open spec fn items_goto_places(items: Seq<BlockItem>) -> Seq<(Key, Span)>
    decreases items,
{
    if items.len() == 0 {
        seq![]
    } else {
        items_goto_places(items.drop_last()) + match items.last() {
            BlockItem::Stmt(s) => goto_places(s),
            _ => seq![],
        }
    }
}

/// A name with `suffix` appended to its generated text.
pub open spec fn suffixed(k: Key, suffix: Seq<char>) -> Key {
    (k.0 + suffix, k.1)
}

pub open spec fn all_suffixed(s: Seq<Key>, suffix: Seq<char>) -> Seq<Key> {
    s.map_values(|k: Key| suffixed(k, suffix))
}

proof fn lemma_suffixed_concat(a: Seq<Key>, b: Seq<Key>, suffix: Seq<char>)
    ensures
        all_suffixed(a + b, suffix) == all_suffixed(a, suffix) + all_suffixed(b, suffix),
{
    assert(all_suffixed(a + b, suffix) =~= all_suffixed(a, suffix) + all_suffixed(b, suffix));
}

/// Whether `n` is statement `o` with `suffix` appended to the name of each
/// label and `goto` target, and nothing else changed.
pub open spec fn jumps_renamed(o: Statement, n: Statement, suffix: Seq<char>) -> bool
    decreases o,
{
    &&& n.span == o.span
    &&& match (o.kind, n.kind) {
        (StmtKind::Goto(a), StmtKind::Goto(b)) => b@ == suffixed(a@, suffix),
        (StmtKind::Label(a, s), StmtKind::Label(b, t)) => b@ == suffixed(a@, suffix) && jumps_renamed(*s, *t, suffix),
        (StmtKind::If { cond: c1, then: t1, else_: e1 }, StmtKind::If { cond: c2, then: t2, else_: e2 }) => {
            &&& c2 == c1
            &&& jumps_renamed(*t1, *t2, suffix)
            &&& match (e1, e2) {
                (None, None) => true,
                (Some(x), Some(y)) => jumps_renamed(*x, *y, suffix),
                _ => false,
            }
        },
        (StmtKind::Compound(x), StmtKind::Compound(y)) => items_jumps_renamed(x@, y@, suffix),
        (StmtKind::While { cond: c1, body: b1, label: l1 }, StmtKind::While { cond: c2, body: b2, label: l2 }) =>
            l2 == l1 && c2 == c1 && jumps_renamed(*b1, *b2, suffix),
        (StmtKind::DoWhile { body: b1, cond: c1, label: l1 }, StmtKind::DoWhile { body: b2, cond: c2, label: l2 }) =>
            l2 == l1 && c2 == c1 && jumps_renamed(*b1, *b2, suffix),
        (
            StmtKind::For { init: i1, condition: c1, post: p1, body: b1, label: l1 },
            StmtKind::For { init: i2, condition: c2, post: p2, body: b2, label: l2 },
        ) => l2 == l1 && i2 == i1 && c2 == c1 && p2 == p1 && jumps_renamed(*b1, *b2, suffix),
        (StmtKind::Switch(s1), StmtKind::Switch(s2)) => {
            &&& s2.label == s1.label
            &&& s2.value == s1.value
            &&& s2.case_set == s1.case_set
            &&& s2.cases == s1.cases
            &&& s2.default_case == s1.default_case
            &&& jumps_renamed(*s1.body, *s2.body, suffix)
        },
        (
            StmtKind::Case { value: v1, label: l1, header_span: h1, stmt: s1 },
            StmtKind::Case { value: v2, label: l2, header_span: h2, stmt: s2 },
        ) => v2 == v1 && l2 == l1 && h2 == h1 && jumps_renamed(*s1, *s2, suffix),
        (
            StmtKind::DefaultCase { label: l1, header_span: h1, stmt: s1 },
            StmtKind::DefaultCase { label: l2, header_span: h2, stmt: s2 },
        ) => l2 == l1 && h2 == h1 && jumps_renamed(*s1, *s2, suffix),
        (StmtKind::Goto(_), _) | (StmtKind::Label(..), _) | (StmtKind::If { .. }, _) | (StmtKind::Compound(_), _)
            | (StmtKind::While { .. }, _) | (StmtKind::DoWhile { .. }, _) | (StmtKind::For { .. }, _)
            | (StmtKind::Switch(_), _) | (StmtKind::Case { .. }, _) | (StmtKind::DefaultCase { .. }, _) => false,
        (a, b) => b == a,
    }
}

/// Block items, each with its jumps renamed: declarations unchanged.
pub open spec fn items_jumps_renamed(o: Seq<BlockItem>, n: Seq<BlockItem>, suffix: Seq<char>) -> bool
    decreases o,
{
    &&& n.len() == o.len()
    &&& o.len() > 0 ==> {
        &&& items_jumps_renamed(o.drop_last(), n.drop_last(), suffix)
        &&& match (o.last(), n.last()) {
            (BlockItem::Stmt(s), BlockItem::Stmt(t)) => jumps_renamed(s, t, suffix),
            (BlockItem::Decl(d), BlockItem::Decl(e)) => e == d,
            _ => false,
        }
    }
}

fn rename_statement(stmt: &mut Statement, suffix: &String)
    ensures
        label_names(*final(stmt)) == all_suffixed(label_names(*old(stmt)), suffix@),
        goto_names(*final(stmt)) == all_suffixed(goto_names(*old(stmt)), suffix@),
        same_code(*old(stmt), *final(stmt)),
        jumps_renamed(*old(stmt), *final(stmt), suffix@),
    decreases *old(stmt),
{
    match &mut stmt.kind {
        StmtKind::Goto(i) => {
            let mut s = i.0.clone();
            push_string(&mut s, suffix);
            *i = Identifier(s, i.1.clone());
            proof {
                assert(all_suffixed(seq![old(stmt).kind->Goto_0@], suffix@) =~= seq![i@]);
                assert(all_suffixed(seq![], suffix@) =~= seq![]);
            }
        },
        StmtKind::Label(i, st) => {
            let mut s = i.0.clone();
            push_string(&mut s, suffix);
            *i = Identifier(s, i.1.clone());
            rename_statement(st, suffix);
            proof {
                lemma_suffixed_concat(seq![old(stmt).kind->Label_0@], label_names(*old(stmt).kind->Label_1), suffix@);
                assert(all_suffixed(seq![old(stmt).kind->Label_0@], suffix@) =~= seq![i@]);
            }
        },
        StmtKind::If { then, else_, .. } => {
            rename_statement(then, suffix);
            match else_ {
                Some(e) => {
                    rename_statement(e, suffix);
                    proof {
                        lemma_suffixed_concat(label_names(*old(stmt).kind->then), label_names(*old(stmt).kind->else_.unwrap()), suffix@);
                        lemma_suffixed_concat(goto_names(*old(stmt).kind->then), goto_names(*old(stmt).kind->else_.unwrap()), suffix@);
                    }
                },
                None => {
                    proof {
                        lemma_suffixed_concat(label_names(*old(stmt).kind->then), seq![], suffix@);
                        lemma_suffixed_concat(goto_names(*old(stmt).kind->then), seq![], suffix@);
                        assert(all_suffixed(seq![], suffix@) =~= seq![]);
                    }
                },
            }
        },
        StmtKind::While { body, .. } => rename_statement(body, suffix),
        StmtKind::DoWhile { body, .. } => rename_statement(body, suffix),
        StmtKind::For { body, .. } => rename_statement(body, suffix),
        StmtKind::Switch(sw) => rename_statement(&mut sw.body, suffix),
        StmtKind::Case { stmt: s, .. } => rename_statement(s, suffix),
        StmtKind::DefaultCase { stmt: s, .. } => rename_statement(s, suffix),
        StmtKind::Compound(items) => rename_items(items, suffix),
        _ => {
            proof {
                assert(all_suffixed(seq![], suffix@) =~= seq![]);
            }
        },
    }
}

fn rename_items(items: &mut Vec<BlockItem>, suffix: &String)
    ensures
        items_label_names(final(items)@) == all_suffixed(items_label_names(old(items)@), suffix@),
        items_goto_names(final(items)@) == all_suffixed(items_goto_names(old(items)@), suffix@),
        items_same_code(old(items)@, final(items)@),
        items_jumps_renamed(old(items)@, final(items)@, suffix@),
    decreases *old(items),
{
    let ghost orig = items@;
    let n = items.len();
    let mut k: usize = 0;
    proof {
        assert(all_suffixed(seq![], suffix@) =~= seq![]);
    }
    while k < n
        invariant
            n == items@.len(),
            orig == old(items)@,
            orig.len() == n,
            k <= n,
            forall|j: int| k <= j < n ==> items@[j] == orig[j],
            items_label_names(items@.take(k as int)) == all_suffixed(items_label_names(orig.take(k as int)), suffix@),
            items_goto_names(items@.take(k as int)) == all_suffixed(items_goto_names(orig.take(k as int)), suffix@),
            items_same_code(orig.take(k as int), items@.take(k as int)),
            items_jumps_renamed(orig.take(k as int), items@.take(k as int), suffix@),
        decreases n - k,
    {
        let ghost prev = items@;
        proof {
            vstd::std_specs::vec::axiom_vec_index_decreases(*old(items), k as int);
        }
        match &mut items[k] {
            BlockItem::Stmt(s) => rename_statement(s, suffix),
            _ => {},
        }
        proof {
            assert(items@.take(k + 1).drop_last() =~= items@.take(k as int));
            assert(orig.take(k + 1).drop_last() =~= orig.take(k as int));
            assert(items@.take(k as int) =~= prev.take(k as int));
            let ol = match orig[k as int] { BlockItem::Stmt(s) => label_names(s), _ => seq![] };
            let og = match orig[k as int] { BlockItem::Stmt(s) => goto_names(s), _ => seq![] };
            lemma_suffixed_concat(items_label_names(orig.take(k as int)), ol, suffix@);
            lemma_suffixed_concat(items_goto_names(orig.take(k as int)), og, suffix@);
            assert(all_suffixed(seq![], suffix@) =~= seq![]);
            lemma_items_same_code_step(orig, items@, k as int);
        }
        k = k + 1;
    }
    proof {
        assert(items@.take(n as int) =~= items@);
        assert(orig.take(n as int) =~= orig);
    }
}

/// The suffix a function's labels get: a dot and the function's name.
pub open spec fn label_suffix(f: Seq<char>) -> Seq<char> {
    "."@ + f
}

/// Whether `n` is declaration `o` with the labels and `goto` targets of its
/// body, if it is a function with one, renamed with the function's suffix,
/// and nothing else changed.
pub open spec fn decl_jumps_renamed(o: Declaration, n: Declaration) -> bool {
    match (o, n) {
        (Declaration::Var(a), Declaration::Var(b)) => b == a,
        (Declaration::Func(f), Declaration::Func(g)) => {
            &&& g.name == f.name
            &&& g.params == f.params
            &&& g.span == f.span
            &&& g.name_span == f.name_span
            &&& g.storage_class == f.storage_class
            &&& g.return_type == f.return_type
            &&& match (f.body, g.body) {
                (None, None) => true,
                (Some(x), Some(y)) => items_jumps_renamed(x@, y@, label_suffix(f.name.0@)),
                _ => false,
            }
        },
        _ => false,
    }
}

fn rename_function(func: &mut crate::parser::ast::FunctionDeclaration)
    ensures
        final(func).name == old(func).name,
        final(func).body is Some <==> old(func).body is Some,
        final(func).body matches Some(b) ==> {
            let ob = old(func).body.unwrap()@;
            &&& items_label_names(b@) == all_suffixed(items_label_names(ob), label_suffix(old(func).name.0@))
            &&& items_goto_names(b@) == all_suffixed(items_goto_names(ob), label_suffix(old(func).name.0@))
        },
        decl_same_code(Declaration::Func(*old(func)), Declaration::Func(*final(func))),
        decl_jumps_renamed(Declaration::Func(*old(func)), Declaration::Func(*final(func))),
{
    let mut suffix = string_of(".");
    push_string(&mut suffix, &func.name.0);
    match &mut func.body {
        Some(body) => rename_items(body, &suffix),
        None => {},
    }
}

/// Appends `.` and the function's name to every label and `goto` target of
/// each function body.
pub fn rename_all_gotos(program: &mut Program)
    ensures
        final(program).0@.len() == old(program).0@.len(),
        forall|k: int| 0 <= k < final(program).0@.len() ==> (#[trigger] final(program).0@[k] matches Declaration::Func(f)
            ==> (f.body matches Some(b) ==> {
                let of = old(program).0@[k]->Func_0;
                let ob = of.body.unwrap()@;
                &&& of.name == f.name
                &&& items_label_names(b@) == all_suffixed(items_label_names(ob), label_suffix(f.name.0@))
                &&& items_goto_names(b@) == all_suffixed(items_goto_names(ob), label_suffix(f.name.0@))
            })),
        decls_same_code(old(program).0@, final(program).0@),
        forall|k: int| 0 <= k < old(program).0@.len() ==> decl_jumps_renamed(#[trigger] old(program).0@[k], final(program).0@[k]),
{
    let n = program.0.len();
    let mut k: usize = 0;
    while k < n
        invariant
            k <= n,
            n == program.0@.len(),
            n == old(program).0@.len(),
            forall|j: int| k <= j < n ==> #[trigger] program.0@[j] == old(program).0@[j],
            forall|j: int| 0 <= j < k ==> (#[trigger] program.0@[j] matches Declaration::Func(f)
                ==> (f.body matches Some(b) ==> {
                    let of = old(program).0@[j]->Func_0;
                    let ob = of.body.unwrap()@;
                    &&& old(program).0@[j] is Func
                    &&& of.body is Some
                    &&& of.name == f.name
                    &&& items_label_names(b@) == all_suffixed(items_label_names(ob), label_suffix(f.name.0@))
                    &&& items_goto_names(b@) == all_suffixed(items_goto_names(ob), label_suffix(f.name.0@))
                })),
            forall|j: int| 0 <= j < k ==> (#[trigger] program.0@[j] is Func <==> old(program).0@[j] is Func),
            forall|j: int| 0 <= j < k ==> decl_same_code(#[trigger] old(program).0@[j], program.0@[j]),
            forall|j: int| 0 <= j < k ==> decl_jumps_renamed(#[trigger] old(program).0@[j], program.0@[j]),
        decreases n - k,
    {
        let ghost prev = program.0@;
        match &mut program.0[k] {
            Declaration::Func(func) => rename_function(func),
            _ => {},
        }
        proof {
            assert forall|j: int| 0 <= j < k implies program.0@[j] == prev[j] by {}
        }
        k = k + 1;
    }
}

/// The names of a list of named places.
pub open spec fn names_of(v: Seq<(Identifier, Span)>) -> Seq<Key> {
    v.map_values(|p: (Identifier, Span)| p.0@)
}

proof fn lemma_names_of_push(v: Seq<(Identifier, Span)>, x: (Identifier, Span))
    ensures
        names_of(v.push(x)) == names_of(v) + seq![x.0@],
        places_of(v.push(x)) == places_of(v) + seq![(x.0@, x.1)],
{
    assert(names_of(v.push(x)) =~= names_of(v) + seq![x.0@]);
    assert(places_of(v.push(x)) =~= places_of(v) + seq![(x.0@, x.1)]);
}

/// The names and spans of a list of named places.
pub open spec fn places_of(v: Seq<(Identifier, Span)>) -> Seq<(Key, Span)> {
    v.map_values(|p: (Identifier, Span)| (p.0@, p.1))
}

/// The names of a list of places.
pub open spec fn keys_of(v: Seq<(Key, Span)>) -> Seq<Key> {
    v.map_values(|p: (Key, Span)| p.0)
}

/// Collects the labels (`want_labels`) or the `goto` targets of a statement,
/// with the span of each statement.
fn collect(stmt: &Statement, want_labels: bool, out: &mut Vec<(Identifier, Span)>)
    ensures
        names_of(final(out)@) == names_of(old(out)@) + if want_labels { label_names(*stmt) } else { goto_names(*stmt) },
        places_of(final(out)@) == places_of(old(out)@) + if want_labels { label_places(*stmt) } else { goto_places(*stmt) },
    decreases stmt,
{
    match &stmt.kind {
        StmtKind::Goto(i) => {
            if !want_labels {
                proof { lemma_names_of_push(out@, (*i, stmt.span)); }
                out.push((i.clone(), stmt.span.start..stmt.span.end));
            } else {
                proof {
                    assert(names_of(out@) + seq![] =~= names_of(out@));
                    assert(places_of(out@) + seq![] =~= places_of(out@));
                }
            }
        },
        StmtKind::Label(i, st) => {
            if want_labels {
                proof { lemma_names_of_push(out@, (*i, stmt.span)); }
                out.push((i.clone(), stmt.span.start..stmt.span.end));
                let ghost mid = names_of(out@);
                let ghost midp = places_of(out@);
                collect(st, want_labels, out);
                proof {
                    assert(mid + label_names(**st) =~= names_of(old(out)@) + (seq![i@] + label_names(**st)));
                    assert(midp + label_places(**st) =~= places_of(old(out)@) + (seq![(i@, stmt.span)] + label_places(**st)));
                }
            } else {
                collect(st, want_labels, out);
            }
        },
        StmtKind::If { then, else_, .. } => {
            let ghost o = names_of(out@);
            let ghost op = places_of(out@);
            collect(then, want_labels, out);
            match else_ {
                Some(e) => {
                    collect(e, want_labels, out);
                    proof {
                        if want_labels {
                            assert(names_of(out@) =~= o + (label_names(**then) + label_names(**e)));
                            assert(places_of(out@) =~= op + (label_places(**then) + label_places(**e)));
                        } else {
                            assert(names_of(out@) =~= o + (goto_names(**then) + goto_names(**e)));
                            assert(places_of(out@) =~= op + (goto_places(**then) + goto_places(**e)));
                        }
                    }
                },
                None => {
                    proof {
                        if want_labels {
                            assert(names_of(out@) =~= o + (label_names(**then) + seq![]));
                            assert(places_of(out@) =~= op + (label_places(**then) + seq![]));
                        } else {
                            assert(names_of(out@) =~= o + (goto_names(**then) + seq![]));
                            assert(places_of(out@) =~= op + (goto_places(**then) + seq![]));
                        }
                    }
                },
            }
        },
        StmtKind::While { body, .. } => collect(body, want_labels, out),
        StmtKind::DoWhile { body, .. } => collect(body, want_labels, out),
        StmtKind::For { body, .. } => collect(body, want_labels, out),
        StmtKind::Switch(sw) => collect(&sw.body, want_labels, out),
        StmtKind::Case { stmt: s, .. } => collect(s, want_labels, out),
        StmtKind::DefaultCase { stmt: s, .. } => collect(s, want_labels, out),
        StmtKind::Compound(items) => collect_items(items, want_labels, out),
        _ => {
            proof {
                assert(names_of(out@) + seq![] =~= names_of(out@));
                assert(places_of(out@) + seq![] =~= places_of(out@));
            }
        },
    }
}

fn collect_items(items: &Vec<BlockItem>, want_labels: bool, out: &mut Vec<(Identifier, Span)>)
    ensures
        names_of(final(out)@) == names_of(old(out)@) + if want_labels { items_label_names(items@) } else { items_goto_names(items@) },
        places_of(final(out)@) == places_of(old(out)@) + if want_labels { items_label_places(items@) } else { items_goto_places(items@) },
    decreases items,
{
    let mut k: usize = 0;
    proof {
        assert(names_of(out@) + seq![] =~= names_of(out@));
        assert(places_of(out@) + seq![] =~= places_of(out@));
    }
    while k < items.len()
        invariant
            k <= items@.len(),
            names_of(out@) == names_of(old(out)@) + if want_labels { items_label_names(items@.take(k as int)) } else { items_goto_names(items@.take(k as int)) },
            places_of(out@) == places_of(old(out)@) + if want_labels { items_label_places(items@.take(k as int)) } else { items_goto_places(items@.take(k as int)) },
        decreases items@.len() - k,
    {
        proof {
            vstd::std_specs::vec::axiom_vec_index_decreases(*items, k as int);
            assert(items@.take(k + 1).drop_last() =~= items@.take(k as int));
        }
        let ghost o = names_of(out@);
        match &items[k] {
            BlockItem::Stmt(st) => collect(st, want_labels, out),
            _ => {},
        }
        proof {
            if want_labels {
                assert(names_of(out@) =~= names_of(old(out)@) + items_label_names(items@.take(k + 1)));
                assert(places_of(out@) =~= places_of(old(out)@) + items_label_places(items@.take(k + 1)));
            } else {
                assert(names_of(out@) =~= names_of(old(out)@) + items_goto_names(items@.take(k + 1)));
                assert(places_of(out@) =~= places_of(old(out)@) + items_goto_places(items@.take(k + 1)));
            }
        }
        k = k + 1;
    }
    proof {
        assert(items@.take(items@.len() as int) =~= items@);
    }
}

/// The errors for the repeated labels of a list: one for each label whose
/// name occurs earlier in it, at its span.
pub open spec fn repeat_errors(s: Seq<(Key, Span)>) -> Errors
    decreases s.len(),
{
    if s.len() == 0 {
        seq![]
    } else {
        repeat_errors(s.drop_last()) + if keys_of(s.drop_last()).contains(s.last().0) {
            seq![(s.last().1, "duplicate label '"@ + s.last().0.1 + "'"@)]
        } else {
            seq![]
        }
    }
}

/// The errors for the `goto` targets of `gs` that `ls` does not hold, at
/// each `goto`'s span.
pub open spec fn missing_errors(gs: Seq<(Key, Span)>, ls: Seq<Key>) -> Errors
    decreases gs.len(),
{
    if gs.len() == 0 {
        seq![]
    } else {
        missing_errors(gs.drop_last(), ls) + if ls.contains(gs.last().0) {
            seq![]
        } else {
            seq![(gs.last().1, "undeclared goto target '"@ + gs.last().0.1 + "'"@)]
        }
    }
}

/// The errors a function body has: each repeated label, then each `goto`
/// whose target is no label of the function.
pub open spec fn goto_errors(body: Seq<BlockItem>) -> Errors {
    repeat_errors(items_label_places(body)) + missing_errors(items_goto_places(body), items_label_names(body))
}

pub open spec fn decls_goto_errors(ds: Seq<Declaration>) -> Errors
    decreases ds.len(),
{
    if ds.len() == 0 {
        seq![]
    } else {
        decls_goto_errors(ds.drop_last()) + match body_of(ds.last()) {
            Some(b) => goto_errors(b),
            None => seq![],
        }
    }
}

fn contains_name(v: &Vec<Identifier>, x: &Identifier) -> (r: bool)
    ensures
        r == v@.map_values(|i: Identifier| i@).contains(x@),
{
    let mut k: usize = 0;
    while k < v.len()
        invariant
            k <= v@.len(),
            forall|j: int| 0 <= j < k ==> v@[j]@ != x@,
        decreases v@.len() - k,
    {
        if v[k] == *x {
            proof {
                assert(v@.map_values(|i: Identifier| i@)[k as int] == x@);
            }
            return true;
        }
        k = k + 1;
    }
    proof {
        if v@.map_values(|i: Identifier| i@).contains(x@) {
            let m = v@.map_values(|i: Identifier| i@);
            let j = choose|j: int| 0 <= j < m.len() && #[trigger] m[j] == x@;
            assert(v@[j]@ == x@);
        }
    }
    false
}

fn check_function_gotos(body: &Vec<BlockItem>, diagnostics: &mut Diagnostics)
    ensures
        appended_errors(*old(diagnostics), *final(diagnostics), goto_errors(body@)),
{
    let mut labels: Vec<(Identifier, Span)> = Vec::new();
    collect_items(body, true, &mut labels);
    let mut gotos: Vec<(Identifier, Span)> = Vec::new();
    collect_items(body, false, &mut gotos);
    proof {
        assert(names_of(labels@) =~= items_label_names(body@));
        assert(names_of(gotos@) =~= items_goto_names(body@));
        assert(places_of(labels@) =~= items_label_places(body@));
        assert(places_of(gotos@) =~= items_goto_places(body@));
    }
    let mut seen: Vec<Identifier> = Vec::new();
    let mut k: usize = 0;
    proof { lemma_errors_none(*diagnostics); }
    while k < labels.len()
        invariant
            k <= labels@.len(),
            names_of(labels@) == items_label_names(body@),
            seen@.map_values(|i: Identifier| i@).to_set() == names_of(labels@).take(k as int).to_set(),
            places_of(labels@) == items_label_places(body@),
            appended_errors(*old(diagnostics), *diagnostics, repeat_errors(places_of(labels@).take(k as int))),
        decreases labels@.len() - k,
    {
        let ghost before = *diagnostics;
        let ghost t = names_of(labels@).take(k as int);
        let ghost tp = places_of(labels@).take(k as int);
        proof {
            assert(keys_of(tp) =~= t);
            assert(places_of(labels@).take(k + 1).drop_last() =~= tp);
            assert(places_of(labels@).take(k + 1).last() == (labels@[k as int].0@, labels@[k as int].1));
            assert(names_of(labels@).take(k + 1).drop_last() =~= t);
            assert(names_of(labels@).take(k + 1).last() == labels@[k as int].0@);
            assert(t.to_set().contains(labels@[k as int].0@) <==> t.contains(labels@[k as int].0@));
        }
        let (name, span) = (&labels[k].0, &labels[k].1);
        if contains_name(&seen, name) {
            let mut m = string_of("duplicate label '");
            push_string(&mut m, &name.1);
            push_str(&mut m, "'");
            report_string(diagnostics, span.start..span.end, m);
            proof {
                lemma_errors_trans(*old(diagnostics), before, *diagnostics, repeat_errors(tp),
                    seq![(labels@[k as int].1, "duplicate label '"@ + name.1@ + "'"@)]);
            }
        } else {
            let ghost s0 = seen@;
            seen.push(name.clone());
            proof {
                assert(seen@.map_values(|i: Identifier| i@) =~= s0.map_values(|i: Identifier| i@).push(name@));
                assert(names_of(labels@).take(k + 1) =~= t.push(name@));
                assert(t.push(name@).to_set() =~= t.to_set().insert(name@));
                s0.map_values(|i: Identifier| i@).lemma_push_to_set_commute(name@);
                lemma_errors_none(*diagnostics);
                lemma_errors_trans(*old(diagnostics), before, *diagnostics, repeat_errors(tp), seq![]);
            }
        }
        k = k + 1;
    }
    proof {
        assert(names_of(labels@).take(labels@.len() as int) =~= names_of(labels@));
        assert(places_of(labels@).take(labels@.len() as int) =~= places_of(labels@));
    }
    let ghost d_mid = *diagnostics;
    let mut j: usize = 0;
    proof { lemma_errors_none(*diagnostics); }
    while j < gotos.len()
        invariant
            j <= gotos@.len(),
            names_of(gotos@) == items_goto_names(body@),
            seen@.map_values(|i: Identifier| i@).to_set() == items_label_names(body@).to_set(),
            places_of(gotos@) == items_goto_places(body@),
            appended_errors(d_mid, *diagnostics, missing_errors(places_of(gotos@).take(j as int), items_label_names(body@))),
        decreases gotos@.len() - j,
    {
        let ghost before = *diagnostics;
        let ghost t = names_of(gotos@).take(j as int);
        let ghost tp = places_of(gotos@).take(j as int);
        proof {
            assert(places_of(gotos@).take(j + 1).drop_last() =~= tp);
            assert(places_of(gotos@).take(j + 1).last() == (gotos@[j as int].0@, gotos@[j as int].1));
            assert(names_of(gotos@).take(j + 1).drop_last() =~= t);
            assert(names_of(gotos@).take(j + 1).last() == gotos@[j as int].0@);
        }
        let (name, span) = (&gotos[j].0, &gotos[j].1);
        if !contains_name(&seen, name) {
            let mut m = string_of("undeclared goto target '");
            push_string(&mut m, &name.1);
            push_str(&mut m, "'");
            report_string(diagnostics, span.start..span.end, m);
            proof {
                assert(!items_label_names(body@).to_set().contains(name@));
                lemma_errors_trans(d_mid, before, *diagnostics, missing_errors(tp, items_label_names(body@)),
                    seq![(gotos@[j as int].1, "undeclared goto target '"@ + name.1@ + "'"@)]);
            }
        } else {
            proof {
                assert(items_label_names(body@).to_set().contains(name@));
                lemma_errors_none(*diagnostics);
                lemma_errors_trans(d_mid, before, *diagnostics, missing_errors(tp, items_label_names(body@)), seq![]);
            }
        }
        j = j + 1;
    }
    proof {
        assert(names_of(gotos@).take(gotos@.len() as int) =~= names_of(gotos@));
        assert(places_of(gotos@).take(gotos@.len() as int) =~= places_of(gotos@));
        lemma_errors_trans(*old(diagnostics), d_mid, *diagnostics, repeat_errors(items_label_places(body@)),
            missing_errors(items_goto_places(body@), items_label_names(body@)));
    }
}

/// Reports, in each function, every repeated label and every `goto` whose
/// target is no label of the function.
pub fn check_if_all_gotos_point_somewhere_valid(program: &Program, diagnostics: &mut Diagnostics)
    ensures
        appended_errors(*old(diagnostics), *final(diagnostics), decls_goto_errors(program.0@)),
{
    let mut k: usize = 0;
    proof { lemma_errors_none(*diagnostics); }
    while k < program.0.len()
        invariant
            k <= program.0@.len(),
            appended_errors(*old(diagnostics), *diagnostics, decls_goto_errors(program.0@.take(k as int))),
        decreases program.0@.len() - k,
    {
        let ghost before = *diagnostics;
        match &program.0[k] {
            Declaration::Func(f) => match &f.body {
                Some(b) => check_function_gotos(b, diagnostics),
                None => {
                    proof { lemma_errors_none(*diagnostics); }
                },
            },
            _ => {
                proof { lemma_errors_none(*diagnostics); }
            },
        }
        proof {
            assert(program.0@.take(k + 1).drop_last() =~= program.0@.take(k as int));
            lemma_errors_trans(*old(diagnostics), before, *diagnostics,
                decls_goto_errors(program.0@.take(k as int)),
                match body_of(program.0@[k as int]) { Some(b) => goto_errors(b), None => Seq::<(Span, Seq<char>)>::empty() });
        }
        k = k + 1;
    }
    proof {
        assert(program.0@.take(program.0@.len() as int) =~= program.0@);
    }
}

} // verus!
