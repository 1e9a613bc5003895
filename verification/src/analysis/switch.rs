//! Collects the `case` and `default` labels of each switch into the switch,
//! with every case value converted to the type of the switch's value.
use vstd::prelude::*;
use crate::analysis::TypeView;
use crate::analysis::reporting::{
    appended_errors, extended, lemma_appended_extended, lemma_errors_none, lemma_errors_trans, lemma_extended_refl,
    lemma_extended_trans, report, report_string, Errors,
};
use crate::diagnostics::Diagnostics;
use crate::parser::ast::{
    BlockItem, Constant, ConstantType, Declaration, Identifier, Program, Statement, StmtKind, Switch, constant_value, spec_cast,
};
use crate::table::Key;
use crate::analysis::shape::{
    decl_same_code, decls_same_code, items_same_code, lemma_items_same_code_step, lemma_same_code_refl, same_code,
};
use crate::text::{int_text, push_int, push_str, string_of};

verus! {

broadcast use vstd::std_specs::vec::axiom_spec_len, lemma_extended_trans;

/// The `case` labels of a switch body that belong to this switch (not to a
/// nested one), with their values as written, in order.
pub open spec fn case_entries(s: Statement) -> Seq<(Key, Constant)>
    decreases s,
{
    match s.kind {
        StmtKind::Case { value, label, stmt, .. } => seq![(label@, value)] + case_entries(*stmt),
        StmtKind::DefaultCase { stmt, .. } => case_entries(*stmt),
        StmtKind::If { then, else_, .. } => case_entries(*then) + match else_ {
            Some(e) => case_entries(*e),
            None => seq![],
        },
        StmtKind::While { body, .. } => case_entries(*body),
        StmtKind::DoWhile { body, .. } => case_entries(*body),
        StmtKind::For { body, .. } => case_entries(*body),
        StmtKind::Label(_, body) => case_entries(*body),
        StmtKind::Compound(items) => items_case_entries(items@),
        _ => seq![],
    }
}

pub open spec fn items_case_entries(items: Seq<BlockItem>) -> Seq<(Key, Constant)>
    decreases items,
{
    if items.len() == 0 {
        seq![]
    } else {
        items_case_entries(items.drop_last()) + match items.last() {
            BlockItem::Stmt(s) => case_entries(s),
            _ => seq![],
        }
    }
}

/// The `default` labels of a switch body that belong to this switch.
pub open spec fn default_entries(s: Statement) -> Seq<Key>
    decreases s,
{
    match s.kind {
        StmtKind::Case { stmt, .. } => default_entries(*stmt),
        StmtKind::DefaultCase { label, stmt, .. } => seq![label@] + default_entries(*stmt),
        StmtKind::If { then, else_, .. } => default_entries(*then) + match else_ {
            Some(e) => default_entries(*e),
            None => seq![],
        },
        StmtKind::While { body, .. } => default_entries(*body),
        StmtKind::DoWhile { body, .. } => default_entries(*body),
        StmtKind::For { body, .. } => default_entries(*body),
        StmtKind::Label(_, body) => default_entries(*body),
        StmtKind::Compound(items) => items_default_entries(items@),
        _ => seq![],
    }
}

pub open spec fn items_default_entries(items: Seq<BlockItem>) -> Seq<Key>
    decreases items,
{
    if items.len() == 0 {
        seq![]
    } else {
        items_default_entries(items.drop_last()) + match items.last() {
            BlockItem::Stmt(s) => default_entries(s),
            _ => seq![],
        }
    }
}

/// The kind of a switch's value (`int` unless it is a `long`).
pub open spec fn value_kind(t: TypeView) -> ConstantType {
    if t is Long { ConstantType::Long } else { ConstantType::Int }
}

/// The collected cases: each label with its value converted to `ty`.
pub open spec fn converted(entries: Seq<(Key, Constant)>, ty: ConstantType) -> Seq<(Key, Constant)> {
    entries.map_values(|e: (Key, Constant)| (e.0, spec_cast(e.1, ty)))
}

pub open spec fn cases_view(cases: Seq<(Identifier, Constant)>) -> Seq<(Key, Constant)> {
    cases.map_values(|c: (Identifier, Constant)| (c.0@, c.1))
}

/// Whether `n` is statement `o` with only the cases that its switches
/// record (case list, case set, default) possibly changed; every name,
/// jump target, expression and statement is the same.
pub open spec fn cases_refilled(o: Statement, n: Statement) -> bool
    decreases o,
{
    &&& n.span == o.span
    &&& match (o.kind, n.kind) {
        (StmtKind::Label(a, s), StmtKind::Label(b, t)) => b == a && cases_refilled(*s, *t),
        (StmtKind::If { cond: c1, then: t1, else_: e1 }, StmtKind::If { cond: c2, then: t2, else_: e2 }) => {
            &&& c2 == c1
            &&& cases_refilled(*t1, *t2)
            &&& match (e1, e2) {
                (None, None) => true,
                (Some(x), Some(y)) => cases_refilled(*x, *y),
                _ => false,
            }
        },
        (StmtKind::Compound(x), StmtKind::Compound(y)) => items_cases_refilled(x@, y@),
        (StmtKind::While { cond: c1, body: b1, label: l1 }, StmtKind::While { cond: c2, body: b2, label: l2 }) =>
            l2 == l1 && c2 == c1 && cases_refilled(*b1, *b2),
        (StmtKind::DoWhile { body: b1, cond: c1, label: l1 }, StmtKind::DoWhile { body: b2, cond: c2, label: l2 }) =>
            l2 == l1 && c2 == c1 && cases_refilled(*b1, *b2),
        (
            StmtKind::For { init: i1, condition: c1, post: p1, body: b1, label: l1 },
            StmtKind::For { init: i2, condition: c2, post: p2, body: b2, label: l2 },
        ) => l2 == l1 && i2 == i1 && c2 == c1 && p2 == p1 && cases_refilled(*b1, *b2),
        (StmtKind::Switch(s1), StmtKind::Switch(s2)) =>
            s2.label == s1.label && s2.value == s1.value && cases_refilled(*s1.body, *s2.body),
        (
            StmtKind::Case { value: v1, label: l1, header_span: h1, stmt: s1 },
            StmtKind::Case { value: v2, label: l2, header_span: h2, stmt: s2 },
        ) => v2 == v1 && l2 == l1 && h2 == h1 && cases_refilled(*s1, *s2),
        (
            StmtKind::DefaultCase { label: l1, header_span: h1, stmt: s1 },
            StmtKind::DefaultCase { label: l2, header_span: h2, stmt: s2 },
        ) => l2 == l1 && h2 == h1 && cases_refilled(*s1, *s2),
        (StmtKind::Label(..), _) | (StmtKind::If { .. }, _) | (StmtKind::Compound(_), _) | (StmtKind::While { .. }, _)
            | (StmtKind::DoWhile { .. }, _) | (StmtKind::For { .. }, _) | (StmtKind::Switch(_), _)
            | (StmtKind::Case { .. }, _) | (StmtKind::DefaultCase { .. }, _) => false,
        (a, b) => b == a,
    }
}

/// Block items, each statement with only its switches' cases changed and
/// each declaration unchanged.
pub open spec fn items_cases_refilled(o: Seq<BlockItem>, n: Seq<BlockItem>) -> bool
    decreases o,
{
    &&& n.len() == o.len()
    &&& o.len() > 0 ==> {
        &&& items_cases_refilled(o.drop_last(), n.drop_last())
        &&& match (o.last(), n.last()) {
            (BlockItem::Stmt(s), BlockItem::Stmt(t)) => cases_refilled(s, t),
            (BlockItem::Decl(d), BlockItem::Decl(e)) => e == d,
            _ => false,
        }
    }
}

/// A declaration with only the cases of its switches changed.
pub open spec fn decl_cases_refilled(o: Declaration, n: Declaration) -> bool {
    match (o, n) {
        (Declaration::Var(a), Declaration::Var(b)) => b == a,
        (Declaration::Func(f), Declaration::Func(g)) => {
            &&& g.name == f.name
            &&& g.params == f.params
            &&& g.span == f.span
            &&& g.name_span == f.name_span
            &&& g.storage_class == f.storage_class
            &&& g.return_type == f.return_type
            &&& match (f.body, g.body) {
                (None, None) => true,
                (Some(x), Some(y)) => items_cases_refilled(x@, y@),
                _ => false,
            }
        },
        _ => false,
    }
}

proof fn lemma_cases_refilled_refl(s: Statement)
    ensures
        cases_refilled(s, s),
    decreases s,
{
    match s.kind {
        StmtKind::If { then, else_, .. } => {
            lemma_cases_refilled_refl(*then);
            match else_ {
                Some(e) => lemma_cases_refilled_refl(*e),
                None => {},
            }
        },
        StmtKind::Label(_, t) => lemma_cases_refilled_refl(*t),
        StmtKind::Compound(items) => lemma_items_cases_refilled_refl(items@),
        StmtKind::While { body, .. } => lemma_cases_refilled_refl(*body),
        StmtKind::DoWhile { body, .. } => lemma_cases_refilled_refl(*body),
        StmtKind::For { body, .. } => lemma_cases_refilled_refl(*body),
        StmtKind::Switch(sw) => lemma_cases_refilled_refl(*sw.body),
        StmtKind::Case { stmt, .. } => lemma_cases_refilled_refl(*stmt),
        StmtKind::DefaultCase { stmt, .. } => lemma_cases_refilled_refl(*stmt),
        _ => {},
    }
}

proof fn lemma_items_cases_refilled_refl(items: Seq<BlockItem>)
    ensures
        items_cases_refilled(items, items),
    decreases items,
{
    if items.len() > 0 {
        lemma_items_cases_refilled_refl(items.drop_last());
        match items.last() {
            BlockItem::Stmt(s) => lemma_cases_refilled_refl(s),
            _ => {},
        }
    }
}

proof fn lemma_items_cases_refilled_step(o: Seq<BlockItem>, n: Seq<BlockItem>, k: int)
    requires
        0 <= k < o.len(),
        k < n.len(),
        items_cases_refilled(o.take(k), n.take(k)),
        match (o[k], n[k]) {
            (BlockItem::Stmt(s), BlockItem::Stmt(t)) => cases_refilled(s, t),
            (BlockItem::Decl(d), BlockItem::Decl(e)) => e == d,
            _ => false,
        },
    ensures
        items_cases_refilled(o.take(k + 1), n.take(k + 1)),
{
    assert(o.take(k + 1).drop_last() =~= o.take(k));
    assert(n.take(k + 1).drop_last() =~= n.take(k));
}

/// Whether a switch holds what its body says: its cases in order, converted,
/// each value once in its case set, and its first `default`.
pub open spec fn switch_filled(sw: Switch) -> bool {
    let ty = value_kind(sw.value.ty@);
    let entries = converted(case_entries(*sw.body), ty);
    &&& cases_view(sw.cases@) == entries
    &&& sw.case_set@.to_set() == entries.map_values(|e: (Key, Constant)| e.1).to_set()
    &&& sw.case_set@.no_duplicates()
    &&& (default_entries(*sw.body).len() == 0 <==> sw.default_case is None)
    &&& (sw.default_case matches Some(l) ==> l@ == default_entries(*sw.body)[0])
}

/// Whether every switch reached inside a switch body is filled.
pub open spec fn filled_inside(s: Statement) -> bool
    decreases s,
{
    match s.kind {
        StmtKind::Switch(sw) => switch_filled(sw) && filled_inside(*sw.body),
        StmtKind::Case { stmt, .. } => filled_inside(*stmt),
        StmtKind::DefaultCase { stmt, .. } => filled_inside(*stmt),
        StmtKind::If { then, else_, .. } => filled_inside(*then) && match else_ {
            Some(e) => filled_inside(*e),
            None => true,
        },
        StmtKind::While { body, .. } => filled_inside(*body),
        StmtKind::DoWhile { body, .. } => filled_inside(*body),
        StmtKind::For { body, .. } => filled_inside(*body),
        StmtKind::Label(_, body) => filled_inside(*body),
        StmtKind::Compound(items) => items_filled(items@, true),
        _ => true,
    }
}

/// Whether every switch reached outside any switch is filled (a misplaced
/// `case` or `default` is reported, and what it labels is not visited).
pub open spec fn filled_outside(s: Statement) -> bool
    decreases s,
{
    match s.kind {
        StmtKind::Switch(sw) => switch_filled(sw) && filled_inside(*sw.body),
        StmtKind::If { then, else_, .. } => filled_outside(*then) && match else_ {
            Some(e) => filled_outside(*e),
            None => true,
        },
        StmtKind::While { body, .. } => filled_outside(*body),
        StmtKind::DoWhile { body, .. } => filled_outside(*body),
        StmtKind::For { body, .. } => filled_outside(*body),
        StmtKind::Label(_, body) => filled_outside(*body),
        StmtKind::Compound(items) => items_filled(items@, false),
        _ => true,
    }
}

pub open spec fn items_filled(items: Seq<BlockItem>, inside: bool) -> bool
    decreases items,
{
    if items.len() == 0 {
        true
    } else {
        &&& items_filled(items.drop_last(), inside)
        &&& match items.last() {
            BlockItem::Stmt(s) => if inside { filled_inside(s) } else { filled_outside(s) },
            _ => true,
        }
    }
}

/// The values of a list of cases.
pub open spec fn values_of(e: Seq<(Key, Constant)>) -> Seq<Constant> {
    e.map_values(|x: (Key, Constant)| x.1)
}

/// What collecting a switch body adds to the switch's state.
pub open spec fn collected(
    old_cases: Seq<(Key, Constant)>, new_cases: Seq<(Key, Constant)>,
    old_set: Seq<Constant>, new_set: Seq<Constant>,
    old_default: Option<Key>, new_default: Option<Key>,
    cases_found: Seq<(Key, Constant)>, defaults_found: Seq<Key>, ty: ConstantType,
) -> bool {
    &&& new_cases == old_cases + converted(cases_found, ty)
    &&& new_set.to_set() == old_set.to_set() + values_of(converted(cases_found, ty)).to_set()
    &&& (old_set.no_duplicates() ==> new_set.no_duplicates())
    &&& (old_default is Some ==> new_default == old_default)
    &&& (old_default is None ==> (new_default is None <==> defaults_found.len() == 0))
    &&& (old_default is None && new_default is Some ==> new_default.unwrap() == defaults_found[0])
}

/// The case values a switch has seen after `s`, given those seen before.
pub open spec fn seen_after(s: Statement, seen: Set<Constant>, ty: ConstantType) -> Set<Constant> {
    seen + values_of(converted(case_entries(s), ty)).to_set()
}

/// Whether a switch has seen a `default` after `s`.
pub open spec fn default_after(s: Statement, has_default: bool) -> bool {
    has_default || default_entries(s).len() > 0
}

/// The errors collecting the labels of switch body `s` reports, in order,
/// given the case values seen before and whether a `default` was: a `case`
/// whose converted value was seen, a `default` after another, and the
/// errors of the switches nested in `s`.
pub open spec fn case_errors(s: Statement, seen: Set<Constant>, has_default: bool, ty: ConstantType) -> Errors
    decreases s, 1int,
{
    match s.kind {
        StmtKind::Case { value, header_span, stmt, .. } => {
            let c = spec_cast(value, ty);
            (if seen.contains(c) {
                seq![(header_span, "duplicate case value "@ + int_text(constant_value(value)))]
            } else {
                seq![]
            }) + case_errors(*stmt, seen.insert(c), has_default, ty)
        },
        StmtKind::DefaultCase { header_span, stmt, .. } => (if has_default {
            seq![(header_span, "multiple 'default' cases in one switch"@)]
        } else {
            seq![]
        }) + case_errors(*stmt, seen, true, ty),
        StmtKind::If { then, else_, .. } => case_errors(*then, seen, has_default, ty) + match else_ {
            Some(e) => case_errors(*e, seen_after(*then, seen, ty), default_after(*then, has_default), ty),
            None => seq![],
        },
        StmtKind::While { body, .. } => case_errors(*body, seen, has_default, ty),
        StmtKind::DoWhile { body, .. } => case_errors(*body, seen, has_default, ty),
        StmtKind::For { body, .. } => case_errors(*body, seen, has_default, ty),
        StmtKind::Label(_, body) => case_errors(*body, seen, has_default, ty),
        StmtKind::Compound(items) => items_case_errors(items@, seen, has_default, ty),
        StmtKind::Switch(sw) => switch_errors(sw),
        _ => seq![],
    }
}

/// The case values seen after the items `items`.
pub open spec fn items_seen_after(items: Seq<BlockItem>, seen: Set<Constant>, ty: ConstantType) -> Set<Constant> {
    seen + values_of(converted(items_case_entries(items), ty)).to_set()
}

pub open spec fn items_case_errors(items: Seq<BlockItem>, seen: Set<Constant>, has_default: bool, ty: ConstantType) -> Errors
    decreases items, 0int,
{
    if items.len() == 0 {
        seq![]
    } else {
        let before = items.drop_last();
        items_case_errors(before, seen, has_default, ty) + match items.last() {
            BlockItem::Stmt(st) => case_errors(st, items_seen_after(before, seen, ty),
                has_default || items_default_entries(before).len() > 0, ty),
            _ => seq![],
        }
    }
}

/// The errors filling switch `sw` reports.
pub open spec fn switch_errors(sw: Switch) -> Errors
    decreases sw.body, 2int,
{
    case_errors(*sw.body, Set::empty(), false, value_kind(sw.value.ty@))
}

/// The errors finding the switches of `s`, outside any switch, reports:
/// each `case` or `default` label met there, and the errors of each switch.
pub open spec fn outside_errors(s: Statement) -> Errors
    decreases s,
{
    match s.kind {
        StmtKind::Case { header_span, .. } => seq![(header_span, "'case'/'default' label outside of a switch"@)],
        StmtKind::DefaultCase { header_span, .. } => seq![(header_span, "'case'/'default' label outside of a switch"@)],
        StmtKind::If { then, else_, .. } => outside_errors(*then) + match else_ {
            Some(e) => outside_errors(*e),
            None => seq![],
        },
        StmtKind::While { body, .. } => outside_errors(*body),
        StmtKind::DoWhile { body, .. } => outside_errors(*body),
        StmtKind::For { body, .. } => outside_errors(*body),
        StmtKind::Label(_, body) => outside_errors(*body),
        StmtKind::Compound(items) => items_outside_errors(items@),
        StmtKind::Switch(sw) => switch_errors(sw),
        _ => seq![],
    }
}

pub open spec fn items_outside_errors(items: Seq<BlockItem>) -> Errors
    decreases items,
{
    if items.len() == 0 {
        seq![]
    } else {
        items_outside_errors(items.drop_last()) + match items.last() {
            BlockItem::Stmt(st) => outside_errors(st),
            _ => seq![],
        }
    }
}

/// The errors the switch pass reports on the function bodies of `ds`.
pub open spec fn decls_switch_errors(ds: Seq<Declaration>) -> Errors
    decreases ds.len(),
{
    if ds.len() == 0 {
        seq![]
    } else {
        decls_switch_errors(ds.drop_last()) + match ds.last() {
            Declaration::Func(f) => match f.body {
                Some(b) => items_outside_errors(b@),
                None => seq![],
            },
            _ => seq![],
        }
    }
}

pub open spec fn opt_key(o: Option<Identifier>) -> Option<Key> {
    match o {
        Some(i) => Some(i@),
        None => None,
    }
}

fn contains_constant(v: &Vec<Constant>, c: Constant) -> (r: bool)
    ensures
        r == v@.contains(c),
{
    let mut k: usize = 0;
    while k < v.len()
        invariant
            k <= v@.len(),
            forall|j: int| 0 <= j < k ==> v@[j] != c,
        decreases v@.len() - k,
    {
        if v[k] == c {
            return true;
        }
        k = k + 1;
    }
    false
}

proof fn lemma_collected_refl(cases: Seq<(Key, Constant)>, set: Seq<Constant>, default: Option<Key>, ty: ConstantType)
    ensures
        collected(cases, cases, set, set, default, default, seq![], seq![], ty),
{
    assert(converted(seq![], ty) =~= seq![]);
    assert(cases + seq![] =~= cases);
    assert(values_of(seq![]).to_set() =~= Set::<Constant>::empty());
    assert(set.to_set() + Set::<Constant>::empty() =~= set.to_set());
}

proof fn lemma_collected_trans(
    c0: Seq<(Key, Constant)>, c1: Seq<(Key, Constant)>, c2: Seq<(Key, Constant)>,
    s0: Seq<Constant>, s1: Seq<Constant>, s2: Seq<Constant>,
    d0: Option<Key>, d1: Option<Key>, d2: Option<Key>,
    e1: Seq<(Key, Constant)>, e2: Seq<(Key, Constant)>, f1: Seq<Key>, f2: Seq<Key>, ty: ConstantType,
)
    requires
        collected(c0, c1, s0, s1, d0, d1, e1, f1, ty),
        collected(c1, c2, s1, s2, d1, d2, e2, f2, ty),
    ensures
        collected(c0, c2, s0, s2, d0, d2, e1 + e2, f1 + f2, ty),
{
    assert(converted(e1 + e2, ty) =~= converted(e1, ty) + converted(e2, ty));
    assert(values_of(converted(e1 + e2, ty)) =~= values_of(converted(e1, ty)) + values_of(converted(e2, ty)));
    vstd::seq_lib::seq_to_set_distributes_over_add(values_of(converted(e1, ty)), values_of(converted(e2, ty)));
    assert(c2 =~= c0 + converted(e1 + e2, ty));
    assert(s2.to_set() =~= s0.to_set() + values_of(converted(e1 + e2, ty)).to_set());
    if d0 is None && d1 is None {
        assert(f1.len() == 0);
        assert(f1 + f2 =~= f2);
    }
    if d0 is None && d1 is Some {
        assert(f1.len() > 0);
        assert((f1 + f2)[0] == f1[0]);
    }
}

fn collect_switch_cases(
    stmt: &mut Statement,
    ty: ConstantType,
    cases: &mut Vec<(Identifier, Constant)>,
    case_set: &mut Vec<Constant>,
    default_case: &mut Option<Identifier>,
    diagnostics: &mut Diagnostics,
)
    ensures
        filled_inside(*final(stmt)),
        case_entries(*final(stmt)) == case_entries(*old(stmt)),
        default_entries(*final(stmt)) == default_entries(*old(stmt)),
        collected(cases_view(old(cases)@), cases_view(final(cases)@), old(case_set)@, final(case_set)@,
            opt_key(*old(default_case)), opt_key(*final(default_case)), case_entries(*old(stmt)), default_entries(*old(stmt)), ty),
        extended(*old(diagnostics), *final(diagnostics)),
        same_code(*old(stmt), *final(stmt)),
        appended_errors(*old(diagnostics), *final(diagnostics),
            case_errors(*old(stmt), old(case_set)@.to_set(), (*old(default_case)) is Some, ty)),
        cases_refilled(*old(stmt), *final(stmt)),
    decreases *old(stmt),
{
    proof {
        lemma_extended_refl(*diagnostics);
        lemma_errors_none(*diagnostics);
        lemma_collected_refl(cases_view(cases@), case_set@, opt_key(*default_case), ty);
    }
    let ghost c0 = cases_view(cases@);
    let ghost s0 = case_set@;
    let ghost d0 = opt_key(*default_case);
    let ghost g0 = *diagnostics;
    let ghost set0 = case_set@.to_set();
    let ghost h0 = default_case.is_some();
    match &mut stmt.kind {
        StmtKind::If { then, else_, .. } => {
            let ghost t = **then;
            collect_switch_cases(then, ty, cases, case_set, default_case, diagnostics);
            let ghost c1 = cases_view(cases@);
            let ghost s1 = case_set@;
            let ghost d1 = opt_key(*default_case);
            let ghost g1 = *diagnostics;
            proof {
                assert(case_set@.to_set() =~= seen_after(t, set0, ty));
                assert(default_case.is_some() == default_after(t, h0));
            }
            match else_ {
                Some(e) => {
                    let ghost x = **e;
                    collect_switch_cases(e, ty, cases, case_set, default_case, diagnostics);
                    proof {
                        lemma_errors_trans(g0, g1, *diagnostics, case_errors(t, set0, h0, ty),
                            case_errors(x, seen_after(t, set0, ty), default_after(t, h0), ty));
                        lemma_collected_trans(c0, c1, cases_view(cases@), s0, s1, case_set@, d0, d1, opt_key(*default_case),
                            case_entries(*old(stmt).kind->then), case_entries(*old(stmt).kind->else_.unwrap()),
                            default_entries(*old(stmt).kind->then), default_entries(*old(stmt).kind->else_.unwrap()), ty);
                    }
                },
                None => {
                    proof {
                        assert(case_entries(*old(stmt).kind->then) + seq![] =~= case_entries(*old(stmt).kind->then));
                        assert(default_entries(*old(stmt).kind->then) + seq![] =~= default_entries(*old(stmt).kind->then));
                        lemma_errors_none(g1);
                        lemma_errors_trans(g0, g1, g1, case_errors(t, set0, h0, ty), seq![]);
                    }
                },
            }
        },
        StmtKind::While { body, .. } => collect_switch_cases(body, ty, cases, case_set, default_case, diagnostics),
        StmtKind::DoWhile { body, .. } => collect_switch_cases(body, ty, cases, case_set, default_case, diagnostics),
        StmtKind::For { body, .. } => collect_switch_cases(body, ty, cases, case_set, default_case, diagnostics),
        StmtKind::Label(_, body) => collect_switch_cases(body, ty, cases, case_set, default_case, diagnostics),
        StmtKind::Compound(items) => collect_items(items, ty, cases, case_set, default_case, diagnostics),
        StmtKind::Switch(sw) => fill_switch(sw, diagnostics),
        StmtKind::Case { value, label, header_span, stmt: inner } => {
            let casted = value.cast(ty);
            let ghost e0: Errors = if set0.contains(spec_cast(*value, ty)) {
                seq![(*header_span, "duplicate case value "@ + int_text(constant_value(*value)))]
            } else {
                seq![]
            };
            proof {
                assert(case_set@.to_set().contains(casted) <==> case_set@.contains(casted));
            }
            if contains_constant(case_set, casted) {
                let mut m = string_of("duplicate case value ");
                push_int(&mut m, value.i64());
                report_string(diagnostics, header_span.start..header_span.end, m);
                proof {
                    lemma_appended_extended(*old(diagnostics), *diagnostics, 1);
                    assert(set0.insert(casted) =~= set0);
                }
            } else {
                let ghost sv = case_set@;
                case_set.push(casted);
                proof {
                    sv.lemma_push_to_set_commute(casted);
                }
            }
            let ghost g1 = *diagnostics;
            proof {
                assert(case_set@.to_set() =~= set0.insert(casted));
            }
            cases.push((label.clone(), casted));
            let ghost c1 = cases_view(cases@);
            let ghost s1 = case_set@;
            proof {
                let e1: Seq<(Key, Constant)> = seq![(label@, *value)];
                assert(converted(e1, ty) =~= seq![(label@, casted)]);
                assert(c1 =~= c0 + converted(e1, ty));
                assert(values_of(converted(e1, ty)) =~= seq![casted]);
                assert(seq![casted] =~= Seq::<Constant>::empty().push(casted));
                Seq::<Constant>::empty().lemma_push_to_set_commute(casted);
                assert(Seq::<Constant>::empty().to_set() =~= Set::<Constant>::empty());
                assert(seq![casted].to_set() =~= Set::<Constant>::empty().insert(casted));
                s0.lemma_push_to_set_commute(casted);
                assert(s1.to_set() =~= s0.to_set() + values_of(converted(e1, ty)).to_set());
                assert(collected(c0, c1, s0, s1, d0, d0, e1, seq![], ty));
            }
            let ghost x = **inner;
            collect_switch_cases(inner, ty, cases, case_set, default_case, diagnostics);
            proof {
                lemma_errors_trans(g0, g1, *diagnostics, e0, case_errors(x, set0.insert(casted), h0, ty));
                lemma_collected_trans(c0, c1, cases_view(cases@), s0, s1, case_set@, d0, d0, opt_key(*default_case),
                    seq![(label@, *value)], case_entries(*old(stmt).kind->Case_stmt), seq![], default_entries(*old(stmt).kind->Case_stmt), ty);
                assert(seq![] + default_entries(*old(stmt).kind->Case_stmt) =~= default_entries(*old(stmt).kind->Case_stmt));
            }
        },
        StmtKind::DefaultCase { label, header_span, stmt: inner } => {
            let ghost e0: Errors = if h0 {
                seq![(*header_span, "multiple 'default' cases in one switch"@)]
            } else {
                seq![]
            };
            if default_case.is_some() {
                report(diagnostics, header_span.start..header_span.end, "multiple 'default' cases in one switch");
                proof { lemma_appended_extended(*old(diagnostics), *diagnostics, 1); }
            } else {
                *default_case = Some(label.clone());
            }
            let ghost g1 = *diagnostics;
            let ghost d1 = opt_key(*default_case);
            proof {
                assert(converted(seq![], ty) =~= seq![]);
                assert(c0 + seq![] =~= c0);
                assert(values_of(seq![]).to_set() =~= Set::<Constant>::empty());
                assert(s0.to_set() + Set::<Constant>::empty() =~= s0.to_set());
                assert(collected(c0, c0, s0, s0, d0, d1, seq![], seq![label@], ty));
            }
            let ghost x = **inner;
            collect_switch_cases(inner, ty, cases, case_set, default_case, diagnostics);
            proof {
                lemma_errors_trans(g0, g1, *diagnostics, e0, case_errors(x, set0, true, ty));
                lemma_collected_trans(c0, c0, cases_view(cases@), s0, s0, case_set@, d0, d1, opt_key(*default_case),
                    seq![], case_entries(*old(stmt).kind->DefaultCase_stmt), seq![label@], default_entries(*old(stmt).kind->DefaultCase_stmt), ty);
                assert(seq![] + case_entries(*old(stmt).kind->DefaultCase_stmt) =~= case_entries(*old(stmt).kind->DefaultCase_stmt));
            }
        },
        _ => {},
    }
}

fn collect_items(
    items: &mut Vec<BlockItem>,
    ty: ConstantType,
    cases: &mut Vec<(Identifier, Constant)>,
    case_set: &mut Vec<Constant>,
    default_case: &mut Option<Identifier>,
    diagnostics: &mut Diagnostics,
)
    ensures
        items_filled(final(items)@, true),
        items_case_entries(final(items)@) == items_case_entries(old(items)@),
        items_default_entries(final(items)@) == items_default_entries(old(items)@),
        collected(cases_view(old(cases)@), cases_view(final(cases)@), old(case_set)@, final(case_set)@,
            opt_key(*old(default_case)), opt_key(*final(default_case)), items_case_entries(old(items)@), items_default_entries(old(items)@), ty),
        extended(*old(diagnostics), *final(diagnostics)),
        items_same_code(old(items)@, final(items)@),
        appended_errors(*old(diagnostics), *final(diagnostics),
            items_case_errors(old(items)@, old(case_set)@.to_set(), (*old(default_case)) is Some, ty)),
        items_cases_refilled(old(items)@, final(items)@),
    decreases *old(items),
{
    proof {
        lemma_extended_refl(*diagnostics);
        lemma_errors_none(*diagnostics);
        lemma_collected_refl(cases_view(cases@), case_set@, opt_key(*default_case), ty);
    }
    let ghost orig = items@;
    let n = items.len();
    let mut k: usize = 0;
    while k < n
        invariant
            n == items@.len(),
            orig == old(items)@,
            orig.len() == n,
            k <= n,
            forall|j: int| k <= j < n ==> items@[j] == orig[j],
            items_filled(items@.take(k as int), true),
            items_case_entries(items@.take(k as int)) == items_case_entries(orig.take(k as int)),
            items_default_entries(items@.take(k as int)) == items_default_entries(orig.take(k as int)),
            collected(cases_view(old(cases)@), cases_view(cases@), old(case_set)@, case_set@,
                opt_key(*old(default_case)), opt_key(*default_case), items_case_entries(orig.take(k as int)),
                items_default_entries(orig.take(k as int)), ty),
            extended(*old(diagnostics), *diagnostics),
            items_same_code(orig.take(k as int), items@.take(k as int)),
            items_cases_refilled(orig.take(k as int), items@.take(k as int)),
            appended_errors(*old(diagnostics), *diagnostics,
                items_case_errors(orig.take(k as int), old(case_set)@.to_set(), (*old(default_case)) is Some, ty)),
        decreases n - k,
    {
        let ghost prev = items@;
        let ghost g0 = *diagnostics;
        let ghost set1 = case_set@.to_set();
        let ghost h1 = default_case.is_some();
        proof {
            assert(set1 =~= items_seen_after(orig.take(k as int), old(case_set)@.to_set(), ty));
            assert(h1 == ((*old(default_case)) is Some || items_default_entries(orig.take(k as int)).len() > 0));
        }
        let ghost c1 = cases_view(cases@);
        let ghost s1 = case_set@;
        let ghost d1 = opt_key(*default_case);
        proof {
            vstd::std_specs::vec::axiom_vec_index_decreases(*old(items), k as int);
            lemma_collected_refl(c1, s1, d1, ty);
        }
        match &mut items[k] {
            BlockItem::Stmt(st) => collect_switch_cases(st, ty, cases, case_set, default_case, diagnostics),
            _ => {
                proof { lemma_errors_none(*diagnostics); }
            },
        }
        proof {
            assert(items@.take(k + 1).drop_last() =~= items@.take(k as int));
            assert(orig.take(k + 1).drop_last() =~= orig.take(k as int));
            assert(items@.take(k as int) =~= prev.take(k as int));
            let ee = match orig[k as int] { BlockItem::Stmt(st) => case_errors(st, set1, h1, ty), _ => seq![] };
            lemma_errors_trans(*old(diagnostics), g0, *diagnostics,
                items_case_errors(orig.take(k as int), old(case_set)@.to_set(), (*old(default_case)) is Some, ty), ee);
            let ce = match orig[k as int] { BlockItem::Stmt(st) => case_entries(st), _ => seq![] };
            let de = match orig[k as int] { BlockItem::Stmt(st) => default_entries(st), _ => seq![] };
            lemma_collected_trans(cases_view(old(cases)@), c1, cases_view(cases@), old(case_set)@, s1, case_set@,
                opt_key(*old(default_case)), d1, opt_key(*default_case),
                items_case_entries(orig.take(k as int)), ce, items_default_entries(orig.take(k as int)), de, ty);
            lemma_items_same_code_step(orig, items@, k as int);
            lemma_items_cases_refilled_step(orig, items@, k as int);
        }
        k = k + 1;
    }
    proof {
        assert(items@.take(n as int) =~= items@);
        assert(orig.take(n as int) =~= orig);
    }
}

fn value_kind_exec(t: &crate::analysis::Type) -> (r: ConstantType)
    ensures
        r == value_kind(t@),
{
    match t {
        crate::analysis::Type::Long => ConstantType::Long,
        _ => ConstantType::Int,
    }
}

/// Fills a switch from its body.
fn fill_switch(sw: &mut Switch, diagnostics: &mut Diagnostics)
    ensures
        switch_filled(*final(sw)),
        filled_inside(*final(sw).body),
        final(sw).value == old(sw).value,
        final(sw).label == old(sw).label,
        same_code(*old(sw).body, *final(sw).body),
        case_entries(*final(sw).body) == case_entries(*old(sw).body),
        default_entries(*final(sw).body) == default_entries(*old(sw).body),
        extended(*old(diagnostics), *final(diagnostics)),
        appended_errors(*old(diagnostics), *final(diagnostics), switch_errors(*old(sw))),
        cases_refilled(*old(sw).body, *final(sw).body),
    decreases *old(sw),
{
    let ty = value_kind_exec(&sw.value.ty);
    sw.cases = Vec::new();
    sw.case_set = Vec::new();
    sw.default_case = None;
    proof {
        assert(cases_view(sw.cases@) =~= seq![]);
        assert(sw.case_set@.to_set() =~= Set::<Constant>::empty());
        assert(*sw.body == *old(sw).body);
    }
    collect_switch_cases(&mut sw.body, ty, &mut sw.cases, &mut sw.case_set, &mut sw.default_case, diagnostics);
    proof {
        let entries = converted(case_entries(*sw.body), ty);
        assert(cases_view(sw.cases@) =~= entries);
        assert(sw.case_set@.to_set() =~= values_of(entries).to_set());
    }
}

fn find_and_collect_switch_cases(stmt: &mut Statement, diagnostics: &mut Diagnostics)
    ensures
        filled_outside(*final(stmt)),
        extended(*old(diagnostics), *final(diagnostics)),
        same_code(*old(stmt), *final(stmt)),
        appended_errors(*old(diagnostics), *final(diagnostics), outside_errors(*old(stmt))),
        cases_refilled(*old(stmt), *final(stmt)),
    decreases *old(stmt),
{
    proof {
        lemma_extended_refl(*diagnostics);
        lemma_errors_none(*diagnostics);
    }
    let ghost g0 = *diagnostics;
    match &mut stmt.kind {
        StmtKind::Case { header_span, .. } => {
            report(diagnostics, header_span.start..header_span.end, "'case'/'default' label outside of a switch");
            proof {
                lemma_appended_extended(*old(diagnostics), *diagnostics, 1);
                lemma_same_code_refl(*old(stmt));
                lemma_cases_refilled_refl(*old(stmt));
            }
        },
        StmtKind::DefaultCase { header_span, .. } => {
            report(diagnostics, header_span.start..header_span.end, "'case'/'default' label outside of a switch");
            proof {
                lemma_appended_extended(*old(diagnostics), *diagnostics, 1);
                lemma_same_code_refl(*old(stmt));
                lemma_cases_refilled_refl(*old(stmt));
            }
        },
        StmtKind::If { then, else_, .. } => {
            let ghost t = **then;
            find_and_collect_switch_cases(then, diagnostics);
            let ghost g1 = *diagnostics;
            match else_ {
                Some(e) => {
                    let ghost x = **e;
                    find_and_collect_switch_cases(e, diagnostics);
                    proof { lemma_errors_trans(g0, g1, *diagnostics, outside_errors(t), outside_errors(x)); }
                },
                None => {
                    proof {
                        lemma_errors_none(g1);
                        lemma_errors_trans(g0, g1, g1, outside_errors(t), seq![]);
                    }
                },
            }
        },
        StmtKind::While { body, .. } => find_and_collect_switch_cases(body, diagnostics),
        StmtKind::DoWhile { body, .. } => find_and_collect_switch_cases(body, diagnostics),
        StmtKind::For { body, .. } => find_and_collect_switch_cases(body, diagnostics),
        StmtKind::Label(_, body) => find_and_collect_switch_cases(body, diagnostics),
        StmtKind::Compound(items) => find_in_items(items, diagnostics),
        StmtKind::Switch(sw) => fill_switch(sw, diagnostics),
        _ => {},
    }
}

fn find_in_items(items: &mut Vec<BlockItem>, diagnostics: &mut Diagnostics)
    ensures
        items_filled(final(items)@, false),
        extended(*old(diagnostics), *final(diagnostics)),
        items_same_code(old(items)@, final(items)@),
        appended_errors(*old(diagnostics), *final(diagnostics), items_outside_errors(old(items)@)),
        items_cases_refilled(old(items)@, final(items)@),
    decreases *old(items),
{
    proof {
        lemma_extended_refl(*diagnostics);
        lemma_errors_none(*diagnostics);
    }
    let ghost orig = items@;
    let n = items.len();
    let mut k: usize = 0;
    while k < n
        invariant
            n == items@.len(),
            orig == old(items)@,
            orig.len() == n,
            k <= n,
            forall|j: int| k <= j < n ==> items@[j] == orig[j],
            items_filled(items@.take(k as int), false),
            extended(*old(diagnostics), *diagnostics),
            items_same_code(orig.take(k as int), items@.take(k as int)),
            items_cases_refilled(orig.take(k as int), items@.take(k as int)),
            appended_errors(*old(diagnostics), *diagnostics, items_outside_errors(orig.take(k as int))),
        decreases n - k,
    {
        let ghost prev = items@;
        let ghost g0 = *diagnostics;
        proof {
            vstd::std_specs::vec::axiom_vec_index_decreases(*old(items), k as int);
        }
        match &mut items[k] {
            BlockItem::Stmt(st) => find_and_collect_switch_cases(st, diagnostics),
            _ => {
                proof { lemma_errors_none(*diagnostics); }
            },
        }
        proof {
            assert(orig.take(k + 1).drop_last() =~= orig.take(k as int));
            let ee = match orig[k as int] { BlockItem::Stmt(st) => outside_errors(st), _ => seq![] };
            lemma_errors_trans(*old(diagnostics), g0, *diagnostics, items_outside_errors(orig.take(k as int)), ee);
            assert(items@.take(k + 1).drop_last() =~= items@.take(k as int));
            assert(items@.take(k as int) =~= prev.take(k as int));
            lemma_items_same_code_step(orig, items@, k as int);
            lemma_items_cases_refilled_step(orig, items@, k as int);
        }
        k = k + 1;
    }
    proof {
        assert(items@.take(n as int) =~= items@);
        assert(orig.take(n as int) =~= orig);
    }
}

/// Fills every switch of every function body with its cases, and reports
/// misplaced `case`/`default` labels, repeated case values and repeated
/// `default` labels.
pub fn collect_all_switch_cases(program: &mut Program, diagnostics: &mut Diagnostics)
    ensures
        extended(*old(diagnostics), *final(diagnostics)),
        final(program).0@.len() == old(program).0@.len(),
        forall|k: int| 0 <= k < final(program).0@.len() ==> (#[trigger] final(program).0@[k] matches Declaration::Func(f)
            ==> (f.body matches Some(b) ==> items_filled(b@, false))),
        decls_same_code(old(program).0@, final(program).0@),
        appended_errors(*old(diagnostics), *final(diagnostics), decls_switch_errors(old(program).0@)),
        forall|k: int| 0 <= k < old(program).0@.len() ==> decl_cases_refilled(#[trigger] old(program).0@[k], final(program).0@[k]),
{
    proof {
        lemma_extended_refl(*diagnostics);
        lemma_errors_none(*diagnostics);
    }
    let n = program.0.len();
    let mut k: usize = 0;
    while k < n
        invariant
            k <= n,
            n == program.0@.len(),
            forall|j: int| 0 <= j < k ==> (#[trigger] program.0@[j] matches Declaration::Func(f)
                ==> (f.body matches Some(b) ==> items_filled(b@, false))),
            extended(*old(diagnostics), *diagnostics),
            n == old(program).0@.len(),
            forall|j: int| k <= j < n ==> #[trigger] program.0@[j] == old(program).0@[j],
            forall|j: int| 0 <= j < k ==> decl_same_code(#[trigger] old(program).0@[j], program.0@[j]),
            appended_errors(*old(diagnostics), *diagnostics, decls_switch_errors(old(program).0@.take(k as int))),
            forall|j: int| 0 <= j < k ==> decl_cases_refilled(#[trigger] old(program).0@[j], program.0@[j]),
        decreases n - k,
    {
        let ghost prev = program.0@;
        let ghost g0 = *diagnostics;
        match &mut program.0[k] {
            Declaration::Func(f) => find_in_function(f, diagnostics),
            _ => {
                proof { lemma_errors_none(*diagnostics); }
            },
        }
        proof {
            assert forall|j: int| 0 <= j < k implies program.0@[j] == prev[j] by {}
            let o = old(program).0@;
            assert(o.take(k + 1).drop_last() =~= o.take(k as int));
            let ee = match o[k as int] {
                Declaration::Func(f) => match f.body {
                    Some(b) => items_outside_errors(b@),
                    None => seq![],
                },
                _ => seq![],
            };
            lemma_errors_trans(*old(diagnostics), g0, *diagnostics, decls_switch_errors(o.take(k as int)), ee);
        }
        k = k + 1;
    }
    proof {
        assert(old(program).0@.take(n as int) =~= old(program).0@);
    }
}

fn find_in_function(f: &mut crate::parser::ast::FunctionDeclaration, diagnostics: &mut Diagnostics)
    ensures
        final(f).body matches Some(b) ==> items_filled(b@, false),
        extended(*old(diagnostics), *final(diagnostics)),
        decl_same_code(Declaration::Func(*old(f)), Declaration::Func(*final(f))),
        appended_errors(*old(diagnostics), *final(diagnostics), match old(f).body {
            Some(b) => items_outside_errors(b@),
            None => seq![],
        }),
        decl_cases_refilled(Declaration::Func(*old(f)), Declaration::Func(*final(f))),
{
    proof {
        lemma_extended_refl(*diagnostics);
        lemma_errors_none(*diagnostics);
    }
    match &mut f.body {
        Some(b) => find_in_items(b, diagnostics),
        None => {},
    }
}

} // verus!
