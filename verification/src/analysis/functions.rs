//! Checks and rewrites on function bodies: the implicit `return 0`, and the
//! ban on function definitions inside functions.
use vstd::prelude::*;
use crate::diagnostics::{Diagnostics, Span};
use crate::parser::ast::{
    BlockItem, Constant, Declaration, ExprKind, Expression, Program, Statement, StmtKind,
};
use crate::analysis::reporting::{appended_errors, body_of, lemma_errors_none, lemma_errors_trans, Errors};
use crate::text::{string_of, push_string, push_str};

verus! {

broadcast use vstd::std_specs::vec::axiom_spec_len;

/// Whether a block's last item is a `return` statement.
pub open spec fn ends_with_return(b: Seq<BlockItem>) -> bool {
    &&& b.len() > 0
    &&& b.last() matches BlockItem::Stmt(s) && s.kind is Return
}

/// The statement `return 0;` that is added, with the empty span at 0.
pub open spec fn return_zero() -> BlockItem {
    BlockItem::Stmt(Statement {
        kind: StmtKind::Return(Expression { ty: crate::analysis::Type::Int, kind: ExprKind::Constant(Constant::Int(0)), span: 0..0 }),
        span: 0..0,
    })
}

/// Whether `s` is the statement `return 0;` that is added.
pub open spec fn is_return_zero(i: BlockItem) -> bool {
    i == return_zero()
}

fn ends_with_return_exec(b: &Vec<BlockItem>) -> (r: bool)
    ensures
        r == ends_with_return(b@),
{
    if b.len() == 0 {
        return false;
    }
    match &b[b.len() - 1] {
        BlockItem::Stmt(s) => match &s.kind {
            StmtKind::Return(_) => true,
            _ => false,
        },
        _ => false,
    }
}

/// Whether `n` is declaration `o` apart from a function's body: a variable
/// declaration is unchanged, a function keeps its name, signature and spans.
pub open spec fn same_header(o: Declaration, n: Declaration) -> bool {
    match (o, n) {
        (Declaration::Var(a), Declaration::Var(b)) => b == a,
        (Declaration::Func(f), Declaration::Func(g)) => {
            &&& g.name == f.name
            &&& g.params == f.params
            &&& g.return_type == f.return_type
            &&& g.storage_class == f.storage_class
            &&& g.span == f.span
            &&& g.name_span == f.name_span
        },
        _ => false,
    }
}

/// Whether `n` is program `o` with `return 0;` appended to every function
/// body that does not end in a `return` statement, and nothing else changed.
pub open spec fn zero_returned(o: Seq<Declaration>, n: Seq<Declaration>) -> bool {
    &&& n.len() == o.len()
    &&& forall|k: int| 0 <= k < n.len() ==> (body_of(#[trigger] n[k]) is Some <==> body_of(o[k]) is Some)
    &&& forall|k: int| 0 <= k < n.len() ==> (body_of(#[trigger] n[k]) matches Some(b) ==> {
        let ob = body_of(o[k]).unwrap();
        &&& ends_with_return(b)
        &&& ends_with_return(ob) ==> b == ob
        &&& !ends_with_return(ob) ==> b.drop_last() == ob && is_return_zero(b.last())
    })
    &&& forall|k: int| 0 <= k < o.len() ==> same_header(#[trigger] o[k], n[k])
}

/// Appends `return 0;` to every function body that does not end in a
/// `return` statement.
pub fn add_return_zero(program: &mut Program)
    ensures
        final(program).0@.len() == old(program).0@.len(),
        forall|k: int| 0 <= k < final(program).0@.len() ==> (body_of(#[trigger] final(program).0@[k]) is Some
            <==> body_of(old(program).0@[k]) is Some),
        forall|k: int| 0 <= k < final(program).0@.len() ==> (body_of(#[trigger] final(program).0@[k]) matches Some(b) ==> {
            let ob = body_of(old(program).0@[k]).unwrap();
            &&& ends_with_return(b)
            &&& ends_with_return(ob) ==> b == ob
            &&& !ends_with_return(ob) ==> b.drop_last() == ob && is_return_zero(b.last())
        }),
        forall|k: int| 0 <= k < old(program).0@.len() ==> same_header(#[trigger] old(program).0@[k], final(program).0@[k]),
{
    let ghost old_decls = program.0@;
    let n = program.0.len();
    let mut k: usize = 0;
    while k < n
        invariant
            n == program.0@.len(),
            old_decls == old(program).0@,
            k <= n,
            forall|j: int| k <= j < n ==> program.0@[j] == old_decls[j],
            forall|j: int| 0 <= j < n ==> (body_of(#[trigger] program.0@[j]) is Some <==> body_of(old_decls[j]) is Some),
            forall|j: int| 0 <= j < k ==> (body_of(#[trigger] program.0@[j]) matches Some(b) ==> {
                let ob = body_of(old_decls[j]).unwrap();
                &&& ends_with_return(b)
                &&& ends_with_return(ob) ==> b == ob
                &&& !ends_with_return(ob) ==> b.drop_last() == ob && is_return_zero(b.last())
            }),
            forall|j: int| 0 <= j < k ==> same_header(#[trigger] old_decls[j], program.0@[j]),
        decreases n - k,
    {
        let ghost prev = program.0@;
        match &mut program.0[k] {
            Declaration::Func(f) => match &mut f.body {
                Some(b) => {
                    if !ends_with_return_exec(b) {
                        let zero = Expression::new(ExprKind::Constant(Constant::Int(0)), 0..0);
                        b.push(BlockItem::Stmt(Statement::new(StmtKind::Return(zero), 0..0)));
                        proof {
                            assert(b@.drop_last() =~= old_decls[k as int]->Func_0.body.unwrap()@);
                        }
                    }
                },
                None => {},
            },
            _ => {},
        }
        proof {
            assert forall|j: int| 0 <= j < k implies program.0@[j] == prev[j] by {}
        }
        k = k + 1;
    }
}

/// Whether a declaration defines a function (has a body).
pub open spec fn is_definition(d: Declaration) -> bool {
    d matches Declaration::Func(f) && f.body is Some
}

/// The error for a function definition inside a function: at the
/// definition's span, naming it.
pub open spec fn definition_errors(d: Declaration) -> Errors {
    match d {
        Declaration::Func(f) => if f.body is Some {
            seq![(f.span, "function '"@ + f.name.1@ + "' cannot be declared inside another function"@)]
        } else {
            seq![]
        },
        _ => seq![],
    }
}

/// The errors for the function definitions nested in the blocks of `s`, in
/// order.
pub open spec fn nested_definitions(s: Statement) -> Errors
    decreases s,
{
    match s.kind {
        StmtKind::Compound(items) => items_nested_definitions(items@),
        StmtKind::If { then, else_, .. } => nested_definitions(*then) + match else_ {
            Some(e) => nested_definitions(*e),
            None => seq![],
        },
        StmtKind::While { body, .. } => nested_definitions(*body),
        StmtKind::DoWhile { body, .. } => nested_definitions(*body),
        StmtKind::For { body, .. } => nested_definitions(*body),
        StmtKind::Switch(sw) => nested_definitions(*sw.body),
        StmtKind::Case { stmt, .. } => nested_definitions(*stmt),
        StmtKind::DefaultCase { stmt, .. } => nested_definitions(*stmt),
        StmtKind::Label(_, stmt) => nested_definitions(*stmt),
        _ => seq![],
    }
}

pub open spec fn items_nested_definitions(items: Seq<BlockItem>) -> Errors
    decreases items,
{
    if items.len() == 0 {
        seq![]
    } else {
        items_nested_definitions(items.drop_last()) + match items.last() {
            BlockItem::Decl(d) => definition_errors(d),
            BlockItem::Stmt(s) => nested_definitions(s),
        }
    }
}

/// The errors for the function definitions inside the function bodies of
/// `ds`, in order.
pub open spec fn decls_nested_definitions(ds: Seq<Declaration>) -> Errors
    decreases ds.len(),
{
    if ds.len() == 0 {
        seq![]
    } else {
        decls_nested_definitions(ds.drop_last()) + match body_of(ds.last()) {
            Some(b) => items_nested_definitions(b),
            None => seq![],
        }
    }
}

fn check_declaration(d: &Declaration, diagnostics: &mut Diagnostics)
    ensures
        appended_errors(*old(diagnostics), *final(diagnostics), definition_errors(*d)),
{
    match d {
        Declaration::Func(func) => {
            if func.body.is_some() {
                let mut m = string_of("function '");
                push_string(&mut m, &func.name.1);
                push_str(&mut m, "' cannot be declared inside another function");
                diagnostics.analysis_error(func.span.start..func.span.end, m);
                proof {
                    assert(old(diagnostics).vec@ == diagnostics.vec@.drop_last());
                    assert(diagnostics.vec@[old(diagnostics).vec@.len() as int + 0] == diagnostics.vec@.last());
                }
            } else {
                proof { lemma_errors_none(*diagnostics); }
            }
        },
        _ => {
            proof { lemma_errors_none(*diagnostics); }
        },
    }
}

fn check_statement(s: &Statement, diagnostics: &mut Diagnostics)
    ensures
        appended_errors(*old(diagnostics), *final(diagnostics), nested_definitions(*s)),
    decreases s,
{
    match &s.kind {
        StmtKind::Compound(items) => check_items(items, diagnostics),
        StmtKind::If { then, else_, .. } => {
            let ghost d0 = *diagnostics;
            check_statement(then, diagnostics);
            let ghost d1 = *diagnostics;
            match else_ {
                Some(e) => {
                    check_statement(e, diagnostics);
                    proof { lemma_errors_trans(d0, d1, *diagnostics, nested_definitions(**then), nested_definitions(**e)); }
                },
                None => {},
            }
        },
        StmtKind::While { body, .. } => check_statement(body, diagnostics),
        StmtKind::DoWhile { body, .. } => check_statement(body, diagnostics),
        StmtKind::For { body, .. } => check_statement(body, diagnostics),
        StmtKind::Switch(sw) => check_statement(&sw.body, diagnostics),
        StmtKind::Case { stmt, .. } => check_statement(stmt, diagnostics),
        StmtKind::DefaultCase { stmt, .. } => check_statement(stmt, diagnostics),
        StmtKind::Label(_, stmt) => check_statement(stmt, diagnostics),
        _ => {
            proof { lemma_errors_none(*diagnostics); }
        },
    }
}

fn check_items(items: &Vec<BlockItem>, diagnostics: &mut Diagnostics)
    ensures
        appended_errors(*old(diagnostics), *final(diagnostics), items_nested_definitions(items@)),
    decreases items,
{
    let mut k: usize = 0;
    proof { lemma_errors_none(*diagnostics); }
    while k < items.len()
        invariant
            k <= items@.len(),
            appended_errors(*old(diagnostics), *diagnostics, items_nested_definitions(items@.take(k as int))),
        decreases items@.len() - k,
    {
        let ghost before = *diagnostics;
        proof {
            vstd::std_specs::vec::axiom_vec_index_decreases(*items, k as int);
        }
        match &items[k] {
            BlockItem::Decl(d) => check_declaration(d, diagnostics),
            BlockItem::Stmt(s) => check_statement(s, diagnostics),
        }
        proof {
            assert(items@.take(k + 1).drop_last() =~= items@.take(k as int));
            lemma_errors_trans(*old(diagnostics), before, *diagnostics,
                items_nested_definitions(items@.take(k as int)),
                match items@[k as int] {
                    BlockItem::Decl(d) => definition_errors(d),
                    BlockItem::Stmt(s) => nested_definitions(s),
                });
        }
        k = k + 1;
    }
    proof {
        assert(items@.take(items@.len() as int) =~= items@);
    }
}

/// Reports every function definition that stands inside a function body, at
/// the definition's span.
pub fn check_for_nested_functions(program: &Program, diagnostics: &mut Diagnostics)
    ensures
        appended_errors(*old(diagnostics), *final(diagnostics), decls_nested_definitions(program.0@)),
{
    let mut k: usize = 0;
    proof { lemma_errors_none(*diagnostics); }
    while k < program.0.len()
        invariant
            k <= program.0@.len(),
            appended_errors(*old(diagnostics), *diagnostics, decls_nested_definitions(program.0@.take(k as int))),
        decreases program.0@.len() - k,
    {
        let ghost before = *diagnostics;
        match &program.0[k] {
            Declaration::Func(f) => match &f.body {
                Some(b) => check_items(b, diagnostics),
                None => {
                    proof { lemma_errors_none(*diagnostics); }
                },
            },
            _ => {
                proof { lemma_errors_none(*diagnostics); }
            },
        }
        proof {
            assert(program.0@.take(k + 1).drop_last() =~= program.0@.take(k as int));
            lemma_errors_trans(*old(diagnostics), before, *diagnostics,
                decls_nested_definitions(program.0@.take(k as int)),
                match body_of(program.0@[k as int]) { Some(b) => items_nested_definitions(b), None => Seq::<(Span, Seq<char>)>::empty() });
        }
        k = k + 1;
    }
    proof {
        assert(program.0@.take(program.0@.len() as int) =~= program.0@);
    }
}

} // verus!
