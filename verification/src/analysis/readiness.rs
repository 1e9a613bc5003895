//! Why a program that the analysis passes accept without error can be
//! lowered: each pass keeps, or establishes, what lowering needs of every
//! expression.
use vstd::prelude::*;
use crate::analysis::checker::{
    decl_checked, expr_checked, expr_checked_in_scope, function_checked, items_checked, local_checked,
    operand_checked, operand_checked_in_scope, opt_checked, stmt_checked,
};
use crate::analysis::compound::{decl_replaced, expr_replaced, items_replaced, no_compound, opt_replaced, stmt_replaced, var_replaced};
use crate::analysis::declarations::{
    declaration_lvalues_ok, decls_resolved, decls_scope, expr_resolved, for_init_resolved, for_scope, func_resolved,
    function_lvalues_ok, item_resolved, items_lvalues_ok, items_resolved, items_scope, lvalues_ok, opt_expr_resolved,
    params_scope, stmt_lvalues_ok, stmt_resolved, var_lvalues_ok, var_resolved,
};
use crate::analysis::shape::{decl_same_code, decls_same_code, function_same_code, items_same_code, same_code};
use crate::analysis::functions::{ends_with_return, is_return_zero, same_header};
use crate::analysis::reporting::body_of;
use crate::parser::ast::Program;
use crate::parser::lowering::program_lowerable;
use crate::parser::ast::{BlockItem, Declaration, ExprKind, Expression, ForInit, FunctionDeclaration, Statement, StmtKind, VariableDeclaration};
use crate::parser::lowering::{expr_lowerable, items_lowerable, stmt_lowerable, var_lowerable};
use crate::parser::operators::{BinaryOperator, spec_can_be_lowered, spec_compound_assign, spec_from_token, spec_is_compound_assign, spec_precedence};
use crate::parser::grammar::{
    args_derive, conditional_precedence, decls_derive, expr_derives, factor_derives, for_init_derives, func_decl_derives,
    inc_dec_token, item_derives, items_derive, opt_expr_derives, postfix_derives, primary_derives, program_derives,
    stmt_derives, tk, unary_token, var_decl_derives, decl_derives,
};
use crate::lexer::{SpannedToken, Token};

verus! {

/// Whether the operators of an expression stand where the parser puts them:
/// every binary operator is one the IR has, `&&` or `||`, and every compound
/// assignment applies an operator.
pub open spec fn operators_placed(e: Expression) -> bool
    decreases e,
{
    match e.kind {
        ExprKind::Var(_) | ExprKind::Constant(_) => true,
        ExprKind::Cast { expr, .. } => operators_placed(*expr),
        ExprKind::Unary { expr, .. } => operators_placed(*expr),
        ExprKind::Binary { operator, lhs, rhs } => {
            &&& spec_can_be_lowered(operator) || operator == BinaryOperator::And || operator == BinaryOperator::Or
            &&& operators_placed(*lhs)
            &&& operators_placed(*rhs)
        },
        ExprKind::CompoundAssign { operator, lhs, rhs } => {
            &&& spec_compound_assign(operator) is Some
            &&& operators_placed(*lhs)
            &&& operators_placed(*rhs)
        },
        ExprKind::Assignment(l, r) => operators_placed(*l) && operators_placed(*r),
        ExprKind::Prefix(_, inner) => operators_placed(*inner),
        ExprKind::Postfix(_, inner) => operators_placed(*inner),
        ExprKind::Conditional(c, t, f) => operators_placed(*c) && operators_placed(*t) && operators_placed(*f),
        ExprKind::FunctionCall { args, .. } => forall|k: int| 0 <= k < args@.len() ==> operators_placed(#[trigger] args@[k]),
    }
}

/// Expressions whose operators stand where the parser puts them.
pub open spec fn placed() -> spec_fn(Expression) -> bool {
    |e: Expression| operators_placed(e)
}

/// Expressions with their operators in place and no compound assignment.
pub open spec fn plain() -> spec_fn(Expression) -> bool {
    |e: Expression| operators_placed(e) && no_compound(e)
}

/// Expressions that can be lowered.
pub open spec fn lowerable() -> spec_fn(Expression) -> bool {
    |e: Expression| expr_lowerable(e)
}

/// Whether every expression of a statement, nested declarations included,
/// has property `p`.
pub open spec fn stmt_every(s: Statement, p: spec_fn(Expression) -> bool) -> bool
    decreases s,
{
    match s.kind {
        StmtKind::Return(e) => p(e),
        StmtKind::Expression(e) => p(e),
        StmtKind::If { cond, then, else_ } => {
            &&& p(cond)
            &&& stmt_every(*then, p)
            &&& match else_ {
                Some(e) => stmt_every(*e, p),
                None => true,
            }
        },
        StmtKind::While { cond, body, .. } => p(cond) && stmt_every(*body, p),
        StmtKind::DoWhile { cond, body, .. } => p(cond) && stmt_every(*body, p),
        StmtKind::For { init, condition, post, body, .. } => {
            &&& match init {
                ForInit::Decl(v) => var_every(v, p),
                ForInit::Expr(e) => p(e),
                ForInit::Empty => true,
            }
            &&& (condition matches Some(c) ==> p(c))
            &&& (post matches Some(e) ==> p(e))
            &&& stmt_every(*body, p)
        },
        StmtKind::Switch(sw) => p(sw.value) && stmt_every(*sw.body, p),
        StmtKind::Compound(items) => items_every(items@, p),
        StmtKind::Label(_, st) => stmt_every(*st, p),
        StmtKind::Case { stmt, .. } => stmt_every(*stmt, p),
        StmtKind::DefaultCase { stmt, .. } => stmt_every(*stmt, p),
        _ => true,
    }
}

/// Whether a variable's initializer, if any, has property `p`.
pub open spec fn var_every(v: VariableDeclaration, p: spec_fn(Expression) -> bool) -> bool {
    v.init matches Some(e) ==> p(e)
}

/// Whether every expression of a list of block items has property `p`.
pub open spec fn items_every(items: Seq<BlockItem>, p: spec_fn(Expression) -> bool) -> bool
    decreases items,
{
    if items.len() == 0 {
        true
    } else {
        &&& items_every(items.drop_last(), p)
        &&& match items.last() {
            BlockItem::Stmt(s) => stmt_every(s, p),
            BlockItem::Decl(Declaration::Var(v)) => var_every(v, p),
            BlockItem::Decl(Declaration::Func(f)) => function_every(f, p),
        }
    }
}

/// Whether every expression of a function's body, if any, has property `p`.
pub open spec fn function_every(f: FunctionDeclaration, p: spec_fn(Expression) -> bool) -> bool
    decreases f,
{
    match f.body {
        Some(b) => items_every(b@, p),
        None => true,
    }
}

/// Whether every expression of a declaration has property `p`.
pub open spec fn decl_every(d: Declaration, p: spec_fn(Expression) -> bool) -> bool {
    match d {
        Declaration::Var(v) => var_every(v, p),
        Declaration::Func(f) => function_every(f, p),
    }
}

/// Whether every expression of a program has property `p`.
pub open spec fn program_every(ds: Seq<Declaration>, p: spec_fn(Expression) -> bool) -> bool {
    forall|k: int| 0 <= k < ds.len() ==> decl_every(#[trigger] ds[k], p)
}

/// The operator that a compound assignment applies is one the IR has.
proof fn lemma_base_lowerable(op: BinaryOperator)
    requires
        spec_compound_assign(op) is Some,
    ensures
        spec_can_be_lowered(crate::analysis::compound::compound_base(op)),
{
    match op {
        BinaryOperator::AddAssign => {},
        BinaryOperator::SubtractAssign => {},
        BinaryOperator::MultiplyAssign => {},
        BinaryOperator::DivideAssign => {},
        BinaryOperator::RemainderAssign => {},
        BinaryOperator::BitwiseAndAssign => {},
        BinaryOperator::BitwiseXorAssign => {},
        BinaryOperator::BitwiseOrAssign => {},
        BinaryOperator::LeftShiftAssign => {},
        BinaryOperator::RightShiftAssign => {},
        _ => {},
    }
}

/// What type checking makes of a variable is a variable.
proof fn lemma_checked_var(o: Expression, n: Expression, m: Map<crate::table::Key, crate::analysis::Symbol>)
    requires
        expr_checked(o, n, m),
        o.kind is Var,
    ensures
        n.kind is Var,
{
}

/// Rewriting compound assignments keeps the operators in place and leaves
/// none.
proof fn lemma_replaced_plain(o: Expression, n: Expression)
    requires
        expr_replaced(o, n),
        operators_placed(o),
    ensures
        operators_placed(n),
        no_compound(n),
    decreases o,
{
    match (o.kind, n.kind) {
        (ExprKind::CompoundAssign { operator, lhs: l1, rhs: r1 }, ExprKind::Assignment(t, v)) => {
            lemma_base_lowerable(operator);
            lemma_replaced_plain(*l1, *t);
            match v.kind {
                ExprKind::Binary { lhs: l2, rhs: r2, .. } => {
                    lemma_replaced_plain(*l1, *l2);
                    lemma_replaced_plain(*r1, *r2);
                },
                _ => {},
            }
            assert(operators_placed(*v) && no_compound(*v));
        },
        (ExprKind::Cast { expr: x, .. }, ExprKind::Cast { expr: y, .. }) => lemma_replaced_plain(*x, *y),
        (ExprKind::Unary { expr: x, .. }, ExprKind::Unary { expr: y, .. }) => lemma_replaced_plain(*x, *y),
        (ExprKind::Binary { lhs: l1, rhs: r1, .. }, ExprKind::Binary { lhs: l2, rhs: r2, .. }) => {
            lemma_replaced_plain(*l1, *l2);
            lemma_replaced_plain(*r1, *r2);
        },
        (ExprKind::Assignment(l1, r1), ExprKind::Assignment(l2, r2)) => {
            lemma_replaced_plain(*l1, *l2);
            lemma_replaced_plain(*r1, *r2);
        },
        (ExprKind::Prefix(_, x), ExprKind::Prefix(_, y)) => lemma_replaced_plain(*x, *y),
        (ExprKind::Postfix(_, x), ExprKind::Postfix(_, y)) => lemma_replaced_plain(*x, *y),
        (ExprKind::Conditional(c1, t1, f1), ExprKind::Conditional(c2, t2, f2)) => {
            lemma_replaced_plain(*c1, *c2);
            lemma_replaced_plain(*t1, *t2);
            lemma_replaced_plain(*f1, *f2);
        },
        (ExprKind::FunctionCall { args: a1, .. }, ExprKind::FunctionCall { args: a2, .. }) => {
            assert forall|k: int| 0 <= k < a2@.len() implies operators_placed(#[trigger] a2@[k]) && no_compound(a2@[k]) by {
                vstd::std_specs::vec::axiom_vec_index_decreases(a1, k);
                assert(decreases_to!(o => a1@[k]));
                lemma_replaced_plain(a1@[k], a2@[k]);
            }
        },
        _ => {},
    }
}

/// Resolving names keeps an expression plain.
proof fn lemma_resolved_plain(o: Expression, n: Expression, m: Map<crate::table::Key, crate::parser::ast::Identifier>)
    requires
        expr_resolved(o, n, m),
        operators_placed(o),
        no_compound(o),
    ensures
        operators_placed(n),
        no_compound(n),
    decreases o,
{
    match (o.kind, n.kind) {
        (ExprKind::Cast { expr: x, .. }, ExprKind::Cast { expr: y, .. }) => lemma_resolved_plain(*x, *y, m),
        (ExprKind::Unary { expr: x, .. }, ExprKind::Unary { expr: y, .. }) => lemma_resolved_plain(*x, *y, m),
        (ExprKind::Binary { lhs: l1, rhs: r1, .. }, ExprKind::Binary { lhs: l2, rhs: r2, .. }) => {
            lemma_resolved_plain(*l1, *l2, m);
            lemma_resolved_plain(*r1, *r2, m);
        },
        (ExprKind::Assignment(l1, r1), ExprKind::Assignment(l2, r2)) => {
            lemma_resolved_plain(*l1, *l2, m);
            lemma_resolved_plain(*r1, *r2, m);
        },
        (ExprKind::Prefix(_, x), ExprKind::Prefix(_, y)) => lemma_resolved_plain(*x, *y, m),
        (ExprKind::Postfix(_, x), ExprKind::Postfix(_, y)) => lemma_resolved_plain(*x, *y, m),
        (ExprKind::Conditional(c1, t1, f1), ExprKind::Conditional(c2, t2, f2)) => {
            lemma_resolved_plain(*c1, *c2, m);
            lemma_resolved_plain(*t1, *t2, m);
            lemma_resolved_plain(*f1, *f2, m);
        },
        (ExprKind::FunctionCall { args: a1, .. }, ExprKind::FunctionCall { args: a2, .. }) => {
            assert forall|k: int| 0 <= k < a2@.len() implies operators_placed(#[trigger] a2@[k]) && no_compound(a2@[k]) by {
                vstd::std_specs::vec::axiom_vec_index_decreases(a1, k);
                assert(decreases_to!(o => a1@[k]));
                lemma_resolved_plain(a1@[k], a2@[k], m);
            }
        },
        _ => {},
    }
}

/// A plain expression whose assignments and increments all apply to
/// variables can be lowered.
proof fn lemma_plain_lowerable(e: Expression)
    requires
        operators_placed(e),
        no_compound(e),
        lvalues_ok(e),
    ensures
        expr_lowerable(e),
    decreases e,
{
    match e.kind {
        ExprKind::Cast { expr, .. } => lemma_plain_lowerable(*expr),
        ExprKind::Unary { expr, .. } => lemma_plain_lowerable(*expr),
        ExprKind::Binary { lhs, rhs, .. } => {
            lemma_plain_lowerable(*lhs);
            lemma_plain_lowerable(*rhs);
        },
        ExprKind::Assignment(_, r) => lemma_plain_lowerable(*r),
        ExprKind::Conditional(c, t, f) => {
            lemma_plain_lowerable(*c);
            lemma_plain_lowerable(*t);
            lemma_plain_lowerable(*f);
        },
        ExprKind::FunctionCall { args, .. } => {
            assert forall|k: int| 0 <= k < args@.len() implies expr_lowerable(#[trigger] args@[k]) by {
                vstd::std_specs::vec::axiom_vec_index_decreases(args, k);
                assert(decreases_to!(e => args@[k]));
                lemma_plain_lowerable(args@[k]);
            }
        },
        _ => {},
    }
}

/// Type checking keeps an expression lowerable.
proof fn lemma_checked_lowerable(o: Expression, n: Expression, m: Map<crate::table::Key, crate::analysis::Symbol>)
    requires
        expr_checked(o, n, m),
        expr_lowerable(o),
    ensures
        expr_lowerable(n),
    decreases o, 1int,
{
    match (o.kind, n.kind) {
        (ExprKind::Cast { expr: x, .. }, ExprKind::Cast { expr: y, .. }) => lemma_checked_lowerable(*x, *y, m),
        (ExprKind::Unary { expr: x, .. }, ExprKind::Unary { expr: y, .. }) => lemma_checked_lowerable(*x, *y, m),
        (ExprKind::Binary { lhs: l1, rhs: r1, operator }, ExprKind::Binary { lhs: l2, rhs: r2, .. }) => {
            if crate::analysis::checker::is_logical(operator) || crate::analysis::checker::is_shift(operator) {
                lemma_checked_lowerable(*l1, *l2, m);
                lemma_checked_lowerable(*r1, *r2, m);
            } else {
                lemma_operand_lowerable(*l1, *l2, m);
                lemma_operand_lowerable(*r1, *r2, m);
            }
        },
        (ExprKind::Assignment(l1, r1), ExprKind::Assignment(l2, r2)) => {
            lemma_checked_var(*l1, *l2, m);
            lemma_operand_lowerable(*r1, *r2, m);
        },
        (ExprKind::Prefix(_, x), ExprKind::Prefix(_, y)) => lemma_checked_var(*x, *y, m),
        (ExprKind::Postfix(_, x), ExprKind::Postfix(_, y)) => lemma_checked_var(*x, *y, m),
        (ExprKind::Conditional(c1, t1, f1), ExprKind::Conditional(c2, t2, f2)) => {
            lemma_checked_lowerable(*c1, *c2, m);
            lemma_operand_lowerable(*t1, *t2, m);
            lemma_operand_lowerable(*f1, *f2, m);
        },
        (ExprKind::FunctionCall { args: a1, .. }, ExprKind::FunctionCall { args: a2, .. }) => {
            assert forall|k: int| 0 <= k < a2@.len() implies expr_lowerable(#[trigger] a2@[k]) by {
                vstd::std_specs::vec::axiom_vec_index_decreases(a1, k);
                assert(decreases_to!(o => a1@[k]));
                lemma_operand_lowerable(a1@[k], a2@[k], m);
            }
        },
        _ => {},
    }
}

/// A checked operand, converted or not, stays lowerable.
proof fn lemma_operand_lowerable(o: Expression, n: Expression, m: Map<crate::table::Key, crate::analysis::Symbol>)
    requires
        operand_checked(o, n, m),
        expr_lowerable(o),
    ensures
        expr_lowerable(n),
    decreases o, 2int,
{
    if expr_checked(o, n, m) {
        lemma_checked_lowerable(o, n, m);
    } else {
        match n.kind {
            ExprKind::Cast { expr: inner, .. } => lemma_checked_lowerable(o, *inner, m),
            _ => {},
        }
    }
}

/// Renaming jumps leaves every expression of a statement as it was.
proof fn lemma_same_code_every(o: Statement, n: Statement, p: spec_fn(Expression) -> bool)
    requires
        same_code(o, n),
        stmt_every(o, p),
    ensures
        stmt_every(n, p),
    decreases o,
{
    match (o.kind, n.kind) {
        (StmtKind::If { then: t1, else_: e1, .. }, StmtKind::If { then: t2, else_: e2, .. }) => {
            lemma_same_code_every(*t1, *t2, p);
            match (e1, e2) {
                (Some(x), Some(y)) => lemma_same_code_every(*x, *y, p),
                _ => {},
            }
        },
        (StmtKind::Label(_, x), StmtKind::Label(_, y)) => lemma_same_code_every(*x, *y, p),
        (StmtKind::Compound(x), StmtKind::Compound(y)) => lemma_items_same_code_every(x@, y@, p),
        (StmtKind::While { body: x, .. }, StmtKind::While { body: y, .. }) => lemma_same_code_every(*x, *y, p),
        (StmtKind::DoWhile { body: x, .. }, StmtKind::DoWhile { body: y, .. }) => lemma_same_code_every(*x, *y, p),
        (StmtKind::For { body: x, .. }, StmtKind::For { body: y, .. }) => lemma_same_code_every(*x, *y, p),
        (StmtKind::Switch(x), StmtKind::Switch(y)) => lemma_same_code_every(*x.body, *y.body, p),
        (StmtKind::Case { stmt: x, .. }, StmtKind::Case { stmt: y, .. }) => lemma_same_code_every(*x, *y, p),
        (StmtKind::DefaultCase { stmt: x, .. }, StmtKind::DefaultCase { stmt: y, .. }) => lemma_same_code_every(*x, *y, p),
        _ => {},
    }
}

proof fn lemma_items_same_code_every(o: Seq<BlockItem>, n: Seq<BlockItem>, p: spec_fn(Expression) -> bool)
    requires
        items_same_code(o, n),
        items_every(o, p),
    ensures
        items_every(n, p),
    decreases o,
{
    if o.len() > 0 {
        lemma_items_same_code_every(o.drop_last(), n.drop_last(), p);
        match (o.last(), n.last()) {
            (BlockItem::Stmt(x), BlockItem::Stmt(y)) => lemma_same_code_every(x, y, p),
            _ => {},
        }
    }
}

/// A declaration that is the same code has the same expressions.
proof fn lemma_decl_same_code_every(o: Declaration, n: Declaration, p: spec_fn(Expression) -> bool)
    requires
        decl_same_code(o, n),
        decl_every(o, p),
    ensures
        decl_every(n, p),
{
    match (o, n) {
        (Declaration::Func(f), Declaration::Func(g)) => match (f.body, g.body) {
            (Some(a), Some(b)) => lemma_items_same_code_every(a@, b@, p),
            _ => {},
        },
        _ => {},
    }
}

/// Plain expressions with valid assignment targets throughout a statement
/// make it lowerable throughout.
proof fn lemma_lvalues_every(s: Statement)
    requires
        stmt_every(s, plain()),
        stmt_lvalues_ok(s),
    ensures
        stmt_every(s, lowerable()),
    decreases s,
{
    match s.kind {
        StmtKind::Return(e) => lemma_plain_lowerable(e),
        StmtKind::Expression(e) => lemma_plain_lowerable(e),
        StmtKind::If { cond, then, else_ } => {
            lemma_plain_lowerable(cond);
            lemma_lvalues_every(*then);
            match else_ {
                Some(x) => lemma_lvalues_every(*x),
                None => {},
            }
        },
        StmtKind::While { cond, body, .. } => {
            lemma_plain_lowerable(cond);
            lemma_lvalues_every(*body);
        },
        StmtKind::DoWhile { cond, body, .. } => {
            lemma_plain_lowerable(cond);
            lemma_lvalues_every(*body);
        },
        StmtKind::For { init, condition, post, body, .. } => {
            match init {
                ForInit::Decl(v) => match v.init {
                    Some(e) => lemma_plain_lowerable(e),
                    None => {},
                },
                ForInit::Expr(e) => lemma_plain_lowerable(e),
                ForInit::Empty => {},
            }
            match condition {
                Some(c) => lemma_plain_lowerable(c),
                None => {},
            }
            match post {
                Some(e) => lemma_plain_lowerable(e),
                None => {},
            }
            lemma_lvalues_every(*body);
        },
        StmtKind::Switch(sw) => {
            lemma_plain_lowerable(sw.value);
            lemma_lvalues_every(*sw.body);
        },
        StmtKind::Compound(items) => lemma_items_lvalues_every(items@),
        StmtKind::Label(_, x) => lemma_lvalues_every(*x),
        StmtKind::Case { stmt, .. } => lemma_lvalues_every(*stmt),
        StmtKind::DefaultCase { stmt, .. } => lemma_lvalues_every(*stmt),
        _ => {},
    }
}

proof fn lemma_items_lvalues_every(items: Seq<BlockItem>)
    requires
        items_every(items, plain()),
        items_lvalues_ok(items),
    ensures
        items_every(items, lowerable()),
    decreases items,
{
    if items.len() > 0 {
        lemma_items_lvalues_every(items.drop_last());
        match items.last() {
            BlockItem::Stmt(x) => lemma_lvalues_every(x),
            BlockItem::Decl(Declaration::Var(v)) => match v.init {
                Some(e) => lemma_plain_lowerable(e),
                None => {},
            },
            BlockItem::Decl(Declaration::Func(f)) => lemma_function_lvalues_every(f),
        }
    }
}

proof fn lemma_function_lvalues_every(f: FunctionDeclaration)
    requires
        function_every(f, plain()),
        function_lvalues_ok(f),
    ensures
        function_every(f, lowerable()),
    decreases f,
{
    match f.body {
        Some(b) => lemma_items_lvalues_every(b@),
        None => {},
    }
}

/// A statement whose expressions can all be lowered can be lowered.
proof fn lemma_every_lowerable(s: Statement)
    requires
        stmt_every(s, lowerable()),
    ensures
        stmt_lowerable(s),
    decreases s,
{
    match s.kind {
        StmtKind::If { then, else_, .. } => {
            lemma_every_lowerable(*then);
            match else_ {
                Some(x) => lemma_every_lowerable(*x),
                None => {},
            }
        },
        StmtKind::While { body, .. } => lemma_every_lowerable(*body),
        StmtKind::DoWhile { body, .. } => lemma_every_lowerable(*body),
        StmtKind::For { body, .. } => lemma_every_lowerable(*body),
        StmtKind::Switch(sw) => lemma_every_lowerable(*sw.body),
        StmtKind::Compound(items) => lemma_items_every_lowerable(items@),
        StmtKind::Label(_, x) => lemma_every_lowerable(*x),
        StmtKind::Case { stmt, .. } => lemma_every_lowerable(*stmt),
        StmtKind::DefaultCase { stmt, .. } => lemma_every_lowerable(*stmt),
        _ => {},
    }
}

proof fn lemma_items_every_lowerable(items: Seq<BlockItem>)
    requires
        items_every(items, lowerable()),
    ensures
        items_lowerable(items),
    decreases items,
{
    if items.len() > 0 {
        lemma_items_every_lowerable(items.drop_last());
        match items.last() {
            BlockItem::Stmt(x) => lemma_every_lowerable(x),
            _ => {},
        }
    }
}

proof fn lemma_opt_replaced(o: Option<Expression>, n: Option<Expression>)
    requires
        opt_replaced(o, n),
        o matches Some(e) ==> operators_placed(e),
    ensures
        n matches Some(e) ==> operators_placed(e) && no_compound(e),
{
    match (o, n) {
        (Some(a), Some(b)) => lemma_replaced_plain(a, b),
        _ => {},
    }
}

/// Rewriting the compound assignments of a statement makes its expressions
/// plain.
proof fn lemma_replaced_every(o: Statement, n: Statement)
    requires
        stmt_replaced(o, n),
        stmt_every(o, placed()),
    ensures
        stmt_every(n, plain()),
    decreases o,
{
    match (o.kind, n.kind) {
        (StmtKind::Return(a), StmtKind::Return(b)) => lemma_replaced_plain(a, b),
        (StmtKind::Expression(a), StmtKind::Expression(b)) => lemma_replaced_plain(a, b),
        (StmtKind::If { cond: c1, then: t1, else_: e1 }, StmtKind::If { cond: c2, then: t2, else_: e2 }) => {
            lemma_replaced_plain(c1, c2);
            lemma_replaced_every(*t1, *t2);
            match (e1, e2) {
                (Some(x), Some(y)) => lemma_replaced_every(*x, *y),
                _ => {},
            }
        },
        (StmtKind::Label(_, x), StmtKind::Label(_, y)) => lemma_replaced_every(*x, *y),
        (StmtKind::Compound(x), StmtKind::Compound(y)) => lemma_items_replaced_every(x@, y@),
        (StmtKind::While { cond: c1, body: x, .. }, StmtKind::While { cond: c2, body: y, .. }) => {
            lemma_replaced_plain(c1, c2);
            lemma_replaced_every(*x, *y);
        },
        (StmtKind::DoWhile { cond: c1, body: x, .. }, StmtKind::DoWhile { cond: c2, body: y, .. }) => {
            lemma_replaced_plain(c1, c2);
            lemma_replaced_every(*x, *y);
        },
        (
            StmtKind::For { init: i1, condition: c1, post: p1, body: x, .. },
            StmtKind::For { init: i2, condition: c2, post: p2, body: y, .. },
        ) => {
            match (i1, i2) {
                (ForInit::Decl(v), ForInit::Decl(w)) => lemma_opt_replaced(v.init, w.init),
                (ForInit::Expr(a), ForInit::Expr(b)) => lemma_replaced_plain(a, b),
                _ => {},
            }
            lemma_opt_replaced(c1, c2);
            lemma_opt_replaced(p1, p2);
            lemma_replaced_every(*x, *y);
        },
        (StmtKind::Switch(x), StmtKind::Switch(y)) => {
            lemma_replaced_plain(x.value, y.value);
            lemma_replaced_every(*x.body, *y.body);
        },
        (StmtKind::Case { stmt: x, .. }, StmtKind::Case { stmt: y, .. }) => lemma_replaced_every(*x, *y),
        (StmtKind::DefaultCase { stmt: x, .. }, StmtKind::DefaultCase { stmt: y, .. }) => lemma_replaced_every(*x, *y),
        _ => {},
    }
}

proof fn lemma_items_replaced_every(o: Seq<BlockItem>, n: Seq<BlockItem>)
    requires
        items_replaced(o, n),
        items_every(o, placed()),
    ensures
        items_every(n, plain()),
    decreases o,
{
    if o.len() > 0 {
        lemma_items_replaced_every(o.drop_last(), n.drop_last());
        match (o.last(), n.last()) {
            (BlockItem::Stmt(x), BlockItem::Stmt(y)) => lemma_replaced_every(x, y),
            (BlockItem::Decl(d), BlockItem::Decl(e)) => lemma_decl_replaced_every(d, e),
            _ => {},
        }
    }
}

/// Rewriting the compound assignments of a declaration makes its
/// expressions plain.
proof fn lemma_decl_replaced_every(o: Declaration, n: Declaration)
    requires
        decl_replaced(o, n),
        decl_every(o, placed()),
    ensures
        decl_every(n, plain()),
    decreases o,
{
    match (o, n) {
        (Declaration::Var(v), Declaration::Var(w)) => lemma_opt_replaced(v.init, w.init),
        (Declaration::Func(f), Declaration::Func(g)) => match (f.body, g.body) {
            (Some(a), Some(b)) => lemma_items_replaced_every(a@, b@),
            _ => {},
        },
        _ => {},
    }
}

proof fn lemma_opt_checked(o: Option<Expression>, n: Option<Expression>)
    requires
        opt_checked(o, n),
        o matches Some(e) ==> expr_lowerable(e),
    ensures
        n matches Some(e) ==> expr_lowerable(e),
{
    match (o, n) {
        (Some(a), Some(b)) => {
            let m = choose|m: Map<crate::table::Key, crate::analysis::Symbol>| expr_checked(a, b, m);
            lemma_checked_lowerable(a, b, m);
        },
        _ => {},
    }
}

proof fn lemma_in_scope_lowerable(a: Expression, b: Expression)
    requires
        expr_checked_in_scope(a, b),
        expr_lowerable(a),
    ensures
        expr_lowerable(b),
{
    let m = choose|m: Map<crate::table::Key, crate::analysis::Symbol>| expr_checked(a, b, m);
    lemma_checked_lowerable(a, b, m);
}

proof fn lemma_operand_in_scope_lowerable(a: Expression, b: Expression)
    requires
        operand_checked_in_scope(a, b),
        expr_lowerable(a),
    ensures
        expr_lowerable(b),
{
    let m = choose|m: Map<crate::table::Key, crate::analysis::Symbol>| operand_checked(a, b, m);
    lemma_operand_lowerable(a, b, m);
}

proof fn lemma_local_checked(v: VariableDeclaration, w: VariableDeclaration)
    requires
        local_checked(v, w),
        var_every(v, lowerable()),
    ensures
        var_every(w, lowerable()),
{
    if v.storage_class == crate::parser::ast::StorageClass::Unspecified {
        match (v.init, w.init) {
            (Some(a), Some(b)) => lemma_operand_in_scope_lowerable(a, b),
            _ => {},
        }
    }
}

/// Type checking a statement keeps its expressions lowerable.
proof fn lemma_checked_every(o: Statement, n: Statement)
    requires
        stmt_checked(o, n),
        stmt_every(o, lowerable()),
    ensures
        stmt_every(n, lowerable()),
    decreases o,
{
    match (o.kind, n.kind) {
        (StmtKind::Return(a), StmtKind::Return(b)) => lemma_operand_in_scope_lowerable(a, b),
        (StmtKind::Expression(a), StmtKind::Expression(b)) => lemma_in_scope_lowerable(a, b),
        (StmtKind::If { cond: c1, then: t1, else_: e1 }, StmtKind::If { cond: c2, then: t2, else_: e2 }) => {
            lemma_in_scope_lowerable(c1, c2);
            lemma_checked_every(*t1, *t2);
            match (e1, e2) {
                (Some(x), Some(y)) => lemma_checked_every(*x, *y),
                _ => {},
            }
        },
        (StmtKind::Label(_, x), StmtKind::Label(_, y)) => lemma_checked_every(*x, *y),
        (StmtKind::Compound(x), StmtKind::Compound(y)) => lemma_items_checked_every(x@, y@),
        (StmtKind::While { cond: c1, body: x, .. }, StmtKind::While { cond: c2, body: y, .. }) => {
            lemma_in_scope_lowerable(c1, c2);
            lemma_checked_every(*x, *y);
        },
        (StmtKind::DoWhile { cond: c1, body: x, .. }, StmtKind::DoWhile { cond: c2, body: y, .. }) => {
            lemma_in_scope_lowerable(c1, c2);
            lemma_checked_every(*x, *y);
        },
        (
            StmtKind::For { init: i1, condition: c1, post: p1, body: x, .. },
            StmtKind::For { init: i2, condition: c2, post: p2, body: y, .. },
        ) => {
            match (i1, i2) {
                (ForInit::Decl(v), ForInit::Decl(w)) => lemma_local_checked(v, w),
                (ForInit::Expr(a), ForInit::Expr(b)) => lemma_in_scope_lowerable(a, b),
                _ => {},
            }
            lemma_opt_checked(c1, c2);
            lemma_opt_checked(p1, p2);
            lemma_checked_every(*x, *y);
        },
        (StmtKind::Switch(x), StmtKind::Switch(y)) => {
            lemma_in_scope_lowerable(x.value, y.value);
            lemma_checked_every(*x.body, *y.body);
        },
        (StmtKind::Case { stmt: x, .. }, StmtKind::Case { stmt: y, .. }) => lemma_checked_every(*x, *y),
        (StmtKind::DefaultCase { stmt: x, .. }, StmtKind::DefaultCase { stmt: y, .. }) => lemma_checked_every(*x, *y),
        _ => {},
    }
}

proof fn lemma_items_checked_every(o: Seq<BlockItem>, n: Seq<BlockItem>)
    requires
        items_checked(o, n),
        items_every(o, lowerable()),
    ensures
        items_every(n, lowerable()),
    decreases o,
{
    if o.len() > 0 {
        lemma_items_checked_every(o.drop_last(), n.drop_last());
        match (o.last(), n.last()) {
            (BlockItem::Stmt(x), BlockItem::Stmt(y)) => lemma_checked_every(x, y),
            (BlockItem::Decl(Declaration::Var(v)), BlockItem::Decl(Declaration::Var(w))) => lemma_local_checked(v, w),
            (BlockItem::Decl(Declaration::Func(f)), BlockItem::Decl(Declaration::Func(g))) => lemma_function_checked_every(f, g),
            _ => {},
        }
    }
}

proof fn lemma_function_checked_every(o: FunctionDeclaration, n: FunctionDeclaration)
    requires
        function_checked(o, n),
        function_every(o, lowerable()),
    ensures
        function_every(n, lowerable()),
    decreases o,
{
    match (o.body, n.body) {
        (Some(a), Some(b)) => lemma_items_checked_every(a@, b@),
        _ => {},
    }
}

proof fn lemma_opt_resolved(o: Option<Expression>, n: Option<Expression>, m: Map<crate::table::Key, crate::parser::ast::Identifier>)
    requires
        opt_expr_resolved(o, n, m),
        o matches Some(e) ==> operators_placed(e) && no_compound(e),
    ensures
        n matches Some(e) ==> operators_placed(e) && no_compound(e),
{
    match (o, n) {
        (Some(a), Some(b)) => lemma_resolved_plain(a, b, m),
        _ => {},
    }
}

/// Resolving the names of a statement keeps its expressions plain.
proof fn lemma_resolved_every(o: Statement, n: Statement, m: Map<crate::table::Key, crate::parser::ast::Identifier>)
    requires
        stmt_resolved(o, n, m),
        stmt_every(o, plain()),
    ensures
        stmt_every(n, plain()),
    decreases o,
{
    match (o.kind, n.kind) {
        (StmtKind::Return(a), StmtKind::Return(b)) => lemma_resolved_plain(a, b, m),
        (StmtKind::Expression(a), StmtKind::Expression(b)) => lemma_resolved_plain(a, b, m),
        (StmtKind::If { cond: c1, then: t1, else_: e1 }, StmtKind::If { cond: c2, then: t2, else_: e2 }) => {
            lemma_resolved_plain(c1, c2, m);
            lemma_resolved_every(*t1, *t2, m);
            match (e1, e2) {
                (Some(x), Some(y)) => lemma_resolved_every(*x, *y, m),
                _ => {},
            }
        },
        (StmtKind::Label(_, x), StmtKind::Label(_, y)) => lemma_resolved_every(*x, *y, m),
        (StmtKind::Compound(x), StmtKind::Compound(y)) => lemma_items_resolved_every(x@, y@, m),
        (StmtKind::While { cond: c1, body: x, .. }, StmtKind::While { cond: c2, body: y, .. }) => {
            lemma_resolved_plain(c1, c2, m);
            lemma_resolved_every(*x, *y, m);
        },
        (StmtKind::DoWhile { cond: c1, body: x, .. }, StmtKind::DoWhile { cond: c2, body: y, .. }) => {
            lemma_resolved_plain(c1, c2, m);
            lemma_resolved_every(*x, *y, m);
        },
        (
            StmtKind::For { init: i1, condition: c1, post: p1, body: x, .. },
            StmtKind::For { init: i2, condition: c2, post: p2, body: y, .. },
        ) => {
            match (i1, i2) {
                (ForInit::Decl(v), ForInit::Decl(w)) => lemma_opt_resolved(v.init, w.init, m.insert(v.name@, w.name)),
                (ForInit::Expr(a), ForInit::Expr(b)) => lemma_resolved_plain(a, b, m),
                _ => {},
            }
            lemma_opt_resolved(c1, c2, for_scope(i1, i2, m));
            lemma_opt_resolved(p1, p2, for_scope(i1, i2, m));
            lemma_resolved_every(*x, *y, for_scope(i1, i2, m));
        },
        (StmtKind::Switch(x), StmtKind::Switch(y)) => {
            lemma_resolved_plain(x.value, y.value, m);
            lemma_resolved_every(*x.body, *y.body, m);
        },
        (StmtKind::Case { stmt: x, .. }, StmtKind::Case { stmt: y, .. }) => lemma_resolved_every(*x, *y, m),
        (StmtKind::DefaultCase { stmt: x, .. }, StmtKind::DefaultCase { stmt: y, .. }) => lemma_resolved_every(*x, *y, m),
        _ => {},
    }
}

proof fn lemma_items_resolved_every(o: Seq<BlockItem>, n: Seq<BlockItem>, m: Map<crate::table::Key, crate::parser::ast::Identifier>)
    requires
        items_resolved(o, n, m),
        items_every(o, plain()),
    ensures
        items_every(n, plain()),
    decreases o,
{
    if o.len() > 0 {
        lemma_items_resolved_every(o.drop_last(), n.drop_last(), m);
        let inner = items_scope(o.drop_last(), n.drop_last(), m);
        assert(item_resolved(o.last(), n.last(), inner));
        match (o.last(), n.last()) {
            (BlockItem::Stmt(x), BlockItem::Stmt(y)) => lemma_resolved_every(x, y, inner),
            (BlockItem::Decl(Declaration::Var(v)), BlockItem::Decl(Declaration::Var(w))) =>
                lemma_opt_resolved(v.init, w.init, inner.insert(v.name@, w.name)),
            (BlockItem::Decl(Declaration::Func(f)), BlockItem::Decl(Declaration::Func(g))) =>
                lemma_func_resolved_every(f, g, inner),
            _ => {},
        }
    }
}

proof fn lemma_func_resolved_every(o: FunctionDeclaration, n: FunctionDeclaration, m: Map<crate::table::Key, crate::parser::ast::Identifier>)
    requires
        func_resolved(o, n, m),
        function_every(o, plain()),
    ensures
        function_every(n, plain()),
    decreases o,
{
    match (o.body, n.body) {
        (Some(a), Some(b)) => lemma_items_resolved_every(a@, b@, params_scope(o.params@, n.params@, m.insert(o.name@, o.name))),
        _ => {},
    }
}

/// Resolving the names of a program keeps its expressions plain.
pub(crate) proof fn lemma_decls_resolved_every(o: Seq<Declaration>, n: Seq<Declaration>, m: Map<crate::table::Key, crate::parser::ast::Identifier>)
    requires
        decls_resolved(o, n, m),
        program_every(o, plain()),
    ensures
        program_every(n, plain()),
    decreases o.len(),
{
    if o.len() > 0 {
        assert(program_every(o.drop_last(), plain())) by {
            assert forall|k: int| 0 <= k < o.drop_last().len() implies decl_every(#[trigger] o.drop_last()[k], plain()) by {
                assert(o.drop_last()[k] == o[k]);
            }
        }
        lemma_decls_resolved_every(o.drop_last(), n.drop_last(), m);
        let scope = decls_scope(o.drop_last(), n.drop_last(), m);
        assert(decl_every(o[o.len() - 1], plain()));
        match (o.last(), n.last()) {
            (Declaration::Var(v), Declaration::Var(w)) => lemma_opt_resolved(v.init, w.init, scope.insert(v.name@, w.name)),
            (Declaration::Func(f), Declaration::Func(g)) => lemma_func_resolved_every(f, g, scope),
            _ => {},
        }
        assert forall|k: int| 0 <= k < n.len() implies decl_every(#[trigger] n[k], plain()) by {
            if k < n.len() - 1 {
                assert(n.drop_last()[k] == n[k]);
            }
        }
    }
}

/// Appending `return 0;` to function bodies keeps the operators in place.
pub(crate) proof fn lemma_program_return_zero(o: Seq<Declaration>, n: Seq<Declaration>)
    requires
        n.len() == o.len(),
        forall|k: int| 0 <= k < n.len() ==> (body_of(#[trigger] n[k]) is Some <==> body_of(o[k]) is Some),
        forall|k: int| 0 <= k < n.len() ==> (body_of(#[trigger] n[k]) matches Some(b) ==> {
            let ob = body_of(o[k]).unwrap();
            &&& ends_with_return(b)
            &&& ends_with_return(ob) ==> b == ob
            &&& !ends_with_return(ob) ==> b.drop_last() == ob && is_return_zero(b.last())
        }),
        forall|k: int| 0 <= k < o.len() ==> same_header(#[trigger] o[k], n[k]),
        program_every(o, placed()),
    ensures
        program_every(n, placed()),
{
    assert forall|k: int| 0 <= k < n.len() implies decl_every(#[trigger] n[k], placed()) by {
        assert(same_header(o[k], n[k]));
        assert(decl_every(o[k], placed()));
        match (o[k], n[k]) {
            (Declaration::Func(f), Declaration::Func(g)) => match (f.body, g.body) {
                (Some(a), Some(b)) => {
                    assert(body_of(n[k]) == Some(b@));
                    assert(body_of(o[k]) == Some(a@));
                    if !ends_with_return(a@) {
                        assert(b@.drop_last() == a@);
                        assert(is_return_zero(b@.last()));
                        match b@.last() {
                            BlockItem::Stmt(st) => match st.kind {
                                StmtKind::Return(e) => {
                                    assert(operators_placed(e));
                                    assert(placed()(e));
                                    assert(stmt_every(st, placed()));
                                },
                                _ => {},
                            },
                            _ => {},
                        }
                        assert(items_every(a@, placed()));
                        assert(items_every(b@, placed()));
                    }
                },
                _ => {},
            },
            _ => {},
        }
    }
}

/// Rewriting the compound assignments of a program makes its expressions
/// plain.
pub(crate) proof fn lemma_program_replaced(o: Seq<Declaration>, n: Seq<Declaration>)
    requires
        n.len() == o.len(),
        forall|k: int| 0 <= k < o.len() ==> decl_replaced(#[trigger] o[k], n[k]),
        program_every(o, placed()),
    ensures
        program_every(n, plain()),
{
    assert forall|k: int| 0 <= k < n.len() implies decl_every(#[trigger] n[k], plain()) by {
        lemma_decl_replaced_every(o[k], n[k]);
    }
}

/// Plain expressions with valid assignment targets throughout a program make
/// it lowerable throughout.
pub(crate) proof fn lemma_program_lvalues(n: Seq<Declaration>)
    requires
        program_every(n, plain()),
        forall|k: int| 0 <= k < n.len() ==> declaration_lvalues_ok(#[trigger] n[k]),
    ensures
        program_every(n, lowerable()),
{
    assert forall|k: int| 0 <= k < n.len() implies decl_every(#[trigger] n[k], lowerable()) by {
        assert(declaration_lvalues_ok(n[k]));
        match n[k] {
            Declaration::Var(v) => match v.init {
                Some(e) => lemma_plain_lowerable(e),
                None => {},
            },
            Declaration::Func(f) => lemma_function_lvalues_every(f),
        }
    }
}

/// A program that is the same code has the same expressions.
pub(crate) proof fn lemma_program_same_code(o: Seq<Declaration>, n: Seq<Declaration>, p: spec_fn(Expression) -> bool)
    requires
        decls_same_code(o, n),
        program_every(o, p),
    ensures
        program_every(n, p),
{
    assert forall|k: int| 0 <= k < n.len() implies decl_every(#[trigger] n[k], p) by {
        lemma_decl_same_code_every(o[k], n[k], p);
    }
}

/// Type checking a program keeps its expressions lowerable.
pub(crate) proof fn lemma_program_checked(o: Seq<Declaration>, n: Seq<Declaration>)
    requires
        n.len() == o.len(),
        forall|k: int| 0 <= k < o.len() ==> decl_checked(#[trigger] o[k], n[k]),
        program_every(o, lowerable()),
    ensures
        program_every(n, lowerable()),
{
    assert forall|k: int| 0 <= k < n.len() implies decl_every(#[trigger] n[k], lowerable()) by {
        assert(decl_checked(o[k], n[k]));
        assert(decl_every(o[k], lowerable()));
        match (o[k], n[k]) {
            (Declaration::Func(f), Declaration::Func(g)) => lemma_function_checked_every(f, g),
            _ => {},
        }
    }
}

/// A program whose expressions can all be lowered can be lowered.
pub(crate) proof fn lemma_program_lowerable(p: Program)
    requires
        program_every(p.0@, lowerable()),
    ensures
        program_lowerable(p),
{
    assert forall|k: int| 0 <= k < p.0@.len() implies (#[trigger] p.0@[k] matches Declaration::Func(f)
        ==> (f.body matches Some(b) ==> items_lowerable(b@))) by {
        assert(decl_every(p.0@[k], lowerable()));
        match p.0@[k] {
            Declaration::Func(f) => match f.body {
                Some(b) => lemma_items_every_lowerable(b@),
                None => {},
            },
            _ => {},
        }
    }
}

/// An operator that the grammar lets stand between two operands is one the
/// IR has, `&&` or `||`.
proof fn lemma_binary_placed(op: BinaryOperator)
    requires
        op != BinaryOperator::Assign,
        !spec_is_compound_assign(op),
    ensures
        spec_can_be_lowered(op) || op == BinaryOperator::And || op == BinaryOperator::Or,
{
    match op {
        BinaryOperator::Add => {},
        BinaryOperator::Subtract => {},
        BinaryOperator::Multiply => {},
        BinaryOperator::Divide => {},
        BinaryOperator::Remainder => {},
        BinaryOperator::LeftShift => {},
        BinaryOperator::RightShift => {},
        BinaryOperator::BitwiseAnd => {},
        BinaryOperator::BitwiseXor => {},
        BinaryOperator::BitwiseOr => {},
        BinaryOperator::Equal => {},
        BinaryOperator::NotEqual => {},
        BinaryOperator::LessThan => {},
        BinaryOperator::LessEqual => {},
        BinaryOperator::GreaterThan => {},
        BinaryOperator::GreaterEqual => {},
        _ => {},
    }
}

/// A compound assignment operator applies an operator.
proof fn lemma_compound_placed(op: BinaryOperator)
    requires
        spec_is_compound_assign(op),
    ensures
        spec_compound_assign(op) is Some,
{
    match op {
        BinaryOperator::AddAssign => {},
        BinaryOperator::SubtractAssign => {},
        BinaryOperator::MultiplyAssign => {},
        BinaryOperator::DivideAssign => {},
        BinaryOperator::RemainderAssign => {},
        BinaryOperator::BitwiseAndAssign => {},
        BinaryOperator::BitwiseXorAssign => {},
        BinaryOperator::BitwiseOrAssign => {},
        BinaryOperator::LeftShiftAssign => {},
        BinaryOperator::RightShiftAssign => {},
        _ => {},
    }
}

/// A derived primary expression has its operators in place.
proof fn lemma_primary_placed(b: Seq<u8>, ts: Seq<SpannedToken>, i: int, j: int, e: Expression)
    requires
        primary_derives(b, ts, i, j, e.kind),
    ensures
        operators_placed(e),
    decreases j - i, 0int,
{
    if tk(ts, i) == Token::OpenParen && i + 2 < j && tk(ts, j - 1) == Token::CloseParen
        && expr_derives(b, ts, i + 1, j - 1, e.kind, 0) {
        lemma_expr_placed(b, ts, i + 1, j - 1, e, 0);
    } else {
        match e.kind {
            ExprKind::FunctionCall { args, .. } => lemma_args_placed(b, ts, i + 2, j - 1, args@),
            _ => {},
        }
    }
}

/// A derived postfix expression has its operators in place.
proof fn lemma_postfix_placed(b: Seq<u8>, ts: Seq<SpannedToken>, i: int, j: int, e: Expression)
    requires
        postfix_derives(b, ts, i, j, e.kind),
    ensures
        operators_placed(e),
    decreases j - i, 1int,
{
    if primary_derives(b, ts, i, j, e.kind) {
        lemma_primary_placed(b, ts, i, j, e);
    } else {
        match e.kind {
            ExprKind::Postfix(_, inner) => lemma_postfix_placed(b, ts, i, j - 1, *inner),
            _ => {},
        }
    }
}

/// A derived factor has its operators in place.
proof fn lemma_factor_placed(b: Seq<u8>, ts: Seq<SpannedToken>, i: int, j: int, e: Expression)
    requires
        factor_derives(b, ts, i, j, e.kind),
    ensures
        operators_placed(e),
    decreases j - i, 2int,
{
    if postfix_derives(b, ts, i, j, e.kind) {
        lemma_postfix_placed(b, ts, i, j, e);
    } else {
        match e.kind {
            ExprKind::Unary { expr, .. } => lemma_factor_placed(b, ts, i + 1, j, *expr),
            ExprKind::Prefix(_, expr) => lemma_factor_placed(b, ts, i + 1, j, *expr),
            _ => {},
        }
    }
}

/// A derived expression has its operators in place.
pub(crate) proof fn lemma_expr_placed(b: Seq<u8>, ts: Seq<SpannedToken>, i: int, j: int, e: Expression, min: int)
    requires
        expr_derives(b, ts, i, j, e.kind, min),
    ensures
        operators_placed(e),
    decreases j - i, 3int,
{
    if factor_derives(b, ts, i, j, e.kind) {
        lemma_factor_placed(b, ts, i, j, e);
    } else {
        match e.kind {
            ExprKind::Binary { operator, lhs, rhs } => {
                lemma_binary_placed(operator);
                let k = choose|k: int| #![trigger tk(ts, k)] i < k < j - 1
                    && spec_from_token(tk(ts, k)) == Some(operator)
                    && expr_derives(b, ts, i, k, lhs.kind, spec_precedence(operator) as int)
                    && expr_derives(b, ts, k + 1, j, rhs.kind, spec_precedence(operator) + 1);
                lemma_expr_placed(b, ts, i, k, *lhs, spec_precedence(operator) as int);
                lemma_expr_placed(b, ts, k + 1, j, *rhs, spec_precedence(operator) + 1);
            },
            ExprKind::Assignment(lhs, rhs) => {
                let k = choose|k: int| #![trigger tk(ts, k)] i < k < j - 1
                    && tk(ts, k) == Token::Assign
                    && expr_derives(b, ts, i, k, lhs.kind, spec_precedence(BinaryOperator::Assign) + 1)
                    && expr_derives(b, ts, k + 1, j, rhs.kind, spec_precedence(BinaryOperator::Assign) as int);
                lemma_expr_placed(b, ts, i, k, *lhs, spec_precedence(BinaryOperator::Assign) + 1);
                lemma_expr_placed(b, ts, k + 1, j, *rhs, spec_precedence(BinaryOperator::Assign) as int);
            },
            ExprKind::CompoundAssign { operator, lhs, rhs } => {
                lemma_compound_placed(operator);
                let k = choose|k: int| #![trigger tk(ts, k)] i < k < j - 1
                    && spec_from_token(tk(ts, k)) == Some(operator)
                    && expr_derives(b, ts, i, k, lhs.kind, spec_precedence(operator) + 1)
                    && expr_derives(b, ts, k + 1, j, rhs.kind, spec_precedence(operator) as int);
                lemma_expr_placed(b, ts, i, k, *lhs, spec_precedence(operator) + 1);
                lemma_expr_placed(b, ts, k + 1, j, *rhs, spec_precedence(operator) as int);
            },
            ExprKind::Conditional(c, t, f) => {
                let (k1, k2) = choose|k1: int, k2: int| #![trigger tk(ts, k1), tk(ts, k2)] i < k1 && k1 + 1 < k2 && k2 + 1 < j
                    && tk(ts, k1) == Token::QuestionMark && tk(ts, k2) == Token::Colon
                    && expr_derives(b, ts, i, k1, c.kind, conditional_precedence() - 1)
                    && expr_derives(b, ts, k1 + 1, k2, t.kind, 0)
                    && expr_derives(b, ts, k2 + 1, j, f.kind, conditional_precedence());
                lemma_expr_placed(b, ts, i, k1, *c, conditional_precedence() - 1);
                lemma_expr_placed(b, ts, k1 + 1, k2, *t, 0);
                lemma_expr_placed(b, ts, k2 + 1, j, *f, conditional_precedence());
            },
            _ => {},
        }
    }
}

/// Derived call arguments have their operators in place.
proof fn lemma_args_placed(b: Seq<u8>, ts: Seq<SpannedToken>, i: int, j: int, args: Seq<Expression>)
    requires
        args_derive(b, ts, i, j, args),
    ensures
        forall|k: int| 0 <= k < args.len() ==> operators_placed(#[trigger] args[k]),
    decreases j - i, 4int, args.len(),
{
    if args.len() == 1 {
        lemma_expr_placed(b, ts, i, j, args[0], 0);
    } else if args.len() > 1 {
        let k = choose|k: int| #![trigger tk(ts, k)] i < k < j && tk(ts, k) == Token::Comma
            && args_derive(b, ts, i, k, args.drop_last())
            && expr_derives(b, ts, k + 1, j, args.last().kind, 0);
        lemma_args_placed(b, ts, i, k, args.drop_last());
        lemma_expr_placed(b, ts, k + 1, j, args.last(), 0);
        assert forall|m: int| 0 <= m < args.len() implies operators_placed(#[trigger] args[m]) by {
            if m < args.len() - 1 {
                assert(args.drop_last()[m] == args[m]);
            }
        }
    }
}

proof fn lemma_opt_expr_placed(b: Seq<u8>, ts: Seq<SpannedToken>, i: int, j: int, e: Option<Expression>)
    requires
        opt_expr_derives(b, ts, i, j, e),
    ensures
        e matches Some(x) ==> placed()(x),
    decreases j - i, 4int,
{
    match e {
        Some(x) => lemma_expr_placed(b, ts, i, j, x, 0),
        None => {},
    }
}

proof fn lemma_var_decl_placed(b: Seq<u8>, ts: Seq<SpannedToken>, i: int, j: int, d: VariableDeclaration)
    requires
        var_decl_derives(b, ts, i, j, d),
    ensures
        var_every(d, placed()),
    decreases j - i, 5int,
{
    match d.init {
        Some(e) => lemma_expr_placed(b, ts, i + 3, j - 1, e, 0),
        None => {},
    }
}

proof fn lemma_for_init_placed(b: Seq<u8>, ts: Seq<SpannedToken>, i: int, j: int, init: ForInit)
    requires
        for_init_derives(b, ts, i, j, init),
    ensures
        match init {
            ForInit::Decl(v) => var_every(v, placed()),
            ForInit::Expr(e) => placed()(e),
            ForInit::Empty => true,
        },
    decreases j - i, 6int,
{
    match init {
        ForInit::Decl(d) => lemma_var_decl_placed(b, ts, i, j, d),
        ForInit::Expr(e) => lemma_expr_placed(b, ts, i, j - 1, e, 0),
        ForInit::Empty => {},
    }
}

/// A derived statement has its operators in place throughout.
proof fn lemma_stmt_placed(b: Seq<u8>, ts: Seq<SpannedToken>, i: int, j: int, s: Statement)
    requires
        stmt_derives(b, ts, i, j, s.kind),
    ensures
        stmt_every(s, placed()),
    decreases j - i, 7int,
{
    match s.kind {
        StmtKind::Return(e) => lemma_expr_placed(b, ts, i + 1, j - 1, e, 0),
        StmtKind::Expression(e) => lemma_expr_placed(b, ts, i, j - 1, e, 0),
        StmtKind::Label(_, st) => lemma_stmt_placed(b, ts, i + 2, j, *st),
        StmtKind::Compound(block) => lemma_items_placed(b, ts, i + 1, j - 1, block@),
        StmtKind::If { .. } => lemma_if_placed(b, ts, i, j, s),
        StmtKind::While { .. } => lemma_while_placed(b, ts, i, j, s),
        StmtKind::DoWhile { .. } => lemma_do_while_placed(b, ts, i, j, s),
        StmtKind::Switch(_) => lemma_switch_placed(b, ts, i, j, s),
        StmtKind::For { .. } => lemma_for_placed(b, ts, i, j, s),
        StmtKind::Case { stmt, .. } => lemma_stmt_placed(b, ts, i + 3, j, *stmt),
        StmtKind::DefaultCase { stmt, .. } => lemma_stmt_placed(b, ts, i + 2, j, *stmt),
        _ => {},
    }
}

/// A derived `if` statement has its operators in place throughout.
#[verifier::spinoff_prover]
proof fn lemma_if_placed(b: Seq<u8>, ts: Seq<SpannedToken>, i: int, j: int, s: Statement)
    requires
        stmt_derives(b, ts, i, j, s.kind),
        s.kind is If,
    ensures
        stmt_every(s, placed()),
    decreases j - i, 6int,
{
    match s.kind {
        StmtKind::If { cond, then, else_ } => {
            let k = choose|k: int| #![trigger tk(ts, k)] i + 2 < k < j && tk(ts, k) == Token::CloseParen
                && expr_derives(b, ts, i + 2, k, cond.kind, 0)
                && match else_ {
                    None => stmt_derives(b, ts, k + 1, j, then.kind),
                    Some(e) => exists|k2: int| #![trigger tk(ts, k2)] k + 1 < k2 < j && tk(ts, k2) == Token::Else
                        && stmt_derives(b, ts, k + 1, k2, then.kind)
                        && stmt_derives(b, ts, k2 + 1, j, e.kind),
                };
            lemma_expr_placed(b, ts, i + 2, k, cond, 0);
            match else_ {
                None => lemma_stmt_placed(b, ts, k + 1, j, *then),
                Some(e) => {
                    let k2 = choose|k2: int| #![trigger tk(ts, k2)] k + 1 < k2 < j && tk(ts, k2) == Token::Else
                        && stmt_derives(b, ts, k + 1, k2, then.kind)
                        && stmt_derives(b, ts, k2 + 1, j, e.kind);
                    lemma_stmt_placed(b, ts, k + 1, k2, *then);
                    lemma_stmt_placed(b, ts, k2 + 1, j, *e);
                },
            }
        },
        _ => {},
    }
}

/// A derived `while` statement has its operators in place throughout.
#[verifier::spinoff_prover]
proof fn lemma_while_placed(b: Seq<u8>, ts: Seq<SpannedToken>, i: int, j: int, s: Statement)
    requires
        stmt_derives(b, ts, i, j, s.kind),
        s.kind is While,
    ensures
        stmt_every(s, placed()),
    decreases j - i, 6int,
{
    match s.kind {
        StmtKind::While { cond, body, .. } => {
            let k = choose|k: int| #![trigger tk(ts, k)] i + 2 < k < j && tk(ts, k) == Token::CloseParen
                && expr_derives(b, ts, i + 2, k, cond.kind, 0)
                && stmt_derives(b, ts, k + 1, j, body.kind);
            lemma_expr_placed(b, ts, i + 2, k, cond, 0);
            lemma_stmt_placed(b, ts, k + 1, j, *body);
        },
        _ => {},
    }
}

/// A derived `do`-`while` statement has its operators in place throughout.
#[verifier::spinoff_prover]
proof fn lemma_do_while_placed(b: Seq<u8>, ts: Seq<SpannedToken>, i: int, j: int, s: Statement)
    requires
        stmt_derives(b, ts, i, j, s.kind),
        s.kind is DoWhile,
    ensures
        stmt_every(s, placed()),
    decreases j - i, 6int,
{
    match s.kind {
        StmtKind::DoWhile { body, cond, .. } => {
            let (k, l) = choose|k: int, l: int| #![trigger tk(ts, k), tk(ts, l)] l == k + 1 && i + 1 < k && l + 1 < j - 2
                && tk(ts, k) == Token::While && tk(ts, l) == Token::OpenParen
                && stmt_derives(b, ts, i + 1, k, body.kind)
                && expr_derives(b, ts, l + 1, j - 2, cond.kind, 0);
            lemma_stmt_placed(b, ts, i + 1, k, *body);
            lemma_expr_placed(b, ts, l + 1, j - 2, cond, 0);
        },
        _ => {},
    }
}

/// A derived `switch` statement has its operators in place throughout.
#[verifier::spinoff_prover]
proof fn lemma_switch_placed(b: Seq<u8>, ts: Seq<SpannedToken>, i: int, j: int, s: Statement)
    requires
        stmt_derives(b, ts, i, j, s.kind),
        s.kind is Switch,
    ensures
        stmt_every(s, placed()),
    decreases j - i, 6int,
{
    match s.kind {
        StmtKind::Switch(sw) => {
            let k = choose|k: int| #![trigger tk(ts, k)] i + 2 < k < j && tk(ts, k) == Token::CloseParen
                && expr_derives(b, ts, i + 2, k, sw.value.kind, 0)
                && stmt_derives(b, ts, k + 1, j, sw.body.kind);
            lemma_expr_placed(b, ts, i + 2, k, sw.value, 0);
            lemma_stmt_placed(b, ts, k + 1, j, *sw.body);
        },
        _ => {},
    }
}

/// A derived `for` statement has its operators in place throughout.
#[verifier::spinoff_prover]
proof fn lemma_for_placed(b: Seq<u8>, ts: Seq<SpannedToken>, i: int, j: int, s: Statement)
    requires
        stmt_derives(b, ts, i, j, s.kind),
        s.kind is For,
    ensures
        stmt_every(s, placed()),
    decreases j - i, 6int,
{
    match s.kind {
        StmtKind::For { init, condition, post, body, .. } => {
            let (k1, k2, k3) = choose|k1: int, k2: int, k3: int|
                #![trigger for_init_derives(b, ts, i + 2, k1, init), opt_expr_derives(b, ts, k2 + 1, k3, post)]
                i + 2 < k1 <= k2 < k3 < j
                && for_init_derives(b, ts, i + 2, k1, init)
                && opt_expr_derives(b, ts, k1, k2, condition)
                && tk(ts, k2) == Token::Semicolon
                && opt_expr_derives(b, ts, k2 + 1, k3, post)
                && tk(ts, k3) == Token::CloseParen
                && stmt_derives(b, ts, k3 + 1, j, body.kind);
            lemma_for_init_placed(b, ts, i + 2, k1, init);
            lemma_opt_expr_placed(b, ts, k1, k2, condition);
            lemma_opt_expr_placed(b, ts, k2 + 1, k3, post);
            lemma_stmt_placed(b, ts, k3 + 1, j, *body);
        },
        _ => {},
    }
}

/// A derived function declaration has its operators in place throughout.
proof fn lemma_func_placed(b: Seq<u8>, ts: Seq<SpannedToken>, i: int, j: int, f: FunctionDeclaration)
    requires
        func_decl_derives(b, ts, i, j, f),
    ensures
        function_every(f, placed()),
    decreases j - i, 8int,
{
    let k = choose|k: int| #![trigger tk(ts, k)] i + 3 < k && k + 1 < j && tk(ts, k) == Token::CloseParen
        && crate::parser::grammar::params_derive(b, ts, i + 3, k, f.params@)
        && match f.body {
            None => j == k + 2 && tk(ts, k + 1) == Token::Semicolon,
            Some(block) => k + 2 < j && tk(ts, k + 1) == Token::OpenBrace && tk(ts, j - 1) == Token::CloseBrace
                && items_derive(b, ts, k + 2, j - 1, block@),
        };
    match f.body {
        Some(block) => lemma_items_placed(b, ts, k + 2, j - 1, block@),
        None => {},
    }
}

/// Derived block items have their operators in place throughout.
proof fn lemma_items_placed(b: Seq<u8>, ts: Seq<SpannedToken>, i: int, j: int, items: Seq<BlockItem>)
    requires
        items_derive(b, ts, i, j, items),
    ensures
        items_every(items, placed()),
    decreases j - i, 11int,
{
    if items.len() > 0 {
        let k = choose|k: int| #![trigger tk(ts, k)] i <= k < j
            && tk(ts, k) != Token::CloseBrace
            && items_derive(b, ts, i, k, items.drop_last())
            && item_derives(b, ts, k, j, items.last());
        lemma_items_placed(b, ts, i, k, items.drop_last());
        match items.last() {
            BlockItem::Stmt(st) => lemma_stmt_placed(b, ts, k, j, st),
            BlockItem::Decl(Declaration::Var(v)) => lemma_var_decl_placed(b, ts, k, j, v),
            BlockItem::Decl(Declaration::Func(f)) => lemma_func_placed(b, ts, k, j, f),
        }
    }
}

/// Derived declarations have their operators in place throughout.
proof fn lemma_decls_placed(b: Seq<u8>, ts: Seq<SpannedToken>, i: int, j: int, decls: Seq<Declaration>)
    requires
        decls_derive(b, ts, i, j, decls),
    ensures
        program_every(decls, placed()),
    decreases decls.len(),
{
    if decls.len() > 0 {
        let k = choose|k: int| #![trigger tk(ts, k)] i <= k < j
            && decls_derive(b, ts, i, k, decls.drop_last())
            && (decls.last() matches Declaration::Func(f) && func_decl_derives(b, ts, k, j, f));
        lemma_decls_placed(b, ts, i, k, decls.drop_last());
        match decls.last() {
            Declaration::Func(f) => lemma_func_placed(b, ts, k, j, f),
            _ => {},
        }
        assert forall|m: int| 0 <= m < decls.len() implies decl_every(#[trigger] decls[m], placed()) by {
            if m < decls.len() - 1 {
                assert(decls.drop_last()[m] == decls[m]);
            }
        }
    }
}

/// The operators of a program that the grammar derives stand where the
/// parser puts them: every binary operator is one the IR has, `&&` or `||`,
/// and every compound assignment applies an operator.
pub proof fn lemma_parsed_operators_placed(b: Seq<u8>, ts: Seq<SpannedToken>, decls: Seq<Declaration>)
    requires
        program_derives(b, ts, decls),
    ensures
        program_every(decls, placed()),
{
    let k = choose|k: int| #![trigger tk(ts, k)] decls_derive(b, ts, 0, k, decls)
        && (k == ts.len() || tk(ts, k) == Token::EndOfInput);
    lemma_decls_placed(b, ts, 0, k, decls);
}

} // verus!
