//! The grammar of the language, as relations between a range of tokens and
//! the syntax tree that derives it. Precedence and associativity are part of
//! the relations: an operand is derived at the least precedence that its
//! position admits.
use vstd::prelude::*;
use crate::lexer::{SpannedToken, Token};
use crate::parser::ast::{
    BlockItem, Constant, Declaration, ExprKind, Expression, ForInit, FunctionDeclaration, FunctionParameter,
    Identifier, StmtKind, StorageClass, VariableDeclaration, local_prefix,
};
use crate::parser::operators::{
    BinaryOperator, IncDec, UnaryOperator, spec_from_token, spec_precedence, spec_is_compound_assign,
};
use crate::parser::parser::digits_value;
use crate::text::ascii_text;

verus! {

/// The kind of token `k`.
pub open spec fn tk(ts: Seq<SpannedToken>, k: int) -> Token {
    ts[k].token
}

/// The source text of token `k`.
pub open spec fn token_name(b: Seq<u8>, ts: Seq<SpannedToken>, k: int) -> Seq<char> {
    ascii_text(b, ts[k].span.start as int, ts[k].span.end as int)
}

/// Whether `id` is the identifier that token `k` spells.
pub open spec fn names_token(b: Seq<u8>, ts: Seq<SpannedToken>, k: int, id: Identifier) -> bool {
    &&& tk(ts, k) == Token::Ident
    &&& id.0@ == token_name(b, ts, k)
    &&& id.1@ == token_name(b, ts, k)
}

/// The value of constant token `k`.
pub open spec fn token_value(b: Seq<u8>, ts: Seq<SpannedToken>, k: int) -> int {
    digits_value(b, ts[k].span.start as int, ts[k].span.end as int)
}

/// The prefix operator a token stands for.
pub open spec fn unary_token(t: Token) -> Option<UnaryOperator> {
    match t {
        Token::Hyphen => Some(UnaryOperator::Negate),
        Token::Tilde => Some(UnaryOperator::BitwiseNot),
        Token::Not => Some(UnaryOperator::Not),
        _ => None,
    }
}

/// The increment or decrement a token stands for.
pub open spec fn inc_dec_token(t: Token) -> Option<IncDec> {
    match t {
        Token::Increment => Some(IncDec::Increment),
        Token::Decrement => Some(IncDec::Decrement),
        _ => None,
    }
}

/// The precedence of the conditional operator, as an integer.
pub open spec fn conditional_precedence() -> int {
    10
}

/// A primary expression: a name, a constant, a call, or an expression in
/// parentheses (which derives the kind of the expression inside).
pub open spec fn primary_derives(b: Seq<u8>, ts: Seq<SpannedToken>, i: int, j: int, e: ExprKind) -> bool
    decreases j - i, 0int,
{
    if !(0 <= i < j <= ts.len()) {
        false
    } else {
        ||| (tk(ts, i) == Token::OpenParen && i + 2 < j && tk(ts, j - 1) == Token::CloseParen
            && expr_derives(b, ts, i + 1, j - 1, e, 0))
        ||| match e {
            ExprKind::Var(id) => j == i + 1 && names_token(b, ts, i, id),
            ExprKind::Constant(c) => j == i + 1 && tk(ts, i) == Token::ConstantInt
                && token_value(b, ts, i) <= i32::MAX && c == Constant::Int(token_value(b, ts, i) as i32),
            ExprKind::FunctionCall { name, args } => i + 3 <= j && names_token(b, ts, i, name)
                && tk(ts, i + 1) == Token::OpenParen && tk(ts, j - 1) == Token::CloseParen
                && args_derive(b, ts, i + 2, j - 1, args@),
            _ => false,
        }
    }
}

/// A primary expression followed by postfix `++` and `--`.
pub open spec fn postfix_derives(b: Seq<u8>, ts: Seq<SpannedToken>, i: int, j: int, e: ExprKind) -> bool
    decreases j - i, 1int,
{
    if !(0 <= i < j <= ts.len()) {
        false
    } else {
        ||| primary_derives(b, ts, i, j, e)
        ||| (e matches ExprKind::Postfix(op, inner) && i + 1 < j && inc_dec_token(tk(ts, j - 1)) == Some(op)
            && postfix_derives(b, ts, i, j - 1, inner.kind))
    }
}

/// A factor: a postfix expression, or a prefix operator applied to a factor.
pub open spec fn factor_derives(b: Seq<u8>, ts: Seq<SpannedToken>, i: int, j: int, e: ExprKind) -> bool
    decreases j - i, 2int,
{
    if !(0 <= i < j <= ts.len()) {
        false
    } else {
        ||| postfix_derives(b, ts, i, j, e)
        ||| (i + 1 < j && match e {
            ExprKind::Unary { operator, expr } => unary_token(tk(ts, i)) == Some(operator)
                && factor_derives(b, ts, i + 1, j, expr.kind),
            ExprKind::Prefix(op, expr) => inc_dec_token(tk(ts, i)) == Some(op)
                && factor_derives(b, ts, i + 1, j, expr.kind),
            _ => false,
        })
    }
}

/// An expression whose operators all bind at least as tightly as `min`.
/// Binary operators group to the left (the right operand binds tighter);
/// assignments group to the right (the left operand binds tighter); in
/// `c ? t : f` the condition binds tighter than `?:`, the middle is any
/// expression, and the last operand binds tighter than `?:` too.
pub open spec fn expr_derives(b: Seq<u8>, ts: Seq<SpannedToken>, i: int, j: int, e: ExprKind, min: int) -> bool
    decreases j - i, 3int,
{
    if !(0 <= i < j <= ts.len()) {
        false
    } else {
        ||| factor_derives(b, ts, i, j, e)
        ||| match e {
            ExprKind::Binary { operator, lhs, rhs } => {
                &&& operator != BinaryOperator::Assign
                &&& !spec_is_compound_assign(operator)
                &&& spec_precedence(operator) >= min
                &&& exists|k: int| #![trigger tk(ts, k)] i < k < j - 1
                    && spec_from_token(tk(ts, k)) == Some(operator)
                    && expr_derives(b, ts, i, k, lhs.kind, spec_precedence(operator) as int)
                    && expr_derives(b, ts, k + 1, j, rhs.kind, spec_precedence(operator) + 1)
            },
            ExprKind::Assignment(lhs, rhs) => {
                &&& spec_precedence(BinaryOperator::Assign) >= min
                &&& exists|k: int| #![trigger tk(ts, k)] i < k < j - 1
                    && tk(ts, k) == Token::Assign
                    && expr_derives(b, ts, i, k, lhs.kind, spec_precedence(BinaryOperator::Assign) + 1)
                    && expr_derives(b, ts, k + 1, j, rhs.kind, spec_precedence(BinaryOperator::Assign) as int)
            },
            ExprKind::CompoundAssign { operator, lhs, rhs } => {
                &&& spec_is_compound_assign(operator)
                &&& spec_precedence(operator) >= min
                &&& exists|k: int| #![trigger tk(ts, k)] i < k < j - 1
                    && spec_from_token(tk(ts, k)) == Some(operator)
                    && expr_derives(b, ts, i, k, lhs.kind, spec_precedence(operator) + 1)
                    && expr_derives(b, ts, k + 1, j, rhs.kind, spec_precedence(operator) as int)
            },
            ExprKind::Conditional(c, t, f) => {
                &&& conditional_precedence() > min
                &&& exists|k1: int, k2: int| #![trigger tk(ts, k1), tk(ts, k2)] i < k1 && k1 + 1 < k2 && k2 + 1 < j
                    && tk(ts, k1) == Token::QuestionMark && tk(ts, k2) == Token::Colon
                    && expr_derives(b, ts, i, k1, c.kind, conditional_precedence() - 1)
                    && expr_derives(b, ts, k1 + 1, k2, t.kind, 0)
                    && expr_derives(b, ts, k2 + 1, j, f.kind, conditional_precedence())
            },
            _ => false,
        }
    }
}

/// The arguments of a call, separated by commas.
pub open spec fn args_derive(b: Seq<u8>, ts: Seq<SpannedToken>, i: int, j: int, args: Seq<Expression>) -> bool
    decreases j - i, 4int,
{
    if !(0 <= i <= j <= ts.len()) {
        false
    } else if args.len() == 0 {
        i == j
    } else if args.len() == 1 {
        expr_derives(b, ts, i, j, args[0].kind, 0)
    } else {
        exists|k: int| #![trigger tk(ts, k)] i < k < j && tk(ts, k) == Token::Comma
            && args_derive(b, ts, i, k, args.drop_last())
            && expr_derives(b, ts, k + 1, j, args.last().kind, 0)
    }
}

/// Where an expression parsed at `min` stops: the next token, if any, is no
/// operator that would bind at least that tightly.
pub open spec fn expression_ends(ts: Seq<SpannedToken>, k: int, min: int) -> bool {
    0 <= k < ts.len() ==> {
        &&& !(tk(ts, k) == Token::QuestionMark && conditional_precedence() > min)
        &&& (spec_from_token(tk(ts, k)) matches Some(op) ==> spec_precedence(op) < min)
    }
}

/// An expression derived at some precedence is derived at any lower one.
pub proof fn lemma_expr_derives_lower(b: Seq<u8>, ts: Seq<SpannedToken>, i: int, j: int, e: ExprKind, m: int, n: int)
    requires
        expr_derives(b, ts, i, j, e, m),
        n <= m,
    ensures
        expr_derives(b, ts, i, j, e, n),
{
}

/// What an expression parser that has derived its left operand at `top`
/// may meet next at position `k`: an operator that binds at least as tightly
/// as `min` binds no tighter than `top` (and an assignment strictly looser),
/// and a `?` that may follow finds the operand derived at the condition's
/// level.
pub open spec fn operand_ready(ts: Seq<SpannedToken>, k: int, min: int, top: int) -> bool {
    0 <= k < ts.len() ==> {
        &&& (spec_from_token(tk(ts, k)) matches Some(q) ==> (spec_precedence(q) >= min ==> {
            &&& spec_precedence(q) <= top
            &&& (q == BinaryOperator::Assign || spec_is_compound_assign(q)) ==> spec_precedence(q) < top
        }))
        &&& (tk(ts, k) == Token::QuestionMark && conditional_precedence() > min ==> top >= conditional_precedence() - 1)
    }
}

/// An optional expression: nothing over an empty range.
pub open spec fn opt_expr_derives(b: Seq<u8>, ts: Seq<SpannedToken>, i: int, j: int, e: Option<Expression>) -> bool
    decreases j - i, 4int,
{
    match e {
        None => 0 <= i == j <= ts.len(),
        Some(x) => expr_derives(b, ts, i, j, x.kind, 0),
    }
}

/// The label that `name:` or `goto name;` refers to, made from token `k`.
pub open spec fn goto_label(b: Seq<u8>, ts: Seq<SpannedToken>, k: int, l: Identifier) -> bool {
    &&& tk(ts, k) == Token::Ident
    &&& l.0@ == local_prefix() + token_name(b, ts, k) + ".goto_label"@
    &&& l.1@ == token_name(b, ts, k)
}

/// The placeholder target of a `break` or `continue` before loops are labelled.
pub open spec fn is_placeholder(l: Identifier) -> bool {
    &&& l.0@ == "DUMMY_IDENTIFIER__SHOULD_NOT_APPEAR_IN_OUTPUT"@
    &&& l.1@ == Seq::<char>::empty()
}

/// `int name;` or `int name = expression;`.
pub open spec fn var_decl_derives(b: Seq<u8>, ts: Seq<SpannedToken>, i: int, j: int, d: VariableDeclaration) -> bool
    decreases j - i, 5int,
{
    if !(0 <= i && i + 3 <= j <= ts.len()) {
        false
    } else {
        &&& tk(ts, i) == Token::Int
        &&& names_token(b, ts, i + 1, d.name)
        &&& tk(ts, j - 1) == Token::Semicolon
        &&& d.storage_class == StorageClass::Unspecified
        &&& d.ty is Int
        &&& match d.init {
            None => j == i + 3,
            Some(e) => tk(ts, i + 2) == Token::Assign && expr_derives(b, ts, i + 3, j - 1, e.kind, 0),
        }
    }
}

/// The first clause of a `for` header, with its semicolon.
pub open spec fn for_init_derives(b: Seq<u8>, ts: Seq<SpannedToken>, i: int, j: int, init: ForInit) -> bool
    decreases j - i, 6int,
{
    if !(0 <= i < j <= ts.len()) {
        false
    } else {
        match init {
            ForInit::Empty => j == i + 1 && tk(ts, i) == Token::Semicolon,
            ForInit::Decl(d) => var_decl_derives(b, ts, i, j, d),
            ForInit::Expr(e) => tk(ts, j - 1) == Token::Semicolon && expr_derives(b, ts, i, j - 1, e.kind, 0),
        }
    }
}

/// A statement.
pub open spec fn stmt_derives(b: Seq<u8>, ts: Seq<SpannedToken>, i: int, j: int, s: StmtKind) -> bool
    decreases j - i, 7int,
{
    if !(0 <= i < j <= ts.len()) {
        false
    } else {
        match s {
            StmtKind::Return(e) => tk(ts, i) == Token::Return && tk(ts, j - 1) == Token::Semicolon
                && expr_derives(b, ts, i + 1, j - 1, e.kind, 0),
            StmtKind::Expression(e) => tk(ts, j - 1) == Token::Semicolon && expr_derives(b, ts, i, j - 1, e.kind, 0),
            StmtKind::Null => j == i + 1 && tk(ts, i) == Token::Semicolon,
            StmtKind::Goto(l) => j == i + 3 && tk(ts, i) == Token::Goto && goto_label(b, ts, i + 1, l)
                && tk(ts, i + 2) == Token::Semicolon,
            StmtKind::Label(l, st) => goto_label(b, ts, i, l) && i + 1 < j && tk(ts, i + 1) == Token::Colon
                && stmt_derives(b, ts, i + 2, j, st.kind),
            StmtKind::Compound(block) => tk(ts, i) == Token::OpenBrace && i + 1 < j && tk(ts, j - 1) == Token::CloseBrace
                && items_derive(b, ts, i + 1, j - 1, block@),
            StmtKind::Break(l) => j == i + 2 && tk(ts, i) == Token::Break && tk(ts, i + 1) == Token::Semicolon
                && is_placeholder(l),
            StmtKind::Continue(l) => j == i + 2 && tk(ts, i) == Token::Continue && tk(ts, i + 1) == Token::Semicolon
                && is_placeholder(l),
            StmtKind::If { cond, then, else_ } => {
                &&& tk(ts, i) == Token::If
                &&& i + 1 < j && tk(ts, i + 1) == Token::OpenParen
                &&& exists|k: int| #![trigger tk(ts, k)] i + 2 < k < j && tk(ts, k) == Token::CloseParen
                    && expr_derives(b, ts, i + 2, k, cond.kind, 0)
                    && match else_ {
                        None => stmt_derives(b, ts, k + 1, j, then.kind),
                        Some(e) => exists|k2: int| #![trigger tk(ts, k2)] k + 1 < k2 < j && tk(ts, k2) == Token::Else
                            && stmt_derives(b, ts, k + 1, k2, then.kind)
                            && stmt_derives(b, ts, k2 + 1, j, e.kind),
                    }
            },
            StmtKind::While { cond, body, label } => {
                &&& tk(ts, i) == Token::While
                &&& i + 1 < j && tk(ts, i + 1) == Token::OpenParen
                &&& label.1@ == "while"@
                &&& exists|k: int| #![trigger tk(ts, k)] i + 2 < k < j && tk(ts, k) == Token::CloseParen
                    && expr_derives(b, ts, i + 2, k, cond.kind, 0)
                    && stmt_derives(b, ts, k + 1, j, body.kind)
            },
            StmtKind::DoWhile { body, cond, label } => {
                &&& tk(ts, i) == Token::Do
                &&& label.1@ == "do_while"@
                &&& i + 1 < j - 2 && tk(ts, j - 2) == Token::CloseParen && tk(ts, j - 1) == Token::Semicolon
                &&& exists|k: int, l: int| #![trigger tk(ts, k), tk(ts, l)] l == k + 1 && i + 1 < k && l + 1 < j - 2
                    && tk(ts, k) == Token::While && tk(ts, l) == Token::OpenParen
                    && stmt_derives(b, ts, i + 1, k, body.kind)
                    && expr_derives(b, ts, l + 1, j - 2, cond.kind, 0)
            },
            StmtKind::For { init, condition, post, body, label } => {
                &&& tk(ts, i) == Token::For
                &&& i + 1 < j && tk(ts, i + 1) == Token::OpenParen
                &&& label.1@ == "for"@
                &&& exists|k1: int, k2: int, k3: int|
                    #![trigger for_init_derives(b, ts, i + 2, k1, init), opt_expr_derives(b, ts, k2 + 1, k3, post)]
                    i + 2 < k1 <= k2 < k3 < j
                    && for_init_derives(b, ts, i + 2, k1, init)
                    && opt_expr_derives(b, ts, k1, k2, condition)
                    && tk(ts, k2) == Token::Semicolon
                    && opt_expr_derives(b, ts, k2 + 1, k3, post)
                    && tk(ts, k3) == Token::CloseParen
                    && stmt_derives(b, ts, k3 + 1, j, body.kind)
            },
            StmtKind::Switch(sw) => {
                &&& tk(ts, i) == Token::Switch
                &&& i + 1 < j && tk(ts, i + 1) == Token::OpenParen
                &&& sw.label.1@ == "switch"@
                &&& sw.case_set@.len() == 0
                &&& sw.cases@.len() == 0
                &&& sw.default_case is None
                &&& exists|k: int| #![trigger tk(ts, k)] i + 2 < k < j && tk(ts, k) == Token::CloseParen
                    && expr_derives(b, ts, i + 2, k, sw.value.kind, 0)
                    && stmt_derives(b, ts, k + 1, j, sw.body.kind)
            },
            StmtKind::Case { value, label, header_span, stmt } => {
                &&& tk(ts, i) == Token::Case
                &&& i + 3 < j && tk(ts, i + 1) == Token::ConstantInt && tk(ts, i + 2) == Token::Colon
                &&& token_value(b, ts, i + 1) <= i32::MAX
                &&& value == Constant::Int(token_value(b, ts, i + 1) as i32)
                &&& label.1@ == "case"@
                &&& stmt_derives(b, ts, i + 3, j, stmt.kind)
            },
            StmtKind::DefaultCase { label, header_span, stmt } => {
                &&& tk(ts, i) == Token::Default
                &&& i + 2 < j && tk(ts, i + 1) == Token::Colon
                &&& label.1@ == "default_case"@
                &&& stmt_derives(b, ts, i + 2, j, stmt.kind)
            },
        }
    }
}

/// One `int name` parameter, at tokens `k` and `k + 1`.
pub open spec fn param_derives(b: Seq<u8>, ts: Seq<SpannedToken>, k: int, p: FunctionParameter) -> bool {
    &&& tk(ts, k) == Token::Int
    &&& names_token(b, ts, k + 1, p.name)
    &&& p.ty is Int
}

/// A parameter list: `void`, or parameters separated by commas.
pub open spec fn params_derive(b: Seq<u8>, ts: Seq<SpannedToken>, i: int, j: int, ps: Seq<FunctionParameter>) -> bool
    decreases ps.len(),
{
    if !(0 <= i < j <= ts.len()) {
        false
    } else if ps.len() == 0 {
        j == i + 1 && tk(ts, i) == Token::Void
    } else if ps.len() == 1 {
        j == i + 2 && param_derives(b, ts, i, ps[0])
    } else {
        &&& tk(ts, j - 3) == Token::Comma
        &&& param_derives(b, ts, j - 2, ps.last())
        &&& params_derive(b, ts, i, j - 3, ps.drop_last())
    }
}

/// A function declaration, with its body or a semicolon.
pub open spec fn func_decl_derives(b: Seq<u8>, ts: Seq<SpannedToken>, i: int, j: int, f: FunctionDeclaration) -> bool
    decreases j - i, 8int,
{
    if !(0 <= i && i + 3 < j <= ts.len()) {
        false
    } else {
        &&& tk(ts, i) == Token::Int
        &&& names_token(b, ts, i + 1, f.name)
        &&& tk(ts, i + 2) == Token::OpenParen
        &&& f.storage_class == StorageClass::Unspecified
        &&& f.return_type is Int
        &&& exists|k: int| #![trigger tk(ts, k)] i + 3 < k && k + 1 < j && tk(ts, k) == Token::CloseParen
            && params_derive(b, ts, i + 3, k, f.params@)
            && match f.body {
                None => j == k + 2 && tk(ts, k + 1) == Token::Semicolon,
                Some(block) => k + 2 < j && tk(ts, k + 1) == Token::OpenBrace && tk(ts, j - 1) == Token::CloseBrace
                    && items_derive(b, ts, k + 2, j - 1, block@),
            }
    }
}

/// A declaration of a variable or a function.
pub open spec fn decl_derives(b: Seq<u8>, ts: Seq<SpannedToken>, i: int, j: int, d: Declaration) -> bool
    decreases j - i, 9int,
{
    match d {
        Declaration::Var(v) => var_decl_derives(b, ts, i, j, v),
        Declaration::Func(f) => func_decl_derives(b, ts, i, j, f),
    }
}

/// A block item: a declaration or a statement.
pub open spec fn item_derives(b: Seq<u8>, ts: Seq<SpannedToken>, i: int, j: int, item: BlockItem) -> bool
    decreases j - i, 10int,
{
    match item {
        BlockItem::Stmt(s) => stmt_derives(b, ts, i, j, s.kind),
        BlockItem::Decl(d) => decl_derives(b, ts, i, j, d),
    }
}

/// The items of a block, one after another; no item starts with a closing
/// brace.
pub open spec fn items_derive(b: Seq<u8>, ts: Seq<SpannedToken>, i: int, j: int, items: Seq<BlockItem>) -> bool
    decreases j - i, 11int,
{
    if !(0 <= i <= j <= ts.len()) {
        false
    } else if items.len() == 0 {
        i == j
    } else {
        exists|k: int| #![trigger tk(ts, k)] i <= k < j
            && tk(ts, k) != Token::CloseBrace
            && items_derive(b, ts, i, k, items.drop_last())
            && item_derives(b, ts, k, j, items.last())
    }
}

/// The declarations of a program, one after another, each a function.
pub open spec fn decls_derive(b: Seq<u8>, ts: Seq<SpannedToken>, i: int, j: int, decls: Seq<Declaration>) -> bool
    decreases decls.len(),
{
    if !(0 <= i <= j <= ts.len()) {
        false
    } else if decls.len() == 0 {
        i == j
    } else {
        exists|k: int| #![trigger tk(ts, k)] i <= k < j
            && decls_derive(b, ts, i, k, decls.drop_last())
            && (decls.last() matches Declaration::Func(f) && func_decl_derives(b, ts, k, j, f))
    }
}

/// A whole program: its declarations derive the tokens up to the end of
/// input.
pub open spec fn program_derives(b: Seq<u8>, ts: Seq<SpannedToken>, decls: Seq<Declaration>) -> bool {
    exists|k: int| #![trigger tk(ts, k)] decls_derive(b, ts, 0, k, decls)
        && (k == ts.len() || tk(ts, k) == Token::EndOfInput)
}

/// The pieces of a `for` statement derive it.
#[verifier::spinoff_prover]
pub proof fn lemma_for_derives(b: Seq<u8>, ts: Seq<SpannedToken>, i: int, j: int, s: StmtKind, k1: int, k2: int, k3: int)
    requires
        0 <= i && j <= ts.len(),
        tk(ts, i) == Token::For,
        tk(ts, i + 1) == Token::OpenParen,
        i + 2 < k1 <= k2 < k3 < j,
        tk(ts, k2) == Token::Semicolon,
        tk(ts, k3) == Token::CloseParen,
        match s {
            StmtKind::For { init, condition, post, body, label } => {
                &&& label.1@ == "for"@
                &&& for_init_derives(b, ts, i + 2, k1, init)
                &&& opt_expr_derives(b, ts, k1, k2, condition)
                &&& opt_expr_derives(b, ts, k2 + 1, k3, post)
                &&& stmt_derives(b, ts, k3 + 1, j, body.kind)
            },
            _ => false,
        },
    ensures
        stmt_derives(b, ts, i, j, s),
{
    match s {
        StmtKind::For { init, condition, post, body, label } => {
        },
        _ => {},
    }
}

} // verus!
