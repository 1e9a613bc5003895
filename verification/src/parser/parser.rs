//! A recursive-descent parser with precedence climbing for expressions.
use vstd::prelude::*;
use vstd::string::StringSliceAdditionalSpecFns;
use crate::analysis::Type;
use crate::diagnostics::{Diagnostic, Span, Stage};
use crate::lexer::{
    SpannedToken, Token, token_text, is_digit, is_ident_char, lex, lex_errors, lex_tokens, lexed_token_wf,
    lemma_lex_tokens_wf, token_triples,
};
use crate::parser::ast::{
    Block, BlockItem, Constant, Declaration, ExprKind, Expression, ForInit, FunctionDeclaration,
    FunctionParameter, Identifier, Program, Statement, StmtKind, StorageClass, Switch,
    VariableDeclaration, local_prefix,
};
use crate::parser::operators::{
    BinaryOperator, IncDec, UnaryOperator, CONDITIONAL_PRECEDENCE, spec_from_token,
    spec_precedence, spec_is_compound_assign,
};
use crate::parser::grammar::{
    args_derive, conditional_precedence, expr_derives, expression_ends, factor_derives, inc_dec_token,
    lemma_expr_derives_lower, names_token, operand_ready, postfix_derives, primary_derives, tk, token_name,
    token_value, unary_token, opt_expr_derives, var_decl_derives, for_init_derives, param_derives,
    params_derive, stmt_derives, goto_label, is_placeholder, items_derive, item_derives, func_decl_derives,
    decls_derive, decl_derives, program_derives, lemma_for_derives,
};
use crate::text::{ascii_string, ascii_text, push_str, string_of};

verus! {

broadcast use vstd::std_specs::vec::axiom_spec_len;

/// The parser's state: the source, its tokens, the position of the next
/// token, and the errors reported so far.
pub struct Parser {
    pub source: String,
    pub tokens: Vec<SpannedToken>,
    pub errors: Vec<Diagnostic>,
    pub i: usize,
}

/// Whether a token's span lies in the source, with the text that the lexer
/// gives its kind: a run of digits for a constant, a run of identifier
/// characters for an identifier.
pub open spec fn token_wf(b: Seq<u8>, t: SpannedToken) -> bool {
    &&& t.span.start <= t.span.end <= b.len()
    &&& t.token == Token::ConstantInt ==> {
        &&& t.span.start < t.span.end
        &&& forall|k: int| t.span.start <= k < t.span.end ==> is_digit(#[trigger] b[k])
    }
    &&& t.token == Token::Ident ==> {
        &&& t.span.start < t.span.end
        &&& forall|k: int| t.span.start <= k < t.span.end ==> is_ident_char(#[trigger] b[k])
    }
}

pub open spec fn tokens_wf(b: Seq<u8>, ts: Seq<SpannedToken>) -> bool {
    forall|k: int| 0 <= k < ts.len() ==> token_wf(b, #[trigger] ts[k])
}

/// The value of the decimal digits `b[s..e]`.
pub open spec fn digits_value(b: Seq<u8>, s: int, e: int) -> int
    decreases e - s,
{
    if e <= s {
        0
    } else {
        digits_value(b, s, e - 1) * 10 + (b[e - 1] - 48)
    }
}

/// The message for a missing token.
pub open spec fn expected_text(expected: Seq<char>, found: Token) -> Seq<char> {
    if found == Token::EndOfInput {
        "expected "@ + expected + " but reached end of input"@
    } else {
        "expected "@ + expected + " but found '"@ + token_text(found) + "'"@
    }
}

fn expected_msg(expected: &str, found: Token) -> (s: String)
    ensures
        s@ == expected_text(expected@, found),
{
    let mut s = string_of("expected ");
    push_str(&mut s, expected);
    if found == Token::EndOfInput {
        push_str(&mut s, " but reached end of input");
    } else {
        push_str(&mut s, " but found '");
        push_str(&mut s, found.text());
        push_str(&mut s, "'");
    }
    s
}

/// Whether `new` is `old` after some parsing: the same source and tokens, the
/// position not moved back, and the errors only added to.
pub open spec fn advanced(old: Parser, new: Parser) -> bool {
    &&& new.source == old.source
    &&& new.tokens == old.tokens
    &&& old.i <= new.i <= new.tokens@.len()
    &&& old.errors@.is_prefix_of(new.errors@)
}

/// Whether parsing from `old` to `new` reported no error.
pub open spec fn quiet(old: Parser, new: Parser) -> bool {
    new.errors@.len() == old.errors@.len()
}

/// Whether an expression's span runs from the first to the last token that
/// parsing it consumed.
pub open spec fn covers(ts: Seq<SpannedToken>, e: Expression, from: int, to: int) -> bool {
    &&& from < to
    &&& e.span.start == ts[from].span.start
    &&& e.span.end == ts[to - 1].span.end
}

/// Whether `e` spans tokens `i` to `j`, and so, from its first token to its
/// last, does every expression inside it.
pub open spec fn spanned(ts: Seq<SpannedToken>, e: Expression, i: int, j: int) -> bool
    decreases e, 0int,
{
    covers(ts, e, i, j) && parts_spanned(ts, e.kind, i, j)
}

/// Whether the expressions inside one of kind `k` that spans tokens `i` to
/// `j` span their own tokens: inside any parentheses around the whole, each
/// operand between the tokens of its operators.
pub open spec fn parts_spanned(ts: Seq<SpannedToken>, k: ExprKind, i: int, j: int) -> bool
    decreases k, j - i,
{
    ||| (0 <= i && i + 2 < j <= ts.len() && tk(ts, i) == Token::OpenParen && tk(ts, j - 1) == Token::CloseParen
        && parts_spanned(ts, k, i + 1, j - 1))
    ||| match k {
        ExprKind::Var(_) => j == i + 1,
        ExprKind::Constant(_) => j == i + 1,
        ExprKind::Unary { expr, .. } => spanned(ts, *expr, i + 1, j),
        ExprKind::Prefix(_, expr) => spanned(ts, *expr, i + 1, j),
        ExprKind::Postfix(_, expr) => spanned(ts, *expr, i, j - 1),
        ExprKind::Binary { lhs, rhs, .. } => exists|m: int| #![trigger covers(ts, *lhs, i, m)] i < m < j - 1 && covers(ts, *lhs, i, m)
            && parts_spanned(ts, lhs.kind, i, m) && covers(ts, *rhs, m + 1, j) && parts_spanned(ts, rhs.kind, m + 1, j),
        ExprKind::Assignment(lhs, rhs) => exists|m: int| #![trigger covers(ts, *lhs, i, m)] i < m < j - 1 && covers(ts, *lhs, i, m)
            && parts_spanned(ts, lhs.kind, i, m) && covers(ts, *rhs, m + 1, j) && parts_spanned(ts, rhs.kind, m + 1, j),
        ExprKind::CompoundAssign { lhs, rhs, .. } => exists|m: int| #![trigger covers(ts, *lhs, i, m)] i < m < j - 1 && covers(ts, *lhs, i, m)
            && parts_spanned(ts, lhs.kind, i, m) && covers(ts, *rhs, m + 1, j) && parts_spanned(ts, rhs.kind, m + 1, j),
        ExprKind::Conditional(c, t, f) => exists|m1: int, m2: int| #![trigger covers(ts, *c, i, m1), covers(ts, *t, m1 + 1, m2)]
            i < m1 && m1 + 1 < m2 && m2 + 1 < j && covers(ts, *c, i, m1) && parts_spanned(ts, c.kind, i, m1)
            && covers(ts, *t, m1 + 1, m2) && parts_spanned(ts, t.kind, m1 + 1, m2) && covers(ts, *f, m2 + 1, j)
            && parts_spanned(ts, f.kind, m2 + 1, j),
        ExprKind::FunctionCall { args, .. } => args_spanned(ts, args@, i + 2, j - 1),
        ExprKind::Cast { .. } => false,
    }
}

/// Whether the arguments of a call, between tokens `i` and `j`, each span
/// their own tokens, separated by commas.
pub open spec fn args_spanned(ts: Seq<SpannedToken>, args: Seq<Expression>, i: int, j: int) -> bool
    decreases args, 0int,
{
    if args.len() == 0 {
        i == j
    } else if args.len() == 1 {
        spanned(ts, args[0], i, j)
    } else {
        exists|m: int| #![trigger tk(ts, m)] i < m < j && tk(ts, m) == Token::Comma
            && args_spanned(ts, args.subrange(0, args.len() - 1), i, m) && spanned(ts, args[args.len() - 1], m + 1, j)
    }
}

/// Whether `e` is `inner` wrapped, innermost first, in the postfix `++`/`--`
/// of tokens `i` to `j`, each wrapping spanning from `inner`'s start to its
/// operator's end.
pub open spec fn postfixed(ts: Seq<SpannedToken>, e: Expression, inner: Expression, i: int, j: int) -> bool
    decreases j - i,
{
    if j <= i {
        j == i && e == inner
    } else {
        &&& e.kind matches ExprKind::Postfix(op, x) && inc_dec_token(tk(ts, j - 1)) == Some(op)
            && postfixed(ts, *x, inner, i, j - 1)
        &&& e.span.start == inner.span.start
        &&& e.span.end == ts[j - 1].span.end
        &&& e.ty is Int
    }
}

/// Whether token `i` is by itself an operand: an `int` constant, or a name
/// that is not called; and no `++` or `--` follows it.
pub open spec fn atom_ready(b: Seq<u8>, ts: Seq<SpannedToken>, i: int) -> bool {
    &&& 0 <= i && i + 1 < ts.len()
    &&& inc_dec_token(tk(ts, i + 1)) is None
    &&& {
        ||| tk(ts, i) == Token::ConstantInt && token_value(b, ts, i) <= i32::MAX
        ||| tk(ts, i) == Token::Ident && tk(ts, i + 1) != Token::OpenParen
    }
}

/// Whether `e` is the operand that token `i` is by itself, spanning it.
pub open spec fn atom_at(b: Seq<u8>, ts: Seq<SpannedToken>, i: int, e: Expression) -> bool {
    &&& e.span == ts[i].span
    &&& e.ty is Int
    &&& match e.kind {
        ExprKind::Constant(c) => tk(ts, i) == Token::ConstantInt && c == Constant::Int(token_value(b, ts, i) as i32),
        ExprKind::Var(id) => names_token(b, ts, i, id),
        _ => false,
    }
}

/// Whether token `i` ends an expression at once: neither a binary operator
/// nor `?`.
pub open spec fn ends_expression(ts: Seq<SpannedToken>, i: int) -> bool {
    0 <= i < ts.len() && tk(ts, i) != Token::QuestionMark && spec_from_token(tk(ts, i)) is None
}

/// Where the postfix `++` and `--` from token `k` on end.
pub open spec fn postfix_end(ts: Seq<SpannedToken>, k: int) -> int
    decreases ts.len() - k,
{
    if 0 <= k < ts.len() && inc_dec_token(tk(ts, k)) is Some {
        postfix_end(ts, k + 1)
    } else {
        k
    }
}

/// Where the factor from token `i` on ends, when it is one the parser takes
/// in full: prefix operators, then an `int` constant, a name that is not
/// called, a call whose arguments `args_end` takes, or an operator chain in
/// parentheses, then postfix `++`/`--`.
pub open spec fn factor_end(b: Seq<u8>, ts: Seq<SpannedToken>, i: int) -> Option<int>
    decreases ts.len() - i, 0int,
{
    if !(0 <= i < ts.len()) {
        None
    } else if unary_token(tk(ts, i)) is Some || inc_dec_token(tk(ts, i)) is Some {
        factor_end(b, ts, i + 1)
    } else if tk(ts, i) == Token::ConstantInt && token_value(b, ts, i) <= i32::MAX {
        Some(postfix_end(ts, i + 1))
    } else if tk(ts, i) == Token::Ident && i + 1 < ts.len() && tk(ts, i + 1) != Token::OpenParen {
        Some(postfix_end(ts, i + 1))
    } else if tk(ts, i) == Token::Ident && i + 1 < ts.len() {
        match args_end(b, ts, i + 2) {
            Some(k) => if i + 1 < k < ts.len() && tk(ts, k) == Token::CloseParen { Some(postfix_end(ts, k + 1)) } else { None },
            None => None,
        }
    } else if tk(ts, i) == Token::OpenParen {
        match chain_end(b, ts, i + 1) {
            Some(k) => if i < k < ts.len() && tk(ts, k) == Token::CloseParen { Some(postfix_end(ts, k + 1)) } else { None },
            None => None,
        }
    } else {
        None
    }
}

/// Where the operator chain from token `i` on ends, when it is one the
/// parser takes in full: factors (`factor_end`) joined by binary and
/// assignment operators and by `? chain :`, and then a token that is
/// neither such an operator nor `?`.
pub open spec fn chain_end(b: Seq<u8>, ts: Seq<SpannedToken>, i: int) -> Option<int>
    decreases ts.len() - i, 1int,
{
    if !(0 <= i < ts.len()) {
        None
    } else {
        match factor_end(b, ts, i) {
            Some(k) => if i < k < ts.len() && spec_from_token(tk(ts, k)) is Some {
                chain_end(b, ts, k + 1)
            } else if i < k < ts.len() && tk(ts, k) == Token::QuestionMark {
                match chain_end(b, ts, k + 1) {
                    Some(m) => if k + 1 < m < ts.len() && tk(ts, m) == Token::Colon { chain_end(b, ts, m + 1) } else { None },
                    None => None,
                }
            } else if i < k && (k >= ts.len() || tk(ts, k) != Token::QuestionMark) {
                Some(k)
            } else {
                None
            },
            None => None,
        }
    }
}

/// Where the arguments of a call from token `i` on end, at the `)` that
/// closes them: none, or chains (`chain_end`) separated by commas.
pub open spec fn args_end(b: Seq<u8>, ts: Seq<SpannedToken>, i: int) -> Option<int>
    decreases ts.len() - i, 2int,
{
    if !(0 <= i < ts.len()) {
        None
    } else if tk(ts, i) == Token::CloseParen {
        Some(i)
    } else {
        match chain_end(b, ts, i) {
            Some(k) => if i < k <= ts.len() { more_args_end(b, ts, k) } else { None },
            None => None,
        }
    }
}

/// Where the arguments `, chain` from token `k` on end, at the `)` that
/// closes them.
pub open spec fn more_args_end(b: Seq<u8>, ts: Seq<SpannedToken>, k: int) -> Option<int>
    decreases ts.len() - k, 3int,
{
    if !(0 <= k < ts.len()) {
        None
    } else if tk(ts, k) == Token::CloseParen {
        Some(k)
    } else if tk(ts, k) == Token::Comma {
        match chain_end(b, ts, k + 1) {
            Some(m) => if k + 1 < m <= ts.len() { more_args_end(b, ts, m) } else { None },
            None => None,
        }
    } else {
        None
    }
}

/// Whether an expression parser that stopped at `p` is on the way through
/// the chain that ends at `j`: at its end, or at one of its operators or
/// `?`s.
pub open spec fn chain_point(b: Seq<u8>, ts: Seq<SpannedToken>, p: int, j: int) -> bool {
    ||| p == j
    ||| (p < j && 0 <= p < ts.len() && spec_from_token(tk(ts, p)) is Some && chain_end(b, ts, p + 1) == Some(j))
    ||| (p < j && 0 <= p < ts.len() && tk(ts, p) == Token::QuestionMark && match chain_end(b, ts, p + 1) {
        Some(m) => p + 1 < m < ts.len() && tk(ts, m) == Token::Colon && chain_end(b, ts, m + 1) == Some(j),
        None => false,
    })
}

/// Where `( chain )` from token `i` on ends, when the parser takes it in full.
pub open spec fn paren_chain_end(b: Seq<u8>, ts: Seq<SpannedToken>, i: int) -> Option<int> {
    if 0 <= i < ts.len() && tk(ts, i) == Token::OpenParen {
        match chain_end(b, ts, i + 1) {
            Some(k) => if i + 1 < k < ts.len() && tk(ts, k) == Token::CloseParen { Some(k + 1) } else { None },
            None => None,
        }
    } else {
        None
    }
}

/// Where the chain from token `i` on and the `;` after it end, when the
/// parser takes them in full.
pub open spec fn chain_semi_end(b: Seq<u8>, ts: Seq<SpannedToken>, i: int) -> Option<int> {
    match chain_end(b, ts, i) {
        Some(k) => if i < k < ts.len() && tk(ts, k) == Token::Semicolon { Some(k + 1) } else { None },
        None => None,
    }
}

/// Where an optional chain from token `i` on ends: at once before `;` or
/// `)`, else where `chain_end` says.
pub open spec fn opt_chain_end(b: Seq<u8>, ts: Seq<SpannedToken>, i: int) -> Option<int> {
    if 0 <= i < ts.len() && (tk(ts, i) == Token::Semicolon || tk(ts, i) == Token::CloseParen) {
        Some(i)
    } else {
        chain_end(b, ts, i)
    }
}

/// Where the first clause of a `for` header from token `i` on ends, with
/// its `;`: an empty one, a declaration (`var_decl_end`) or a chain and `;`.
pub open spec fn for_init_end(b: Seq<u8>, ts: Seq<SpannedToken>, i: int) -> Option<int> {
    if 0 <= i < ts.len() && tk(ts, i) == Token::Semicolon {
        Some(i + 1)
    } else if 0 <= i < ts.len() && tk(ts, i) == Token::Int {
        var_decl_end(b, ts, i)
    } else {
        chain_semi_end(b, ts, i)
    }
}

/// Where the header `( init cond ; post )` of a `for` from token `i` on ends.
pub open spec fn for_header_end(b: Seq<u8>, ts: Seq<SpannedToken>, i: int) -> Option<int> {
    if 0 <= i < ts.len() && tk(ts, i) == Token::OpenParen {
        match for_init_end(b, ts, i + 1) {
            Some(k1) => match opt_chain_end(b, ts, k1) {
                Some(k2) => if k2 + 1 < ts.len() && tk(ts, k2) == Token::Semicolon {
                    match opt_chain_end(b, ts, k2 + 1) {
                        Some(k3) => if k3 < ts.len() && tk(ts, k3) == Token::CloseParen { Some(k3 + 1) } else { None },
                        None => None,
                    }
                } else {
                    None
                },
                None => None,
            },
            None => None,
        }
    } else {
        None
    }
}

/// Where the statement from token `i` on ends, when it is one the parser
/// takes in full: `;`, `break;`, `continue;`, `goto name;`, `return chain;`,
/// `chain;`, `name: S`, `{ items }`, `while (chain) S`, `do S while (chain);`,
/// `if (chain) S` with an optional `else S`, `for (init cond; post) S`,
/// `switch (chain) S`, `case constant: S` and `default: S`, where each chain
/// is one that `chain_end` takes and each `S` is again such a statement.
pub open spec fn stmt_end(b: Seq<u8>, ts: Seq<SpannedToken>, i: int) -> Option<int>
    decreases ts.len() - i, 1int,
{
    if !(0 <= i < ts.len()) {
        None
    } else if tk(ts, i) == Token::Semicolon {
        Some(i + 1)
    } else if tk(ts, i) == Token::Break || tk(ts, i) == Token::Continue {
        if i + 1 < ts.len() && tk(ts, i + 1) == Token::Semicolon { Some(i + 2) } else { None }
    } else if tk(ts, i) == Token::Goto {
        if i + 2 < ts.len() && tk(ts, i + 1) == Token::Ident && tk(ts, i + 2) == Token::Semicolon { Some(i + 3) } else { None }
    } else if tk(ts, i) == Token::Return {
        chain_semi_end(b, ts, i + 1)
    } else if tk(ts, i) == Token::Ident && i + 1 < ts.len() && tk(ts, i + 1) == Token::Colon {
        stmt_end(b, ts, i + 2)
    } else if tk(ts, i) == Token::OpenBrace {
        match items_end(b, ts, i + 1) {
            Some(k) => if i < k < ts.len() && tk(ts, k) == Token::CloseBrace { Some(k + 1) } else { None },
            None => None,
        }
    } else if tk(ts, i) == Token::Default {
        if i + 1 < ts.len() && tk(ts, i + 1) == Token::Colon { stmt_end(b, ts, i + 2) } else { None }
    } else if tk(ts, i) == Token::Case {
        if i + 2 < ts.len() && tk(ts, i + 1) == Token::ConstantInt && token_value(b, ts, i + 1) <= i32::MAX
            && tk(ts, i + 2) == Token::Colon {
            stmt_end(b, ts, i + 3)
        } else {
            None
        }
    } else if tk(ts, i) == Token::For {
        match for_header_end(b, ts, i + 1) {
            Some(k) => if i < k { stmt_end(b, ts, k) } else { None },
            None => None,
        }
    } else if tk(ts, i) == Token::While || tk(ts, i) == Token::Switch {
        match paren_chain_end(b, ts, i + 1) {
            Some(k) => if i < k { stmt_end(b, ts, k) } else { None },
            None => None,
        }
    } else if tk(ts, i) == Token::Do {
        match stmt_end(b, ts, i + 1) {
            Some(k) => if k + 1 < ts.len() && tk(ts, k) == Token::While {
                match paren_chain_end(b, ts, k + 1) {
                    Some(m) => if k + 1 < m < ts.len() && tk(ts, m) == Token::Semicolon { Some(m + 1) } else { None },
                    None => None,
                }
            } else {
                None
            },
            None => None,
        }
    } else if tk(ts, i) == Token::If {
        match paren_chain_end(b, ts, i + 1) {
            Some(k) => if i < k {
                match stmt_end(b, ts, k) {
                    Some(m) => if k < m < ts.len() && tk(ts, m) == Token::Else {
                        stmt_end(b, ts, m + 1)
                    } else if k < m {
                        Some(m)
                    } else {
                        None
                    },
                    None => None,
                }
            } else {
                None
            },
            None => None,
        }
    } else {
        chain_semi_end(b, ts, i)
    }
}

/// Where the declaration `int name;` or `int name = chain;` from token `i`
/// on ends, when the parser takes it in full.
pub open spec fn var_decl_end(b: Seq<u8>, ts: Seq<SpannedToken>, i: int) -> Option<int> {
    if 0 <= i && i + 2 < ts.len() && tk(ts, i) == Token::Int && tk(ts, i + 1) == Token::Ident {
        if tk(ts, i + 2) == Token::Semicolon {
            Some(i + 3)
        } else if tk(ts, i + 2) == Token::Assign {
            chain_semi_end(b, ts, i + 3)
        } else {
            None
        }
    } else {
        None
    }
}

/// Where the block items from token `i` on end (at the `}` that closes
/// them), when each is a variable declaration (`var_decl_end`), a function
/// declaration (`func_end`) or a statement (`stmt_end`) the parser takes in
/// full.
pub open spec fn items_end(b: Seq<u8>, ts: Seq<SpannedToken>, i: int) -> Option<int>
    decreases ts.len() - i, 2int,
{
    if !(0 <= i < ts.len()) {
        None
    } else if tk(ts, i) == Token::CloseBrace {
        Some(i)
    } else {
        let e = if tk(ts, i) == Token::Int {
            match var_decl_end(b, ts, i) {
                Some(k) => Some(k),
                None => func_end(b, ts, i),
            }
        } else {
            stmt_end(b, ts, i)
        };
        match e {
            Some(k) => if i < k <= ts.len() { items_end(b, ts, k) } else { None },
            None => None,
        }
    }
}

/// Where the parameters `, int name` from token `j` on end, at the `)` that
/// closes them.
pub open spec fn more_params_end(ts: Seq<SpannedToken>, j: int) -> Option<int>
    decreases ts.len() - j,
{
    if !(0 <= j < ts.len()) {
        None
    } else if tk(ts, j) == Token::CloseParen {
        Some(j)
    } else if j + 2 < ts.len() && tk(ts, j) == Token::Comma && tk(ts, j + 1) == Token::Int && tk(ts, j + 2) == Token::Ident {
        more_params_end(ts, j + 3)
    } else {
        None
    }
}

/// Where the parameter list from token `i` on ends: after `void`, or at the
/// `)` that closes `int name, int name, ...`.
pub open spec fn params_end(ts: Seq<SpannedToken>, i: int) -> Option<int> {
    if 0 <= i < ts.len() && tk(ts, i) == Token::Void {
        Some(i + 1)
    } else if 0 <= i && i + 1 < ts.len() && tk(ts, i) == Token::Int && tk(ts, i + 1) == Token::Ident {
        more_params_end(ts, i + 2)
    } else {
        None
    }
}

/// Where the function declaration from token `i` on ends, when the parser
/// takes it in full: `int name (params)` and then `;` or a body `{ items }`
/// that `stmt_end` takes.
#[verifier::opaque]
pub open spec fn func_end(b: Seq<u8>, ts: Seq<SpannedToken>, i: int) -> Option<int>
    decreases ts.len() - i, 0int,
{
    if 0 <= i && i + 2 < ts.len() && tk(ts, i) == Token::Int && tk(ts, i + 1) == Token::Ident
        && tk(ts, i + 2) == Token::OpenParen {
        match params_end(ts, i + 3) {
            Some(k) => if i + 3 < k && k + 1 < ts.len() && tk(ts, k) == Token::CloseParen {
                if tk(ts, k + 1) == Token::Semicolon {
                    Some(k + 2)
                } else if tk(ts, k + 1) == Token::OpenBrace {
                    stmt_end(b, ts, k + 1)
                } else {
                    None
                }
            } else {
                None
            },
            None => None,
        }
    } else {
        None
    }
}

/// Whether the tokens from `i` on are function declarations that the parser
/// takes in full (`func_end`), up to the end of input.
pub open spec fn program_parses(b: Seq<u8>, ts: Seq<SpannedToken>, i: int) -> bool
    decreases ts.len() - i,
{
    if i >= ts.len() {
        true
    } else if 0 <= i && tk(ts, i) == Token::EndOfInput {
        true
    } else {
        match func_end(b, ts, i) {
            Some(k) => i < k <= ts.len() && program_parses(b, ts, k),
            None => false,
        }
    }
}

proof fn lemma_postfix_end(ts: Seq<SpannedToken>, k: int)
    requires
        0 <= k <= ts.len(),
    ensures
        k <= postfix_end(ts, k) <= ts.len(),
        postfix_end(ts, k) < ts.len() ==> inc_dec_token(tk(ts, postfix_end(ts, k))) is None,
    decreases ts.len() - k,
{
    if 0 <= k < ts.len() && inc_dec_token(tk(ts, k)) is Some {
        lemma_postfix_end(ts, k + 1);
    }
}

/// A factor the parser takes in full ends after its first token, within the
/// tokens, and before no `++` or `--`.
proof fn lemma_factor_end(b: Seq<u8>, ts: Seq<SpannedToken>, i: int)
    requires
        factor_end(b, ts, i) is Some,
    ensures
        i < factor_end(b, ts, i)->0 <= ts.len(),
    decreases ts.len() - i,
{
    if unary_token(tk(ts, i)) is Some || inc_dec_token(tk(ts, i)) is Some {
        lemma_factor_end(b, ts, i + 1);
    } else if tk(ts, i) == Token::ConstantInt && token_value(b, ts, i) <= i32::MAX {
        lemma_postfix_end(ts, i + 1);
    } else if tk(ts, i) == Token::Ident && i + 1 < ts.len() && tk(ts, i + 1) != Token::OpenParen {
        lemma_postfix_end(ts, i + 1);
    } else if tk(ts, i) == Token::Ident && i + 1 < ts.len() {
        let k = args_end(b, ts, i + 2)->0;
        lemma_postfix_end(ts, k + 1);
    } else {
        let k = chain_end(b, ts, i + 1)->0;
        lemma_postfix_end(ts, k + 1);
    }
}

/// An operator chain the parser takes in full ends after its first token,
/// before no binary operator and no `?`.
proof fn lemma_chain_end(b: Seq<u8>, ts: Seq<SpannedToken>, i: int)
    requires
        chain_end(b, ts, i) is Some,
    ensures
        i < chain_end(b, ts, i)->0 <= ts.len(),
        chain_end(b, ts, i)->0 < ts.len() ==> spec_from_token(tk(ts, chain_end(b, ts, i)->0)) is None
            && tk(ts, chain_end(b, ts, i)->0) != Token::QuestionMark,
    decreases ts.len() - i,
{
    lemma_factor_end(b, ts, i);
    let k = factor_end(b, ts, i)->0;
    if i < k < ts.len() && spec_from_token(tk(ts, k)) is Some {
        lemma_chain_end(b, ts, k + 1);
    } else if i < k < ts.len() && tk(ts, k) == Token::QuestionMark {
        let m = chain_end(b, ts, k + 1)->0;
        lemma_chain_end(b, ts, m + 1);
    }
}

/// Whether tokens `i` on are `return`, a single-token operand and `;`.
pub open spec fn return_ready(b: Seq<u8>, ts: Seq<SpannedToken>, i: int) -> bool {
    &&& 0 <= i && tk(ts, i) == Token::Return
    &&& atom_ready(b, ts, i + 1)
    &&& tk(ts, i + 2) == Token::Semicolon
}

/// Whether tokens `i` on are `case`, an `int` constant, `:` and `;`.
pub open spec fn case_ready(b: Seq<u8>, ts: Seq<SpannedToken>, i: int) -> bool {
    &&& 0 <= i && i + 3 < ts.len()
    &&& tk(ts, i) == Token::Case
    &&& tk(ts, i + 1) == Token::ConstantInt && token_value(b, ts, i + 1) <= i32::MAX
    &&& tk(ts, i + 2) == Token::Colon
    &&& tk(ts, i + 3) == Token::Semicolon
}

/// Whether `s` is the statement that `return_ready` tokens from `i` make.
pub open spec fn return_parsed(b: Seq<u8>, ts: Seq<SpannedToken>, i: int, s: Statement) -> bool {
    &&& s.kind matches StmtKind::Return(e) && atom_at(b, ts, i + 1, e)
    &&& s.span.start == ts[i].span.start
    &&& s.span.end == ts[i + 2].span.end
}

/// Whether `s` is the statement that `case_ready` tokens from `i` make: the
/// header spans `case` to `:`, the inner statement is the empty one.
pub open spec fn case_parsed(b: Seq<u8>, ts: Seq<SpannedToken>, i: int, s: Statement) -> bool {
    &&& s.kind matches StmtKind::Case { value, header_span, stmt, .. } && {
        &&& value == Constant::Int(token_value(b, ts, i + 1) as i32)
        &&& header_span.start == ts[i].span.start
        &&& header_span.end == ts[i + 2].span.end
        &&& stmt.kind is Null
        &&& stmt.span == ts[i + 3].span
    }
    &&& s.span.start == ts[i].span.start
    &&& s.span.end == ts[i + 3].span.end
}

/// A wrapping in postfix operators that consumed tokens starts with one.
proof fn lemma_postfixed_first(ts: Seq<SpannedToken>, e: Expression, inner: Expression, i: int, j: int)
    requires
        postfixed(ts, e, inner, i, j),
        j > i,
    ensures
        inc_dec_token(tk(ts, i)) is Some,
    decreases j - i,
{
    if j - 1 > i {
        match e.kind {
            ExprKind::Postfix(_, x) => lemma_postfixed_first(ts, *x, inner, i, j - 1),
            _ => {},
        }
    }
}

impl Parser {
    /// The bytes of the source.
    pub open spec fn bytes(&self) -> Seq<u8> {
        vstd::utf8::encode_utf8(self.source@)
    }

    pub open spec fn wf(&self) -> bool {
        &&& self.i <= self.tokens@.len()
        &&& tokens_wf(self.bytes(), self.tokens@)
        &&& self.bytes().len() < usize::MAX
        &&& forall|k: int| 0 <= k < self.errors@.len() ==> (#[trigger] self.errors@[k]).stage == Stage::Parse
    }

    /// The token at position `k`.
    pub open spec fn tok(&self, k: int) -> Token {
        self.tokens@[k].token
    }

    pub fn new(source: String, tokens: Vec<SpannedToken>) -> (p: Self)
        ensures
            p.source == source,
            p.tokens == tokens,
            p.i == 0,
            p.errors@.len() == 0,
    {
        Self { source, tokens, i: 0, errors: Vec::new() }
    }

    fn error(&mut self, span: Span, message: String)
        ensures
            final(self).source == old(self).source,
            final(self).tokens == old(self).tokens,
            final(self).i == old(self).i,
            final(self).errors@ == old(self).errors@.push(Diagnostic { stage: Stage::Parse, span, message }),
    {
        self.errors.push(Diagnostic::new(Stage::Parse, span, message));
    }

    fn peek_span(&self) -> (r: Option<Span>)
        ensures
            r == (if self.i < self.tokens@.len() { Some(self.tokens@[self.i as int].span) } else { None::<Span> }),
    {
        if self.i < self.tokens.len() {
            let s = &self.tokens[self.i].span;
            Some(s.start..s.end)
        } else {
            None
        }
    }

    fn prev_span(&self) -> (r: Option<Span>)
        requires
            self.i <= self.tokens@.len(),
        ensures
            r == (if self.i > 0 { Some(self.tokens@[self.i - 1].span) } else { None::<Span> }),
    {
        if self.i > 0 {
            let s = &self.tokens[self.i - 1].span;
            Some(s.start..s.end)
        } else {
            None
        }
    }

    fn eof_span(&self) -> (r: Span)
        requires
            self.bytes().len() < usize::MAX,
        ensures
            r.start == self.bytes().len(),
            r.end == self.bytes().len(),
    {
        let n = self.source.as_str().len();
        n..n
    }

    fn peek_span_or_eof(&self) -> (r: Span)
        requires
            self.bytes().len() < usize::MAX,
        ensures
            self.i < self.tokens@.len() ==> r == self.tokens@[self.i as int].span,
            self.i >= self.tokens@.len() ==> r.start == self.bytes().len() && r.end == self.bytes().len(),
    {
        match self.peek_span() {
            Some(s) => s,
            None => self.eof_span(),
        }
    }

    pub fn is_at_end(&self) -> (r: bool)
        ensures
            r == (self.i >= self.tokens@.len()),
    {
        self.i >= self.tokens.len()
    }

    pub fn is_nearly_at_end(&self) -> (r: bool)
        ensures
            r == (self.i + 1 >= self.tokens@.len()),
    {
        self.i >= self.tokens.len() || self.tokens.len() - self.i <= 1
    }

    /// The next token, consumed.
    pub fn next(&mut self) -> (r: Option<Token>)
        ensures
            final(self).source == old(self).source,
            final(self).tokens == old(self).tokens,
            final(self).errors == old(self).errors,
            old(self).i < old(self).tokens@.len() ==> r == Some(old(self).tok(old(self).i as int)) && final(self).i == old(self).i + 1,
            old(self).i >= old(self).tokens@.len() ==> r is None && final(self).i == old(self).i,
    {
        if self.i < self.tokens.len() {
            let token = self.tokens[self.i].token;
            self.i = self.i + 1;
            Some(token)
        } else {
            None
        }
    }

    /// The token consumed last.
    pub fn current(&self) -> (r: Option<Token>)
        requires
            self.i <= self.tokens@.len(),
        ensures
            r == (if self.i > 0 { Some(self.tok(self.i - 1)) } else { None::<Token> }),
    {
        if self.i > 0 {
            Some(self.tokens[self.i - 1].token)
        } else {
            None
        }
    }

    pub fn current_spanned(&self) -> (r: Option<&SpannedToken>)
        requires
            self.i <= self.tokens@.len(),
        ensures
            r == (if self.i > 0 { Some(&self.tokens@[self.i - 1]) } else { None::<&SpannedToken> }),
    {
        if self.i > 0 {
            Some(&self.tokens[self.i - 1])
        } else {
            None
        }
    }

    /// The next token, not consumed.
    pub fn peek(&self) -> (r: Option<Token>)
        ensures
            r == (if self.i < self.tokens@.len() { Some(self.tok(self.i as int)) } else { None::<Token> }),
    {
        if !self.is_at_end() {
            Some(self.tokens[self.i].token)
        } else {
            None
        }
    }

    /// The token after the next one.
    pub fn double_peek(&self) -> (r: Option<Token>)
        ensures
            r == (if self.i + 1 < self.tokens@.len() { Some(self.tok(self.i + 1)) } else { None::<Token> }),
    {
        if self.i < self.tokens.len() && self.tokens.len() - self.i > 1 {
            Some(self.tokens[self.i + 1].token)
        } else {
            None
        }
    }

    /// Consumes the next token if it is `token`.
    pub fn consume_if_present(&mut self, token: Token) -> (r: Option<()>)
        ensures
            final(self).source == old(self).source,
            final(self).tokens == old(self).tokens,
            final(self).errors == old(self).errors,
            r is Some <==> (old(self).i < old(self).tokens@.len() && old(self).tok(old(self).i as int) == token),
            final(self).i == (if r is Some { old(self).i + 1 } else { old(self).i as int }),
    {
        if self.peek() == Some(token) {
            self.next();
            Some(())
        } else {
            None
        }
    }

    /// Consumes the next token, which must be `expected`; otherwise reports
    /// what was expected and what was found.
    pub fn consume(&mut self, expected: Token) -> (r: Option<()>)
        requires
            old(self).bytes().len() < usize::MAX,
        ensures
            old(self).wf() ==> final(self).wf(),
            final(self).source == old(self).source,
            final(self).tokens == old(self).tokens,
            r is Some <==> (old(self).i < old(self).tokens@.len() && old(self).tok(old(self).i as int) == expected),
            r is Some ==> final(self).i == old(self).i + 1 && final(self).errors == old(self).errors,
            r is None ==> final(self).i == old(self).i,
            r is None && old(self).i < old(self).tokens@.len() ==> final(self).errors@ == old(self).errors@.push(Diagnostic {
                stage: Stage::Parse,
                span: old(self).tokens@[old(self).i as int].span,
                message: final(self).errors@.last().message,
            }) && final(self).errors@.last().message@ == expected_text(token_text(expected), old(self).tok(old(self).i as int)),
            r is None && old(self).i >= old(self).tokens@.len() ==> final(self).errors@.len() == old(self).errors@.len() + 1
                && final(self).errors@.drop_last() == old(self).errors@
                && final(self).errors@.last().stage == Stage::Parse
                && final(self).errors@.last().span.start == old(self).bytes().len()
                && final(self).errors@.last().span.end == old(self).bytes().len()
                && final(self).errors@.last().message@ == expected_text(token_text(expected), Token::EndOfInput),
    {
        self.consume_with_custom_expected_message(expected, expected.text())
    }

    /// As `consume`, with `msg` naming what was expected in the message.
    pub fn consume_with_custom_expected_message(&mut self, expected: Token, msg: &str) -> (r: Option<()>)
        requires
            old(self).bytes().len() < usize::MAX,
        ensures
            old(self).wf() ==> final(self).wf(),
            final(self).source == old(self).source,
            final(self).tokens == old(self).tokens,
            r is Some <==> (old(self).i < old(self).tokens@.len() && old(self).tok(old(self).i as int) == expected),
            r is Some ==> final(self).i == old(self).i + 1 && final(self).errors == old(self).errors,
            r is None ==> final(self).i == old(self).i,
            r is None && old(self).i < old(self).tokens@.len() ==> final(self).errors@ == old(self).errors@.push(Diagnostic {
                stage: Stage::Parse,
                span: old(self).tokens@[old(self).i as int].span,
                message: final(self).errors@.last().message,
            }) && final(self).errors@.last().message@ == expected_text(msg@, old(self).tok(old(self).i as int)),
            r is None && old(self).i >= old(self).tokens@.len() ==> final(self).errors@.len() == old(self).errors@.len() + 1
                && final(self).errors@.drop_last() == old(self).errors@
                && final(self).errors@.last().stage == Stage::Parse
                && final(self).errors@.last().span.start == old(self).bytes().len()
                && final(self).errors@.last().span.end == old(self).bytes().len()
                && final(self).errors@.last().message@ == expected_text(msg@, Token::EndOfInput),
    {
        match self.peek() {
            Some(found) => {
                if found == expected {
                    assert(self.i < self.tokens.len());
                    self.i = self.i + 1;
                    Some(())
                } else {
                    let span = self.peek_span_or_eof();
                    let m = expected_msg(msg, found);
                    self.error(span, m);
                    None
                }
            },
            None => {
                let span = self.eof_span();
                let m = expected_msg(msg, Token::EndOfInput);
                self.error(span, m);
                proof {
                    assert(self.errors@.drop_last() =~= old(self).errors@);
                }
                None
            },
        }
    }

    /// The binary operator that the next token stands for, if any.
    pub fn peek_binary_operator(&self) -> (r: Option<BinaryOperator>)
        ensures
            r == (if self.i < self.tokens@.len() { spec_from_token(self.tok(self.i as int)) } else { None::<BinaryOperator> }),
    {
        match self.peek() {
            Some(token) => BinaryOperator::from_token(token),
            None => None,
        }
    }

    /// The `int` value of the constant token consumed last; reports an error
    /// when it does not fit in an `int`.
    pub fn constant(&mut self) -> (r: Option<Constant>)
        requires
            old(self).wf(),
            old(self).i > 0,
            old(self).tok(old(self).i - 1) == Token::ConstantInt,
        ensures
            final(self).wf(),
            final(self).source == old(self).source,
            final(self).tokens == old(self).tokens,
            final(self).i == old(self).i,
            ({
                let t = old(self).tokens@[old(self).i - 1];
                let v = digits_value(old(self).bytes(), t.span.start as int, t.span.end as int);
                &&& v <= i32::MAX ==> r == Some(Constant::Int(v as i32)) && final(self).errors == old(self).errors
                &&& v > i32::MAX ==> r is None && final(self).errors@ == old(self).errors@.push(Diagnostic {
                    stage: Stage::Parse,
                    span: t.span,
                    message: final(self).errors@.last().message,
                }) && final(self).errors@.last().message@ == "integer constant is too large to fit in an 'int'"@
            }),
    {
        let t = &self.tokens[self.i - 1];
        let s = t.span.start;
        let e = t.span.end;
        let b = self.source.as_str().as_bytes();
        proof {
            assert(token_wf(self.bytes(), self.tokens@[self.i - 1]));
        }
        let mut acc: i64 = 0;
        let mut over = false;
        let mut k = s;
        while k < e
            invariant
                s <= k <= e,
                e <= b@.len(),
                b@ == self.bytes(),
                forall|j: int| s <= j < e ==> is_digit(#[trigger] b@[j]),
                !over ==> acc == digits_value(b@, s as int, k as int) && 0 <= acc <= i32::MAX,
                over ==> digits_value(b@, s as int, k as int) > i32::MAX,
                digits_value(b@, s as int, k as int) >= 0,
            decreases e - k,
        {
            let d = (b[k] - 48) as i64;
            proof {
                assert(is_digit(b@[k as int]));
                assert(digits_value(b@, s as int, k + 1) == digits_value(b@, s as int, k as int) * 10 + d);
            }
            if !over {
                acc = acc * 10 + d;
                if acc > 2147483647 {
                    over = true;
                }
            }
            k = k + 1;
        }
        if over {
            let span = s..e;
            self.error(span, string_of("integer constant is too large to fit in an 'int'"));
            None
        } else {
            Some(Constant::Int(acc as i32))
        }
    }

    /// Consumes an identifier token and gives its name.
    pub fn ident(&mut self) -> (r: Option<Identifier>)
        requires
            old(self).wf(),
        ensures
            final(self).wf(),
            final(self).source == old(self).source,
            final(self).tokens == old(self).tokens,
            r is Some <==> (old(self).i < old(self).tokens@.len() && old(self).tok(old(self).i as int) == Token::Ident),
            r is Some ==> final(self).errors == old(self).errors && final(self).i == old(self).i + 1,
            r is None ==> final(self).i == old(self).i && final(self).errors@.len() == old(self).errors@.len() + 1
                && final(self).errors@.drop_last() == old(self).errors@,
            r matches Some(id) ==> ({
                let t = old(self).tokens@[old(self).i as int];
                &&& id.0@ == ascii_text(old(self).bytes(), t.span.start as int, t.span.end as int)
                &&& id.1@ == id.0@
            }),
    {
        match self.consume(Token::Ident) {
            Some(()) => {},
            None => {
                proof {
                    if old(self).i < old(self).tokens@.len() {
                        assert(self.errors@.drop_last() =~= old(self).errors@);
                    }
                }
                return None;
            },
        }
        let t = &self.tokens[self.i - 1];
        proof {
            assert(token_wf(self.bytes(), self.tokens@[self.i - 1]));
        }
        let b = self.source.as_str().as_bytes();
        let text = ascii_string(b, t.span.start, t.span.end);
        Some(Identifier(text.clone(), text))
    }

    /// Parses a factor: a name, call, constant, parenthesized expression or
    /// unary operation, with any postfix `++`/`--` after it.
    #[verifier::spinoff_prover]
    pub fn factor(&mut self) -> (r: Option<Expression>)
        requires
            old(self).wf(),
        ensures
            final(self).wf(),
            advanced(*old(self), *final(self)),
            r matches Some(e) ==> final(self).i > old(self).i && covers(old(self).tokens@, e, old(self).i as int, final(self).i as int) && e.ty is Int,
            r matches Some(e) ==> (quiet(*old(self), *final(self)) ==> factor_derives(old(self).bytes(), old(self).tokens@,
                old(self).i as int, final(self).i as int, e.kind)),
            r is None && quiet(*old(self), *final(self)) ==> final(self).i >= final(self).tokens@.len(),
            atom_ready(old(self).bytes(), old(self).tokens@, old(self).i as int) ==> (r matches Some(e)
                && atom_at(old(self).bytes(), old(self).tokens@, old(self).i as int, e))
                && final(self).i == old(self).i + 1 && final(self).errors == old(self).errors,
            factor_end(old(self).bytes(), old(self).tokens@, old(self).i as int) matches Some(k) ==> r is Some
                && final(self).i == k && final(self).errors == old(self).errors,
            r matches Some(e) ==> spanned(old(self).tokens@, e, old(self).i as int, final(self).i as int),
        decreases old(self).tokens@.len() - old(self).i, 8nat,
    {
        let ghost i0 = self.i as int;
        let t = self.next()?;
        match t {
            Token::Ident => {
                let span = {
                    let c = &self.tokens[self.i - 1];
                    c.span.start..c.span.end
                };
                proof {
                    assert(token_wf(self.bytes(), self.tokens@[self.i - 1]));
                }
                let b = self.source.as_str().as_bytes();
                let s = ascii_string(b, span.start, span.end);
                let expr;
                if self.peek() == Some(Token::OpenParen) {
                    self.next();
                    let ghost i2 = self.i as int;
                    let ghost e2 = self.errors@.len();
                    let args = self.arguement_list()?;
                    let ghost k = self.i as int;
                    self.consume(Token::CloseParen)?;
                    let end = self.prev_span()?.end;
                    let span = span.start..end;
                    expr = Expression::new(ExprKind::FunctionCall { name: Identifier(s.clone(), s), args }, span);
                    proof {
                        if self.errors@.len() == old(self).errors@.len() {
                            assert(names_token(self.bytes(), self.tokens@, i0, Identifier(s, s)));
                            assert(args_derive(self.bytes(), self.tokens@, i2, k, args@));
                            assert(primary_derives(self.bytes(), self.tokens@, i0, self.i as int, expr.kind));
                        }
                    }
                } else {
                    expr = Expression::new(ExprKind::Var(Identifier(s.clone(), s)), span);
                    proof {
                        assert(primary_derives(self.bytes(), self.tokens@, i0, self.i as int, expr.kind));
                    }
                }
                let ghost ep = self.errors@.len();
                let ghost i1 = self.i as int;
                let ghost before = expr;
                let r = self.postfix(expr, Ghost(i0));
                proof {
                    if r is Some && self.errors@.len() == old(self).errors@.len() {
                        assert(factor_derives(self.bytes(), self.tokens@, i0, self.i as int, r->0.kind));
                    }
                    if atom_ready(old(self).bytes(), old(self).tokens@, i0) {
                        if self.i > i1 {
                            lemma_postfixed_first(self.tokens@, r->0, before, i1, self.i as int);
                        }
                        assert(self.i == i1);
                        assert(names_token(self.bytes(), self.tokens@, i0, Identifier(s, s)));
                    }
                }
                r
            },
            Token::OpenParen => {
                let open = self.tokens[self.i - 1].span.start;
                let expr = self.expression(0)?;
                let ghost k = self.i as int;
                self.consume(Token::CloseParen)?;
                let close = self.prev_span()?.end;
                let parenthesized = Expression::new(expr.kind, open..close);
                proof {
                    if self.errors@.len() == old(self).errors@.len() {
                        assert(expr_derives(self.bytes(), self.tokens@, i0 + 1, k, parenthesized.kind, 0));
                        assert(primary_derives(self.bytes(), self.tokens@, i0, self.i as int, parenthesized.kind));
                    }
                }
                let r = self.postfix(parenthesized, Ghost(i0));
                proof {
                    if r is Some && self.errors@.len() == old(self).errors@.len() {
                        assert(factor_derives(self.bytes(), self.tokens@, i0, self.i as int, r->0.kind));
                    }
                }
                r
            },
            Token::ConstantInt => {
                let span = {
                    let c = &self.tokens[self.i - 1];
                    c.span.start..c.span.end
                };
                let c = self.constant()?;
                let expr = Expression::new(ExprKind::Constant(c), span);
                proof {
                    assert(token_value(self.bytes(), self.tokens@, i0) <= i32::MAX);
                    assert(primary_derives(self.bytes(), self.tokens@, i0, self.i as int, expr.kind));
                }
                let ghost i1 = self.i as int;
                let r = self.postfix(expr, Ghost(i0));
                proof {
                    if r is Some && self.errors@.len() == old(self).errors@.len() {
                        assert(factor_derives(self.bytes(), self.tokens@, i0, self.i as int, r->0.kind));
                    }
                    if atom_ready(old(self).bytes(), old(self).tokens@, i0) {
                        if self.i > i1 {
                            lemma_postfixed_first(self.tokens@, r->0, expr, i1, self.i as int);
                        }
                        assert(self.i == i1);
                    }
                }
                r
            },
            Token::Hyphen => {
                let start = self.tokens[self.i - 1].span.start;
                self.unary(UnaryOperator::Negate, start)
            },
            Token::Tilde => {
                let start = self.tokens[self.i - 1].span.start;
                self.unary(UnaryOperator::BitwiseNot, start)
            },
            Token::Not => {
                let start = self.tokens[self.i - 1].span.start;
                self.unary(UnaryOperator::Not, start)
            },
            Token::Increment => {
                let start = self.tokens[self.i - 1].span.start;
                self.prefix_inc_dec(IncDec::Increment, start)
            },
            Token::Decrement => {
                let start = self.tokens[self.i - 1].span.start;
                self.prefix_inc_dec(IncDec::Decrement, start)
            },
            _ => {
                let found = t;
                let span = {
                    let c = &self.tokens[self.i - 1];
                    c.span.start..c.span.end
                };
                let message = if found == Token::EndOfInput {
                    string_of("unexpected end of input")
                } else {
                    let mut m = string_of("unexpected token '");
                    push_str(&mut m, found.text());
                    push_str(&mut m, "', expected expression");
                    m
                };
                self.error(span, message);
                None
            },
        }
    }

    fn unary(&mut self, operator: UnaryOperator, start: usize) -> (r: Option<Expression>)
        requires
            old(self).wf(),
            old(self).i > 0,
            start == old(self).tokens@[old(self).i - 1].span.start,
            unary_token(old(self).tok(old(self).i - 1)) == Some(operator),
        ensures
            final(self).wf(),
            advanced(*old(self), *final(self)),
            r matches Some(e) ==> final(self).i > old(self).i && covers(old(self).tokens@, e, old(self).i - 1, final(self).i as int) && e.ty is Int,
            r matches Some(e) ==> (quiet(*old(self), *final(self)) ==> factor_derives(old(self).bytes(), old(self).tokens@,
                old(self).i - 1, final(self).i as int, e.kind)),
            r is None && quiet(*old(self), *final(self)) ==> final(self).i >= final(self).tokens@.len(),
            factor_end(old(self).bytes(), old(self).tokens@, old(self).i as int) matches Some(k) ==> r is Some
                && final(self).i == k && final(self).errors == old(self).errors,
            r matches Some(e) ==> spanned(old(self).tokens@, e, old(self).i - 1, final(self).i as int),
        decreases old(self).tokens@.len() - old(self).i, 9nat,
    {
        let expr = Box::new(self.factor()?);
        let span = start..expr.span.end;
        Some(Expression::new(ExprKind::Unary { operator, expr }, span))
    }

    fn prefix_inc_dec(&mut self, op: IncDec, start: usize) -> (r: Option<Expression>)
        requires
            old(self).wf(),
            old(self).i > 0,
            start == old(self).tokens@[old(self).i - 1].span.start,
            inc_dec_token(old(self).tok(old(self).i - 1)) == Some(op),
        ensures
            final(self).wf(),
            advanced(*old(self), *final(self)),
            r matches Some(e) ==> final(self).i > old(self).i && covers(old(self).tokens@, e, old(self).i - 1, final(self).i as int) && e.ty is Int,
            r matches Some(e) ==> (quiet(*old(self), *final(self)) ==> factor_derives(old(self).bytes(), old(self).tokens@,
                old(self).i - 1, final(self).i as int, e.kind)),
            r is None && quiet(*old(self), *final(self)) ==> final(self).i >= final(self).tokens@.len(),
            factor_end(old(self).bytes(), old(self).tokens@, old(self).i as int) matches Some(k) ==> r is Some
                && final(self).i == k && final(self).errors == old(self).errors,
            r matches Some(e) ==> spanned(old(self).tokens@, e, old(self).i - 1, final(self).i as int),
        decreases old(self).tokens@.len() - old(self).i, 9nat,
    {
        let expr = Box::new(self.factor()?);
        let span = start..expr.span.end;
        Some(Expression::new(ExprKind::Prefix(op, expr), span))
    }

    /// Wraps `expr`, which was parsed from token `from` on, in the postfix
    /// `++`/`--` operators that follow it.
    fn postfix(&mut self, expr: Expression, Ghost(from): Ghost<int>) -> (r: Option<Expression>)
        requires
            old(self).wf(),
            old(self).i > 0,
            expr.span.end == old(self).tokens@[old(self).i - 1].span.end,
            expr.ty is Int,
        ensures
            final(self).wf(),
            advanced(*old(self), *final(self)),
            final(self).errors == old(self).errors,
            r is Some,
            r matches Some(e) ==> e.span.start == expr.span.start
                && e.span.end == final(self).tokens@[final(self).i - 1].span.end && e.ty is Int,
            r matches Some(e) ==> (postfix_derives(old(self).bytes(), old(self).tokens@, from, old(self).i as int, expr.kind)
                ==> postfix_derives(old(self).bytes(), old(self).tokens@, from, final(self).i as int, e.kind)),
            r matches Some(e) ==> postfixed(old(self).tokens@, e, expr, old(self).i as int, final(self).i as int),
            final(self).i < final(self).tokens@.len() ==> inc_dec_token(final(self).tok(final(self).i as int)) is None,
            final(self).i == postfix_end(old(self).tokens@, old(self).i as int),
            r matches Some(e) ==> (spanned(old(self).tokens@, expr, from, old(self).i as int)
                ==> spanned(old(self).tokens@, e, from, final(self).i as int)),
    {
        let ghost start = expr.span.start;
        let ghost b = self.bytes();
        let ghost ts = self.tokens@;
        let ghost derived = postfix_derives(b, ts, from, old(self).i as int, expr.kind);
        let ghost orig = expr;
        let mut expr = expr;
        loop
            invariant
                self.wf(),
                advanced(*old(self), *self),
                self.errors == old(self).errors,
                self.i > 0,
                expr.span.start == start,
                expr.span.end == self.tokens@[self.i - 1].span.end,
                expr.ty is Int,
                b == self.bytes(),
                ts == self.tokens@,
                derived ==> postfix_derives(b, ts, from, self.i as int, expr.kind),
                postfixed(ts, expr, orig, old(self).i as int, self.i as int),
                postfix_end(ts, self.i as int) == postfix_end(ts, old(self).i as int),
                spanned(ts, orig, from, old(self).i as int) ==> spanned(ts, expr, from, self.i as int),
            ensures
                self.wf(),
                advanced(*old(self), *self),
                self.errors == old(self).errors,
                self.i > 0,
                expr.span.start == start,
                expr.span.end == self.tokens@[self.i - 1].span.end,
                expr.ty is Int,
                b == self.bytes(),
                ts == self.tokens@,
                derived ==> postfix_derives(b, ts, from, self.i as int, expr.kind),
                postfixed(ts, expr, orig, old(self).i as int, self.i as int),
                self.i < self.tokens@.len() ==> inc_dec_token(self.tok(self.i as int)) is None,
                postfix_end(ts, self.i as int) == postfix_end(ts, old(self).i as int),
                spanned(ts, orig, from, old(self).i as int) ==> spanned(ts, expr, from, self.i as int),
            decreases self.tokens@.len() - self.i,
        {
            let op = match self.peek() {
                Some(Token::Increment) => IncDec::Increment,
                Some(Token::Decrement) => IncDec::Decrement,
                _ => break,
            };
            let end = self.peek_span()?.end;
            self.next()?;
            let span = expr.span.start..end;
            let ghost prev_expr = expr;
            expr = Expression::new(ExprKind::Postfix(op, Box::new(expr)), span);
            proof {
                assert(inc_dec_token(tk(ts, self.i - 1)) == Some(op));
                assert(postfixed(ts, prev_expr, orig, old(self).i as int, self.i - 1));
                if derived {
                    assert(inc_dec_token(tk(ts, self.i - 1)) == Some(op));
                    assert(postfix_derives(b, ts, from, self.i as int, expr.kind));
                }
            }
        }
        Some(expr)
    }

    /// Parses an expression whose operators bind at least as tightly as
    /// `min_precedence`, by precedence climbing; assignments and `?:` group
    /// to the right, the other binary operators to the left.
    #[verifier::spinoff_prover]
    pub fn expression(&mut self, min_precedence: u32) -> (r: Option<Expression>)
        requires
            old(self).wf(),
        ensures
            final(self).wf(),
            advanced(*old(self), *final(self)),
            r matches Some(e) ==> final(self).i > old(self).i && covers(old(self).tokens@, e, old(self).i as int, final(self).i as int) && e.ty is Int,
            r matches Some(e) ==> expression_ends(old(self).tokens@, final(self).i as int, min_precedence as int),
            r matches Some(e) ==> (quiet(*old(self), *final(self)) ==> expr_derives(old(self).bytes(), old(self).tokens@,
                old(self).i as int, final(self).i as int, e.kind, min_precedence as int)),
            r is None && quiet(*old(self), *final(self)) ==> final(self).i >= final(self).tokens@.len(),
            atom_ready(old(self).bytes(), old(self).tokens@, old(self).i as int)
                && ends_expression(old(self).tokens@, old(self).i + 1) ==> (r matches Some(e)
                && atom_at(old(self).bytes(), old(self).tokens@, old(self).i as int, e))
                && final(self).i == old(self).i + 1 && final(self).errors == old(self).errors,
            chain_end(old(self).bytes(), old(self).tokens@, old(self).i as int) matches Some(j) ==> r is Some
                && final(self).errors == old(self).errors && chain_point(old(self).bytes(), old(self).tokens@, final(self).i as int, j)
                && (min_precedence == 0 ==> final(self).i == j),
            r matches Some(e) ==> spanned(old(self).tokens@, e, old(self).i as int, final(self).i as int),
        decreases old(self).tokens@.len() - old(self).i, 10nat,
    {
        let ghost i0 = self.i as int;
        let ghost b = self.bytes();
        let ghost ts = self.tokens@;
        let ghost e0 = self.errors@.len();
        let ghost min = min_precedence as int;
        let ghost chain = chain_end(b, ts, i0);
        let ghost jc = chain->0;
        proof {
            if chain is Some {
                lemma_chain_end(b, ts, i0);
                lemma_factor_end(b, ts, i0);
            }
        }
        let mut lhs = self.factor()?;
        proof {
            if chain is Some {
                let k = factor_end(b, ts, i0)->0;
                if i0 < k < ts.len() && spec_from_token(tk(ts, k)) is Some {
                    lemma_chain_end(b, ts, k + 1);
                } else if i0 < k < ts.len() && tk(ts, k) == Token::QuestionMark {
                    let m = chain_end(b, ts, k + 1)->0;
                    lemma_chain_end(b, ts, k + 1);
                    lemma_chain_end(b, ts, m + 1);
                    assert(chain_end(b, ts, m + 1) == Some(jc));
                }
                assert(chain_point(b, ts, self.i as int, jc));
            }
        }
        let ghost first = lhs;
        let ghost i1 = self.i as int;
        let ghost simple = atom_ready(b, ts, i0) && ends_expression(ts, i0 + 1);
        let ghost mut top: int = if min > 100 { min } else { 100 };
        loop
            invariant
                self.wf(),
                advanced(*old(self), *self),
                self.i > old(self).i,
                covers(old(self).tokens@, lhs, old(self).i as int, self.i as int),
                spanned(old(self).tokens@, lhs, old(self).i as int, self.i as int),
                lhs.ty is Int,
                b == self.bytes(),
                ts == self.tokens@,
                e0 == old(self).errors@.len(),
                min == min_precedence as int,
                i0 == old(self).i as int,
                min <= top,
                self.errors@.len() == e0 ==> expr_derives(b, ts, i0, self.i as int, lhs.kind, top),
                operand_ready(ts, self.i as int, min, top),
                simple ==> self.i == i1 && i1 == i0 + 1 && lhs == first && self.errors == old(self).errors,
                simple == (atom_ready(b, ts, i0) && ends_expression(ts, i0 + 1)),
                simple ==> atom_at(b, ts, i0, first),
                chain == chain_end(b, ts, i0),
                jc == chain->0,
                chain is Some ==> chain_point(b, ts, self.i as int, jc) && self.errors == old(self).errors,
                chain is Some ==> jc <= ts.len() && (jc < ts.len() ==> spec_from_token(tk(ts, jc)) is None
                    && tk(ts, jc) != Token::QuestionMark),
            ensures
                self.wf(),
                advanced(*old(self), *self),
                self.i > old(self).i,
                covers(old(self).tokens@, lhs, old(self).i as int, self.i as int),
                spanned(old(self).tokens@, lhs, old(self).i as int, self.i as int),
                lhs.ty is Int,
                expression_ends(ts, self.i as int, min),
                self.errors@.len() == e0 ==> expr_derives(b, ts, i0, self.i as int, lhs.kind, min),
                simple ==> self.i == i1 && i1 == i0 + 1 && lhs == first && self.errors == old(self).errors,
                chain is Some ==> chain_point(b, ts, self.i as int, jc) && self.errors == old(self).errors,
                chain is Some && min_precedence == 0 ==> self.i == jc,
            decreases self.tokens@.len() - self.i,
        {
            let ghost k = self.i as int;
            let ghost prev = lhs.kind;
            let ghost prev_e = lhs;
            if self.peek() == Some(Token::QuestionMark) && CONDITIONAL_PRECEDENCE > min_precedence {
                proof {
                    if simple {
                        assert(tk(ts, i0 + 1) == Token::QuestionMark);
                    }
                    if chain is Some {
                        assert(self.i < jc);
                        lemma_chain_end(b, ts, self.i + 1);
                    }
                }
                self.next()?;
                let ghost k1 = self.i as int;
                let mhs = self.expression(0)?;
                let ghost k2 = self.i as int;
                self.consume(Token::Colon)?;
                let rhs = self.expression(CONDITIONAL_PRECEDENCE)?;
                let span = lhs.span.start..rhs.span.end;
                lhs = Expression::new(ExprKind::Conditional(Box::new(lhs), Box::new(mhs), Box::new(rhs)), span);
                proof {
                    assert(spanned(ts, prev_e, i0, k));
                    assert(*lhs.kind->Conditional_0 == prev_e);
                    assert(spanned(ts, *lhs.kind->Conditional_0, i0, k));
                    assert(spanned(ts, *lhs.kind->Conditional_1, k1, k2));
                    assert(spanned(ts, *lhs.kind->Conditional_2, k2 + 1, self.i as int));
                    assert(covers(ts, lhs, i0, self.i as int));
                    assert(parts_spanned(ts, lhs.kind, i0, self.i as int));
                    assert(spanned(ts, lhs, i0, self.i as int));
                }
                proof {
                    if self.errors@.len() == e0 {
                        lemma_expr_derives_lower(b, ts, i0, k, prev, top, 9);
                        assert(tk(ts, k) == Token::QuestionMark);
                        assert(tk(ts, k2) == Token::Colon);
                        assert(expr_derives(b, ts, i0, self.i as int, lhs.kind, 9));
                    }
                    top = 9;
                }
            } else if let Some(operator) = self.peek_binary_operator() {
                proof {
                    if simple {
                        assert(spec_from_token(tk(ts, i0 + 1)) == Some(operator));
                    }
                    if chain is Some {
                        assert(self.i < jc);
                        assert(chain_end(b, ts, self.i + 1) == Some(jc));
                    }
                }
                if operator.precedence() < min_precedence {
                    break;
                }
                self.next()?;
                let p = operator.precedence();
                if operator.is_compound_assign() {
                    let rhs = self.expression(p)?;
                    let span = lhs.span.start..rhs.span.end;
                    lhs = Expression::new(ExprKind::CompoundAssign { operator, lhs: Box::new(lhs), rhs: Box::new(rhs) }, span);
                    proof {
                        assert(spanned(ts, prev_e, i0, k));
                        assert(*lhs.kind->CompoundAssign_lhs == prev_e);
                        assert(spanned(ts, *lhs.kind->CompoundAssign_lhs, i0, k));
                        assert(spanned(ts, *lhs.kind->CompoundAssign_rhs, k + 1, self.i as int));
                        assert(covers(ts, lhs, i0, self.i as int));
                        assert(parts_spanned(ts, lhs.kind, i0, self.i as int));
                    assert(spanned(ts, lhs, i0, self.i as int));
                    }
                    proof {
                        if self.errors@.len() == e0 {
                            lemma_expr_derives_lower(b, ts, i0, k, prev, top, p + 1);
                            assert(spec_from_token(tk(ts, k)) == Some(operator));
                            assert(expr_derives(b, ts, i0, self.i as int, lhs.kind, p as int));
                        }
                        top = p as int;
                    }
                } else if operator.is_assign() {
                    let rhs = self.expression(p)?;
                    let span = lhs.span.start..rhs.span.end;
                    lhs = Expression::new(ExprKind::Assignment(Box::new(lhs), Box::new(rhs)), span);
                    proof {
                        assert(spanned(ts, prev_e, i0, k));
                        assert(*lhs.kind->Assignment_0 == prev_e);
                        assert(spanned(ts, *lhs.kind->Assignment_0, i0, k));
                        assert(spanned(ts, *lhs.kind->Assignment_1, k + 1, self.i as int));
                        assert(covers(ts, lhs, i0, self.i as int));
                        assert(parts_spanned(ts, lhs.kind, i0, self.i as int));
                    assert(spanned(ts, lhs, i0, self.i as int));
                    }
                    proof {
                        if self.errors@.len() == e0 {
                            lemma_expr_derives_lower(b, ts, i0, k, prev, top, p + 1);
                            assert(tk(ts, k) == Token::Assign);
                            assert(expr_derives(b, ts, i0, self.i as int, lhs.kind, p as int));
                        }
                        top = p as int;
                    }
                } else {
                    let rhs = self.expression(p + 1)?;
                    let span = lhs.span.start..rhs.span.end;
                    lhs = Expression::new(ExprKind::Binary { operator, lhs: Box::new(lhs), rhs: Box::new(rhs) }, span);
                    proof {
                        assert(spanned(ts, prev_e, i0, k));
                        assert(*lhs.kind->Binary_lhs == prev_e);
                        assert(spanned(ts, *lhs.kind->Binary_lhs, i0, k));
                        assert(spanned(ts, *lhs.kind->Binary_rhs, k + 1, self.i as int));
                        assert(covers(ts, lhs, i0, self.i as int));
                        assert(parts_spanned(ts, lhs.kind, i0, self.i as int));
                    assert(spanned(ts, lhs, i0, self.i as int));
                    }
                    proof {
                        if self.errors@.len() == e0 {
                            lemma_expr_derives_lower(b, ts, i0, k, prev, top, p as int);
                            assert(spec_from_token(tk(ts, k)) == Some(operator));
                            assert(expr_derives(b, ts, i0, self.i as int, lhs.kind, p as int));
                        }
                        top = p as int;
                    }
                }
            } else {
                break;
            }
        }
        proof {
            if self.errors@.len() == e0 {
                assert(expr_derives(b, ts, i0, self.i as int, lhs.kind, min));
            }
        }
        Some(lhs)
    }

    /// Parses the comma-separated arguments of a call, up to the closing
    /// parenthesis (not consumed).
    #[verifier::spinoff_prover]
    pub fn arguement_list(&mut self) -> (r: Option<Vec<Expression>>)
        requires
            old(self).wf(),
        ensures
            final(self).wf(),
            advanced(*old(self), *final(self)),
            r matches Some(args) ==> forall|k: int| 0 <= k < args@.len() ==> (#[trigger] args@[k]).ty is Int,
            r matches Some(args) ==> (quiet(*old(self), *final(self)) ==> args_derive(old(self).bytes(), old(self).tokens@,
                old(self).i as int, final(self).i as int, args@)),
            r is None && quiet(*old(self), *final(self)) ==> final(self).i >= final(self).tokens@.len(),
            args_end(old(self).bytes(), old(self).tokens@, old(self).i as int) matches Some(k) ==> r is Some
                && final(self).i == k && final(self).errors == old(self).errors,
            r matches Some(args) ==> args_spanned(old(self).tokens@, args@, old(self).i as int, final(self).i as int),
        decreases old(self).tokens@.len() - old(self).i, 11nat,
    {
        let ghost i0 = self.i as int;
        let ghost b = self.bytes();
        let ghost ts = self.tokens@;
        let ghost e0 = self.errors@.len();
        if self.peek() == Some(Token::CloseParen) {
            return Some(Vec::new());
        }
        let mut args: Vec<Expression> = Vec::new();
        let expr = self.expression(0)?;
        args.push(expr);
        proof {
            if self.errors@.len() == e0 {
                assert(args@.len() == 1);
                assert(args_derive(b, ts, i0, self.i as int, args@));
            }
        }
        while self.peek().is_some() && self.peek() != Some(Token::CloseParen)
            invariant
                self.wf(),
                advanced(*old(self), *self),
                b == self.bytes(),
                ts == self.tokens@,
                e0 == old(self).errors@.len(),
                i0 == old(self).i as int,
                self.i > i0,
                args@.len() > 0,
                forall|k: int| 0 <= k < args@.len() ==> (#[trigger] args@[k]).ty is Int,
                self.errors@.len() == e0 ==> args_derive(b, ts, i0, self.i as int, args@),
                args_spanned(ts, args@, i0, self.i as int),
                args_end(b, ts, i0) is Some ==> more_args_end(b, ts, self.i as int) == args_end(b, ts, i0)
                    && self.errors == old(self).errors,
            decreases self.tokens@.len() - self.i,
        {
            let ghost c = self.i as int;
            let ghost before = args@;
            let ghost ec = self.errors@.len();
            self.consume(Token::Comma)?;
            let ghost c1 = self.i as int;
            let expr = self.expression(0)?;
            let ghost xk = expr.kind;
            let ghost xe = expr;
            args.push(expr);
            proof {
                assert(args@.subrange(0, args@.len() - 1) =~= before);
                assert(args@[args@.len() - 1] == xe);
                assert(tk(ts, c) == Token::Comma);
                assert(args_spanned(ts, args@, i0, self.i as int));
                if self.errors@.len() == e0 {
                    assert(ec == e0);
                    assert(args_derive(b, ts, i0, c, before));
                    assert(expr_derives(b, ts, c1, self.i as int, xk, 0));
                    assert(c1 == c + 1);
                    assert(args@.drop_last() =~= before);
                    assert(args@.last().kind == xk);
                    assert(tk(ts, c) == Token::Comma);
                    assert(args_derive(b, ts, i0, self.i as int, args@));
                }
            }
        }
        Some(args)
    }

    /// Parses a statement.
    #[verifier::spinoff_prover]
    pub fn statement(&mut self) -> (r: Option<Statement>)
        requires
            old(self).wf(),
        ensures
            final(self).wf(),
            advanced(*old(self), *final(self)),
            r matches Some(s) ==> final(self).i > old(self).i
                && s.span.start == old(self).tokens@[old(self).i as int].span.start
                && statement_kind_for(old(self).tok(old(self).i as int), old(self).peek_second(), s.kind),
            r matches Some(s) ==> (quiet(*old(self), *final(self)) ==> stmt_derives(old(self).bytes(), old(self).tokens@,
                old(self).i as int, final(self).i as int, s.kind)),
            r is None && quiet(*old(self), *final(self)) ==> final(self).i >= final(self).tokens@.len(),
            old(self).i < old(self).tokens@.len() && old(self).tok(old(self).i as int) == Token::Semicolon ==>
                r == Some(Statement { kind: StmtKind::Null, span: old(self).tokens@[old(self).i as int].span })
                && final(self).i == old(self).i + 1 && final(self).errors == old(self).errors,
            return_ready(old(self).bytes(), old(self).tokens@, old(self).i as int) ==> (r matches Some(s)
                && return_parsed(old(self).bytes(), old(self).tokens@, old(self).i as int, s))
                && final(self).i == old(self).i + 3 && final(self).errors == old(self).errors,
            case_ready(old(self).bytes(), old(self).tokens@, old(self).i as int) ==> (r matches Some(s)
                && case_parsed(old(self).bytes(), old(self).tokens@, old(self).i as int, s))
                && final(self).i == old(self).i + 4 && final(self).errors == old(self).errors,
            stmt_end(old(self).bytes(), old(self).tokens@, old(self).i as int) matches Some(j) ==> r is Some
                && final(self).i == j && final(self).errors == old(self).errors,
        decreases old(self).tokens@.len() - old(self).i, 16nat,
    {
        let t = self.peek()?;
        let second = self.double_peek();
        match t {
            Token::OpenBrace => self.compound_statement(),
            Token::Ident if second == Some(Token::Colon) => self.labeled_statement(),
            Token::Goto => self.goto_statement(),
            Token::If => self.if_statement(),
            Token::Return => self.return_statement(),
            Token::Semicolon => {
                let span = self.peek_span()?;
                self.next()?;
                Some(Statement::new(StmtKind::Null, span))
            },
            Token::Break => {
                let span = self.peek_span()?;
                self.next()?;
                self.consume(Token::Semicolon)?;
                Some(Statement::new(StmtKind::Break(Identifier::dummy()), span))
            },
            Token::Continue => {
                let span = self.peek_span()?;
                self.next()?;
                self.consume(Token::Semicolon)?;
                Some(Statement::new(StmtKind::Continue(Identifier::dummy()), span))
            },
            Token::While => self.while_statement(),
            Token::Do => self.do_while_statement(),
            Token::For => self.for_statement(),
            Token::Switch => self.switch_statement(),
            Token::Case => self.case_statement(),
            Token::Default => self.default_statement(),
            _ => {
                let expr = self.expression(0)?;
                self.consume(Token::Semicolon)?;
                let span = expr.span.start..expr.span.end;
                Some(Statement::new(StmtKind::Expression(expr), span))
            },
        }
    }

    /// `{ items }`.
    #[verifier::spinoff_prover]
    fn compound_statement(&mut self) -> (r: Option<Statement>)
        requires
            old(self).wf(),
            old(self).i < old(self).tokens@.len(),
            old(self).tok(old(self).i as int) == Token::OpenBrace,
        ensures
            final(self).wf(),
            advanced(*old(self), *final(self)),
            r matches Some(s) ==> final(self).i > old(self).i && s.kind is Compound
                && s.span.start == old(self).tokens@[old(self).i as int].span.start,
            r matches Some(s) ==> (quiet(*old(self), *final(self)) ==> stmt_derives(old(self).bytes(), old(self).tokens@,
                old(self).i as int, final(self).i as int, s.kind)),
            r is None && quiet(*old(self), *final(self)) ==> final(self).i >= final(self).tokens@.len(),
            stmt_end(old(self).bytes(), old(self).tokens@, old(self).i as int) matches Some(j) ==> r is Some
                && final(self).i == j && final(self).errors == old(self).errors,
        decreases old(self).tokens@.len() - old(self).i, 15nat,
    {
        let start = self.peek_span()?;
        let block = self.block()?;
        let span = start.start..self.prev_span()?.end;
        Some(Statement::new(StmtKind::Compound(block), span))
    }

    /// `name: statement`.
    #[verifier::spinoff_prover]
    fn labeled_statement(&mut self) -> (r: Option<Statement>)
        requires
            old(self).wf(),
            old(self).i + 1 < old(self).tokens@.len(),
            old(self).tok(old(self).i as int) == Token::Ident,
            old(self).tok(old(self).i + 1) == Token::Colon,
        ensures
            final(self).wf(),
            advanced(*old(self), *final(self)),
            r matches Some(s) ==> final(self).i > old(self).i && s.kind is Label
                && s.span.start == old(self).tokens@[old(self).i as int].span.start,
            r matches Some(s) ==> (quiet(*old(self), *final(self)) ==> stmt_derives(old(self).bytes(), old(self).tokens@,
                old(self).i as int, final(self).i as int, s.kind)),
            r is None && quiet(*old(self), *final(self)) ==> final(self).i >= final(self).tokens@.len(),
            stmt_end(old(self).bytes(), old(self).tokens@, old(self).i as int) matches Some(j) ==> r is Some
                && final(self).i == j && final(self).errors == old(self).errors,
        decreases old(self).tokens@.len() - old(self).i, 15nat,
    {
        let ghost i0 = self.i as int;
        let ghost b = self.bytes();
        let ghost ts = self.tokens@;
        let id = self.ident()?;
        let name = id.with_suffix(".goto_label").local();
        proof {
            assert(name.0@ =~= local_prefix() + token_name(b, ts, i0) + ".goto_label"@);
        }
        let start = self.prev_span()?;
        self.next()?;
        let stmt = Box::new(self.statement()?);
        let span = start.start..stmt.span.end;
        Some(Statement::new(StmtKind::Label(name, stmt), span))
    }

    /// `goto name;`.
    #[verifier::spinoff_prover]
    fn goto_statement(&mut self) -> (r: Option<Statement>)
        requires
            old(self).wf(),
            old(self).i < old(self).tokens@.len(),
            old(self).tok(old(self).i as int) == Token::Goto,
        ensures
            final(self).wf(),
            advanced(*old(self), *final(self)),
            r matches Some(s) ==> final(self).i > old(self).i && s.kind is Goto
                && s.span.start == old(self).tokens@[old(self).i as int].span.start,
            r matches Some(s) ==> (quiet(*old(self), *final(self)) ==> stmt_derives(old(self).bytes(), old(self).tokens@,
                old(self).i as int, final(self).i as int, s.kind)),
            r is None && quiet(*old(self), *final(self)) ==> final(self).i >= final(self).tokens@.len(),
            r is Some <==> old(self).i + 2 < old(self).tokens@.len() && old(self).tok(old(self).i + 1) == Token::Ident
                && old(self).tok(old(self).i + 2) == Token::Semicolon,
            r is Some ==> final(self).i == old(self).i + 3 && quiet(*old(self), *final(self)),
            r is Some ==> final(self).errors == old(self).errors,
        decreases old(self).tokens@.len() - old(self).i, 15nat,
    {
        let ghost i0 = self.i as int;
        let ghost b = self.bytes();
        let ghost ts = self.tokens@;
        let start = self.peek_span()?;
        self.next()?;
        let id = self.ident()?;
        let name = id.with_suffix(".goto_label").local();
        proof {
            assert(name.0@ =~= local_prefix() + token_name(b, ts, i0 + 1) + ".goto_label"@);
        }
        self.consume(Token::Semicolon)?;
        let span = start.start..self.prev_span()?.end;
        Some(Statement::new(StmtKind::Goto(name), span))
    }

    /// `if (cond) statement`, with an optional `else statement`.
    #[verifier::spinoff_prover]
    fn if_statement(&mut self) -> (r: Option<Statement>)
        requires
            old(self).wf(),
            old(self).i < old(self).tokens@.len(),
            old(self).tok(old(self).i as int) == Token::If,
        ensures
            final(self).wf(),
            advanced(*old(self), *final(self)),
            r matches Some(s) ==> final(self).i > old(self).i && s.kind is If
                && s.span.start == old(self).tokens@[old(self).i as int].span.start,
            r matches Some(s) ==> (quiet(*old(self), *final(self)) ==> stmt_derives(old(self).bytes(), old(self).tokens@,
                old(self).i as int, final(self).i as int, s.kind)),
            r is None && quiet(*old(self), *final(self)) ==> final(self).i >= final(self).tokens@.len(),
            stmt_end(old(self).bytes(), old(self).tokens@, old(self).i as int) matches Some(j) ==> r is Some
                && final(self).i == j && final(self).errors == old(self).errors,
        decreases old(self).tokens@.len() - old(self).i, 15nat,
    {
        let ghost i0 = self.i as int;
        let ghost b = self.bytes();
        let ghost ts = self.tokens@;
        let ghost e0 = self.errors@.len();
        let start = self.peek_span()?;
        self.next()?;
        self.consume(Token::OpenParen)?;
        let cond = self.expression(0)?;
        let ghost k = self.i as int;
        self.consume(Token::CloseParen)?;
        let then = Box::new(self.statement()?);
        let ghost k2 = self.i as int;
        let mut end = then.span.end;
        let mut else_ = None;
        if self.consume_if_present(Token::Else).is_some() {
            let else_stmt = self.statement()?;
            end = else_stmt.span.end;
            else_ = Some(Box::new(else_stmt));
            proof {
                if self.errors@.len() == e0 {
                    assert(tk(ts, k2) == Token::Else);
                }
            }
        }
        let r = Statement::new(StmtKind::If { cond, then, else_ }, start.start..end);
        proof {
            if self.errors@.len() == e0 {
                assert(tk(ts, k) == Token::CloseParen);
                assert(stmt_derives(b, ts, i0, self.i as int, r.kind));
            }
        }
        Some(r)
    }

    /// `return expression;`.
    #[verifier::spinoff_prover]
    fn return_statement(&mut self) -> (r: Option<Statement>)
        requires
            old(self).wf(),
            old(self).i < old(self).tokens@.len(),
            old(self).tok(old(self).i as int) == Token::Return,
        ensures
            final(self).wf(),
            advanced(*old(self), *final(self)),
            r matches Some(s) ==> final(self).i > old(self).i && s.kind is Return
                && s.span.start == old(self).tokens@[old(self).i as int].span.start,
            r matches Some(s) ==> (quiet(*old(self), *final(self)) ==> stmt_derives(old(self).bytes(), old(self).tokens@,
                old(self).i as int, final(self).i as int, s.kind)),
            r is None && quiet(*old(self), *final(self)) ==> final(self).i >= final(self).tokens@.len(),
            return_ready(old(self).bytes(), old(self).tokens@, old(self).i as int) ==> (r matches Some(s)
                && return_parsed(old(self).bytes(), old(self).tokens@, old(self).i as int, s))
                && final(self).i == old(self).i + 3 && final(self).errors == old(self).errors,
            stmt_end(old(self).bytes(), old(self).tokens@, old(self).i as int) matches Some(j) ==> r is Some
                && final(self).i == j && final(self).errors == old(self).errors,
        decreases old(self).tokens@.len() - old(self).i, 15nat,
    {
        let start = self.peek_span()?;
        self.next()?;
        let return_val = self.expression(0)?;
        self.consume(Token::Semicolon)?;
        let span = start.start..self.prev_span()?.end;
        Some(Statement::new(StmtKind::Return(return_val), span))
    }

    /// `while (cond) statement`.
    #[verifier::spinoff_prover]
    fn while_statement(&mut self) -> (r: Option<Statement>)
        requires
            old(self).wf(),
            old(self).i < old(self).tokens@.len(),
            old(self).tok(old(self).i as int) == Token::While,
        ensures
            final(self).wf(),
            advanced(*old(self), *final(self)),
            r matches Some(s) ==> final(self).i > old(self).i && s.kind is While
                && s.span.start == old(self).tokens@[old(self).i as int].span.start,
            r matches Some(s) ==> (quiet(*old(self), *final(self)) ==> stmt_derives(old(self).bytes(), old(self).tokens@,
                old(self).i as int, final(self).i as int, s.kind)),
            r is None && quiet(*old(self), *final(self)) ==> final(self).i >= final(self).tokens@.len(),
            stmt_end(old(self).bytes(), old(self).tokens@, old(self).i as int) matches Some(j) ==> r is Some
                && final(self).i == j && final(self).errors == old(self).errors,
        decreases old(self).tokens@.len() - old(self).i, 15nat,
    {
        let ghost i0 = self.i as int;
        let ghost b = self.bytes();
        let ghost ts = self.tokens@;
        let ghost e0 = self.errors@.len();
        let start = self.peek_span()?;
        self.next()?;
        self.consume(Token::OpenParen)?;
        let cond = self.expression(0)?;
        let ghost k = self.i as int;
        self.consume(Token::CloseParen)?;
        let body = Box::new(self.statement()?);
        let span = start.start..body.span.end;
        let r = Statement::new(StmtKind::While { cond, body, label: Identifier::new("while") }, span);
        proof {
            if self.errors@.len() == e0 {
                assert(tk(ts, k) == Token::CloseParen);
                assert(stmt_derives(b, ts, i0, self.i as int, r.kind));
            }
        }
        Some(r)
    }

    /// `do statement while (cond);`.
    #[verifier::rlimit(60)]
    #[verifier::spinoff_prover]
    fn do_while_statement(&mut self) -> (r: Option<Statement>)
        requires
            old(self).wf(),
            old(self).i < old(self).tokens@.len(),
            old(self).tok(old(self).i as int) == Token::Do,
        ensures
            final(self).wf(),
            advanced(*old(self), *final(self)),
            r matches Some(s) ==> final(self).i > old(self).i && s.kind is DoWhile
                && s.span.start == old(self).tokens@[old(self).i as int].span.start,
            r matches Some(s) ==> (quiet(*old(self), *final(self)) ==> stmt_derives(old(self).bytes(), old(self).tokens@,
                old(self).i as int, final(self).i as int, s.kind)),
            r is None && quiet(*old(self), *final(self)) ==> final(self).i >= final(self).tokens@.len(),
            stmt_end(old(self).bytes(), old(self).tokens@, old(self).i as int) matches Some(j) ==> r is Some
                && final(self).i == j && final(self).errors == old(self).errors,
        decreases old(self).tokens@.len() - old(self).i, 15nat,
    {
        let ghost i0 = self.i as int;
        let ghost b = self.bytes();
        let ghost ts = self.tokens@;
        let ghost e0 = self.errors@.len();
        let start = self.peek_span()?;
        self.next()?;
        let body = Box::new(self.statement()?);
        let ghost k = self.i as int;
        let ghost ea = self.errors@.len();
        self.consume(Token::While)?;
        self.consume(Token::OpenParen)?;
        let cond = self.expression(0)?;
        let ghost m = self.i as int;
        self.consume(Token::CloseParen)?;
        self.consume(Token::Semicolon)?;
        let span = start.start..self.prev_span()?.end;
        let r = Statement::new(StmtKind::DoWhile { body, cond, label: Identifier::new("do_while") }, span);
        proof {
            if self.errors@.len() == e0 {
                assert(ea == e0);
                assert(m + 2 == self.i);
                assert(stmt_derives(b, ts, i0 + 1, k, r.kind->DoWhile_body.kind));
                assert(expr_derives(b, ts, k + 2, m, r.kind->DoWhile_cond.kind, 0));
                assert(tk(ts, k) == Token::While);
                assert(tk(ts, k + 1) == Token::OpenParen);
                assert(stmt_derives(b, ts, i0, self.i as int, r.kind));
            }
        }
        Some(r)
    }

    /// `for (init; condition; post) statement`.
    #[verifier::rlimit(60)]
    #[verifier::spinoff_prover]
    fn for_statement(&mut self) -> (r: Option<Statement>)
        requires
            old(self).wf(),
            old(self).i < old(self).tokens@.len(),
            old(self).tok(old(self).i as int) == Token::For,
        ensures
            final(self).wf(),
            advanced(*old(self), *final(self)),
            r matches Some(s) ==> final(self).i > old(self).i && s.kind is For
                && s.span.start == old(self).tokens@[old(self).i as int].span.start,
            r matches Some(s) ==> (quiet(*old(self), *final(self)) ==> stmt_derives(old(self).bytes(), old(self).tokens@,
                old(self).i as int, final(self).i as int, s.kind)),
            r is None && quiet(*old(self), *final(self)) ==> final(self).i >= final(self).tokens@.len(),
            stmt_end(old(self).bytes(), old(self).tokens@, old(self).i as int) matches Some(j) ==> r is Some
                && final(self).i == j && final(self).errors == old(self).errors,
        decreases old(self).tokens@.len() - old(self).i, 15nat,
    {
        let ghost i0 = self.i as int;
        let ghost b = self.bytes();
        let ghost ts = self.tokens@;
        let ghost e0 = self.errors@.len();
        let start = self.peek_span()?;
        self.next()?;
        self.consume(Token::OpenParen)?;
        let init = self.for_init()?;
        let ghost k1 = self.i as int;
        let ghost ea = self.errors@.len();
        let condition = self.expression_or_nothing();
        let ghost k2 = self.i as int;
        let ghost eb = self.errors@.len();
        self.consume(Token::Semicolon)?;
        let post = self.expression_or_nothing();
        let ghost k3 = self.i as int;
        let ghost ec = self.errors@.len();
        self.consume(Token::CloseParen)?;
        let body = Box::new(self.statement()?);
        let span = start.start..body.span.end;
        let r = Statement::new(
            StmtKind::For { init, condition, post, body, label: Identifier::new("for") },
            span,
        );
        proof {
            if self.errors@.len() == e0 {
                assert(ea == e0 && eb == e0 && ec == e0);
                assert(k2 < ts.len() && tk(ts, k2) == Token::Semicolon);
                assert(k3 < ts.len() && tk(ts, k3) == Token::CloseParen);
                assert(opt_expr_derives(b, ts, k1, k2, r.kind->condition));
                assert(opt_expr_derives(b, ts, k2 + 1, k3, r.kind->post));
                assert(for_init_derives(b, ts, i0 + 2, k1, r.kind->init));
                assert(stmt_derives(b, ts, k3 + 1, self.i as int, r.kind->For_body.kind));
                lemma_for_derives(b, ts, i0, self.i as int, r.kind, k1, k2, k3);
            }
        }
        Some(r)
    }

    /// `switch (value) statement`.
    #[verifier::spinoff_prover]
    fn switch_statement(&mut self) -> (r: Option<Statement>)
        requires
            old(self).wf(),
            old(self).i < old(self).tokens@.len(),
            old(self).tok(old(self).i as int) == Token::Switch,
        ensures
            final(self).wf(),
            advanced(*old(self), *final(self)),
            r matches Some(s) ==> final(self).i > old(self).i && s.kind is Switch
                && s.span.start == old(self).tokens@[old(self).i as int].span.start,
            r matches Some(s) ==> (quiet(*old(self), *final(self)) ==> stmt_derives(old(self).bytes(), old(self).tokens@,
                old(self).i as int, final(self).i as int, s.kind)),
            r is None && quiet(*old(self), *final(self)) ==> final(self).i >= final(self).tokens@.len(),
            stmt_end(old(self).bytes(), old(self).tokens@, old(self).i as int) matches Some(j) ==> r is Some
                && final(self).i == j && final(self).errors == old(self).errors,
        decreases old(self).tokens@.len() - old(self).i, 15nat,
    {
        let ghost i0 = self.i as int;
        let ghost b = self.bytes();
        let ghost ts = self.tokens@;
        let ghost e0 = self.errors@.len();
        let start = self.peek_span()?;
        self.next()?;
        self.consume(Token::OpenParen)?;
        let value = self.expression(0)?;
        let ghost k = self.i as int;
        self.consume(Token::CloseParen)?;
        let body = Box::new(self.statement()?);
        let span = start.start..body.span.end;
        let r = Statement::new(
            StmtKind::Switch(Switch {
                value,
                label: Identifier::new("switch"),
                body,
                case_set: Vec::new(),
                cases: Vec::new(),
                default_case: None,
            }),
            span,
        );
        proof {
            if self.errors@.len() == e0 {
                assert(tk(ts, k) == Token::CloseParen);
                assert(stmt_derives(b, ts, i0, self.i as int, r.kind));
            }
        }
        Some(r)
    }

    /// `case constant: statement`.
    #[verifier::spinoff_prover]
    fn case_statement(&mut self) -> (r: Option<Statement>)
        requires
            old(self).wf(),
            old(self).i < old(self).tokens@.len(),
            old(self).tok(old(self).i as int) == Token::Case,
        ensures
            final(self).wf(),
            advanced(*old(self), *final(self)),
            r matches Some(s) ==> final(self).i > old(self).i && s.kind is Case
                && s.span.start == old(self).tokens@[old(self).i as int].span.start,
            r matches Some(s) ==> (quiet(*old(self), *final(self)) ==> stmt_derives(old(self).bytes(), old(self).tokens@,
                old(self).i as int, final(self).i as int, s.kind)),
            r is None && quiet(*old(self), *final(self)) ==> final(self).i >= final(self).tokens@.len(),
            case_ready(old(self).bytes(), old(self).tokens@, old(self).i as int) ==> (r matches Some(s)
                && case_parsed(old(self).bytes(), old(self).tokens@, old(self).i as int, s))
                && final(self).i == old(self).i + 4 && final(self).errors == old(self).errors,
            stmt_end(old(self).bytes(), old(self).tokens@, old(self).i as int) matches Some(j) ==> r is Some
                && final(self).i == j && final(self).errors == old(self).errors,
        decreases old(self).tokens@.len() - old(self).i, 15nat,
    {
        let start = self.peek_span()?;
        self.next()?;
        if self.peek() != Some(Token::ConstantInt) {
            let found = match self.peek() {
                Some(f) => f,
                None => Token::EndOfInput,
            };
            let span = self.peek_span_or_eof();
            let m = expected_msg(Token::ConstantInt.text(), found);
            self.error(span, m);
            return None;
        }
        self.next()?;
        let value = self.constant()?;
        self.consume(Token::Colon)?;
        let header_end = self.prev_span()?.end;
        let stmt = Box::new(self.statement()?);
        let span = start.start..stmt.span.end;
        Some(Statement::new(
            StmtKind::Case { value, label: Identifier::new("case"), header_span: start.start..header_end, stmt },
            span,
        ))
    }

    /// `default: statement`.
    #[verifier::spinoff_prover]
    fn default_statement(&mut self) -> (r: Option<Statement>)
        requires
            old(self).wf(),
            old(self).i < old(self).tokens@.len(),
            old(self).tok(old(self).i as int) == Token::Default,
        ensures
            final(self).wf(),
            advanced(*old(self), *final(self)),
            r matches Some(s) ==> final(self).i > old(self).i && s.kind is DefaultCase
                && s.span.start == old(self).tokens@[old(self).i as int].span.start,
            r matches Some(s) ==> (quiet(*old(self), *final(self)) ==> stmt_derives(old(self).bytes(), old(self).tokens@,
                old(self).i as int, final(self).i as int, s.kind)),
            r is None && quiet(*old(self), *final(self)) ==> final(self).i >= final(self).tokens@.len(),
            stmt_end(old(self).bytes(), old(self).tokens@, old(self).i as int) matches Some(j) ==> r is Some
                && final(self).i == j && final(self).errors == old(self).errors,
        decreases old(self).tokens@.len() - old(self).i, 15nat,
    {
        let start = self.peek_span()?;
        self.next()?;
        self.consume(Token::Colon)?;
        let header_end = self.prev_span()?.end;
        let stmt = Box::new(self.statement()?);
        let span = start.start..stmt.span.end;
        Some(Statement::new(
            StmtKind::DefaultCase { label: Identifier::new("default_case"), header_span: start.start..header_end, stmt },
            span,
        ))
    }

    /// Parses the first clause of a `for` header, with the semicolon after it.
    #[verifier::spinoff_prover]
    pub fn for_init(&mut self) -> (r: Option<ForInit>)
        requires
            old(self).wf(),
        ensures
            final(self).wf(),
            advanced(*old(self), *final(self)),
            r is Some ==> final(self).i > old(self).i,
            r matches Some(ForInit::Empty) ==> old(self).tok(old(self).i as int) == Token::Semicolon,
            r matches Some(ForInit::Decl(d)) ==> old(self).tok(old(self).i as int) == Token::Int && d.ty is Int,
            r matches Some(ForInit::Expr(_)) ==> old(self).tok(old(self).i as int) != Token::Int
                && old(self).tok(old(self).i as int) != Token::Semicolon,
            r is Some ==> final(self).tok(final(self).i - 1) == Token::Semicolon,
            r matches Some(init) ==> (quiet(*old(self), *final(self)) ==> for_init_derives(old(self).bytes(), old(self).tokens@,
                old(self).i as int, final(self).i as int, init)),
            r is None && quiet(*old(self), *final(self)) ==> final(self).i >= final(self).tokens@.len(),
            old(self).i < old(self).tokens@.len() && old(self).tok(old(self).i as int) == Token::Semicolon ==>
                r == Some(ForInit::Empty) && final(self).i == old(self).i + 1 && final(self).errors == old(self).errors,
            for_init_end(old(self).bytes(), old(self).tokens@, old(self).i as int) matches Some(k) ==> r is Some
                && final(self).i == k && final(self).errors == old(self).errors,
        decreases old(self).tokens@.len() - old(self).i, 13nat,
    {
        if self.peek() == Some(Token::Semicolon) {
            self.next()?;
            return Some(ForInit::Empty);
        }
        if self.peek() == Some(Token::Int) {
            let decl = self.variable_declaration()?;
            return Some(ForInit::Decl(decl));
        }
        let expr = self.expression(0)?;
        self.consume(Token::Semicolon)?;
        Some(ForInit::Expr(expr))
    }

    /// Parses an optional expression, absent before `;` or `)`.
    pub fn expression_or_nothing(&mut self) -> (r: Option<Expression>)
        requires
            old(self).wf(),
        ensures
            final(self).wf(),
            advanced(*old(self), *final(self)),
            old(self).i < old(self).tokens@.len() && (old(self).tok(old(self).i as int) == Token::Semicolon
                || old(self).tok(old(self).i as int) == Token::CloseParen) ==> r is None && *final(self) == *old(self),
            r matches Some(e) ==> final(self).i > old(self).i && covers(old(self).tokens@, e, old(self).i as int, final(self).i as int),
            r is Some && quiet(*old(self), *final(self)) ==> opt_expr_derives(old(self).bytes(), old(self).tokens@,
                old(self).i as int, final(self).i as int, r),
            r is None && quiet(*old(self), *final(self)) ==> final(self).i >= final(self).tokens@.len()
                || (old(self).tok(old(self).i as int) == Token::Semicolon || old(self).tok(old(self).i as int) == Token::CloseParen),
            chain_end(old(self).bytes(), old(self).tokens@, old(self).i as int) matches Some(k) ==> r is Some
                && final(self).i == k && final(self).errors == old(self).errors,
        decreases old(self).tokens@.len() - old(self).i, 11nat,
    {
        proof {
            let i0 = self.i as int;
            if i0 < self.tokens@.len() && (self.tok(i0) == Token::Semicolon || self.tok(i0) == Token::CloseParen) {
                assert(factor_end(self.bytes(), self.tokens@, i0) is None);
            }
        }
        match self.peek()? {
            Token::Semicolon | Token::CloseParen => None,
            _ => self.expression(0),
        }
    }

    /// Parses a braced block.
    #[verifier::spinoff_prover]
    pub fn block(&mut self) -> (r: Option<Block>)
        requires
            old(self).wf(),
        ensures
            final(self).wf(),
            advanced(*old(self), *final(self)),
            r is Some ==> final(self).i > old(self).i && old(self).tok(old(self).i as int) == Token::OpenBrace
                && final(self).tok(final(self).i - 1) == Token::CloseBrace,
            r matches Some(items) ==> (quiet(*old(self), *final(self)) ==> old(self).i + 1 < final(self).i
                && items_derive(old(self).bytes(), old(self).tokens@, old(self).i + 1, final(self).i - 1, items@)),
            r is None && quiet(*old(self), *final(self)) ==> final(self).i >= final(self).tokens@.len(),
            old(self).i < old(self).tokens@.len() && old(self).tok(old(self).i as int) == Token::OpenBrace ==>
                (stmt_end(old(self).bytes(), old(self).tokens@, old(self).i as int) matches Some(j) ==> r is Some
                && final(self).i == j && final(self).errors == old(self).errors),
        decreases old(self).tokens@.len() - old(self).i, 14nat,
    {
        self.consume(Token::OpenBrace)?;
        let statements = self.block_items()?;
        self.consume(Token::CloseBrace)?;
        Some(statements)
    }

    /// Parses block items up to the closing brace (not consumed).
    #[verifier::spinoff_prover]
    pub fn block_items(&mut self) -> (r: Option<Block>)
        requires
            old(self).wf(),
        ensures
            final(self).wf(),
            advanced(*old(self), *final(self)),
            r is Some ==> final(self).i < final(self).tokens@.len() && final(self).tok(final(self).i as int) == Token::CloseBrace,
            r matches Some(items) ==> (quiet(*old(self), *final(self)) ==> items_derive(old(self).bytes(), old(self).tokens@,
                old(self).i as int, final(self).i as int, items@)),
            r is None && quiet(*old(self), *final(self)) ==> final(self).i >= final(self).tokens@.len(),
            items_end(old(self).bytes(), old(self).tokens@, old(self).i as int) matches Some(k) ==> r is Some
                && final(self).i == k && final(self).errors == old(self).errors,
        decreases old(self).tokens@.len() - old(self).i, 20nat,
    {
        let ghost i0 = self.i as int;
        let ghost b = self.bytes();
        let ghost ts = self.tokens@;
        let ghost e0 = self.errors@.len();
        let mut items: Vec<BlockItem> = Vec::new();
        loop
            invariant
                self.wf(),
                advanced(*old(self), *self),
                b == self.bytes(),
                ts == self.tokens@,
                i0 == old(self).i as int,
                e0 == old(self).errors@.len(),
                self.errors@.len() == e0 ==> items_derive(b, ts, i0, self.i as int, items@),
                items_end(b, ts, i0) is Some ==> items_end(b, ts, self.i as int) == items_end(b, ts, i0)
                    && self.errors == old(self).errors,
            ensures
                self.wf(),
                advanced(*old(self), *self),
                self.i < self.tokens@.len() && self.tok(self.i as int) == Token::CloseBrace,
                self.errors@.len() == e0 ==> items_derive(b, ts, i0, self.i as int, items@),
                items_end(b, ts, i0) is Some ==> items_end(b, ts, self.i as int) == items_end(b, ts, i0)
                    && self.errors == old(self).errors,
            decreases self.tokens@.len() - self.i,
        {
            let t = self.peek()?;
            if t == Token::CloseBrace {
                break;
            }
            let ghost k = self.i as int;
            let ghost before = items@;
            let item = self.block_item()?;
            items.push(item);
            proof {
                if items_end(b, ts, i0) is Some {
                    assert(items_end(b, ts, k) == items_end(b, ts, self.i as int));
                }
                if self.errors@.len() == e0 {
                    assert(items@.drop_last() =~= before);
                    assert(items_derive(b, ts, i0, k, items@.drop_last()));
                    assert(item_derives(b, ts, k, self.i as int, items@.last()));
                    assert(tk(ts, k) != Token::CloseBrace);
                    assert(items_derive(b, ts, i0, self.i as int, items@));
                }
            }
        }
        Some(items)
    }

    /// Parses a declaration (when the next token is `int`) or a statement.
    #[verifier::spinoff_prover]
    pub fn block_item(&mut self) -> (r: Option<BlockItem>)
        requires
            old(self).wf(),
        ensures
            final(self).wf(),
            advanced(*old(self), *final(self)),
            r is Some ==> final(self).i > old(self).i,
            r matches Some(BlockItem::Decl(_)) ==> old(self).tok(old(self).i as int) == Token::Int,
            r matches Some(BlockItem::Stmt(_)) ==> old(self).tok(old(self).i as int) != Token::Int,
            r matches Some(item) ==> (quiet(*old(self), *final(self)) ==> item_derives(old(self).bytes(), old(self).tokens@,
                old(self).i as int, final(self).i as int, item)),
            r is None && quiet(*old(self), *final(self)) ==> final(self).i >= final(self).tokens@.len(),
            (if old(self).i < old(self).tokens@.len() && old(self).tok(old(self).i as int) == Token::Int {
                match var_decl_end(old(self).bytes(), old(self).tokens@, old(self).i as int) {
                    Some(k) => Some(k),
                    None => func_end(old(self).bytes(), old(self).tokens@, old(self).i as int),
                }
            } else {
                stmt_end(old(self).bytes(), old(self).tokens@, old(self).i as int)
            }) matches Some(k) ==> r is Some && final(self).i == k && final(self).errors == old(self).errors,
        decreases old(self).tokens@.len() - old(self).i, 19nat,
    {
        if self.peek()? == Token::Int {
            match self.declaration() {
                Some(d) => Some(BlockItem::Decl(d)),
                None => None,
            }
        } else {
            match self.statement() {
                Some(s) => Some(BlockItem::Stmt(s)),
                None => None,
            }
        }
    }

    /// Reports the token `found`, at the position, where a function body or
    /// `;` was expected.
    fn unexpected_function_body(&mut self, found: Token)
        requires
            old(self).wf(),
            old(self).i < old(self).tokens@.len(),
        ensures
            final(self).wf(),
            final(self).source == old(self).source,
            final(self).tokens == old(self).tokens,
            final(self).i == old(self).i,
            final(self).errors@ == old(self).errors@.push(final(self).errors@.last()),
            final(self).errors@.last().span == old(self).tokens@[old(self).i as int].span,
            final(self).errors@.last().message@ == "Unexpected token "@ + token_text(found) + ". Expected function body or ;"@,
    {
        let span = self.tokens[self.i].span.start..self.tokens[self.i].span.end;
        let mut m = string_of("Unexpected token ");
        push_str(&mut m, found.text());
        push_str(&mut m, ". Expected function body or ;");
        self.error(span, m);
    }

    /// Parses a function declaration or definition.
    #[verifier::rlimit(100)]
    #[verifier::spinoff_prover]
    pub fn function_declaration(&mut self) -> (r: Option<FunctionDeclaration>)
        requires
            old(self).wf(),
        ensures
            final(self).wf(),
            advanced(*old(self), *final(self)),
            r matches Some(f) ==> {
                &&& final(self).i > old(self).i
                &&& old(self).tok(old(self).i as int) == Token::Int
                &&& f.span.start == old(self).tokens@[old(self).i as int].span.start
                &&& f.span.end == final(self).tokens@[final(self).i - 1].span.end
                &&& f.storage_class == StorageClass::Unspecified
                &&& f.return_type is Int
                &&& forall|k: int| 0 <= k < f.params@.len() ==> (#[trigger] f.params@[k]).ty is Int
                &&& (f.body is None <==> final(self).tok(final(self).i - 1) == Token::Semicolon)
            },
            r matches Some(f) ==> (quiet(*old(self), *final(self)) ==> func_decl_derives(old(self).bytes(), old(self).tokens@,
                old(self).i as int, final(self).i as int, f)),
            r is None && quiet(*old(self), *final(self)) ==> final(self).i >= final(self).tokens@.len(),
            func_end(old(self).bytes(), old(self).tokens@, old(self).i as int) matches Some(k) ==> r is Some
                && final(self).i == k && final(self).errors == old(self).errors,
        decreases old(self).tokens@.len() - old(self).i, 17nat,
    {
        let ghost i0 = self.i as int;
        let ghost b = self.bytes();
        let ghost ts = self.tokens@;
        let ghost fe = func_end(b, ts, i0);
        let ghost pk = params_end(ts, i0 + 3)->0;
        assert(fe is Some ==> {
            &&& i0 + 2 < ts.len() && tk(ts, i0) == Token::Int && tk(ts, i0 + 1) == Token::Ident
            &&& tk(ts, i0 + 2) == Token::OpenParen
            &&& params_end(ts, i0 + 3) == Some(pk)
            &&& i0 + 3 < pk && pk + 1 < ts.len() && tk(ts, pk) == Token::CloseParen
            &&& (tk(ts, pk + 1) == Token::Semicolon && fe == Some(pk + 2))
                || (tk(ts, pk + 1) == Token::OpenBrace && fe == stmt_end(b, ts, pk + 1))
        }) by {
            reveal(func_end);
        }
        let start = self.peek_span()?;
        self.consume_with_custom_expected_message(Token::Int, "function declaration")?;
        let name_span = self.peek_span()?;
        let name = self.ident()?;
        proof {
            assert(names_token(b, ts, i0 + 1, name));
        }
        self.consume(Token::OpenParen)?;
        let args = self.param_list()?;
        let ghost k = self.i as int;
        self.consume(Token::CloseParen)?;
        proof {
            assert(tk(ts, k) == Token::CloseParen);
        }
        let block = match self.peek()? {
            Token::OpenBrace => Some(self.block()?),
            Token::Semicolon => {
                self.next()?;
                None
            },
            found => {
                self.unexpected_function_body(found);
                return None;
            },
        };
        let span = start.start..self.prev_span()?.end;
        Some(FunctionDeclaration {
            name,
            params: args,
            body: block,
            span,
            name_span,
            storage_class: StorageClass::Unspecified,
            return_type: Type::Int,
        })
    }

    /// Parses `int name;` or `int name = expression;`.
    #[verifier::spinoff_prover]
    pub fn variable_declaration(&mut self) -> (r: Option<VariableDeclaration>)
        requires
            old(self).wf(),
        ensures
            final(self).wf(),
            advanced(*old(self), *final(self)),
            r matches Some(d) ==> {
                &&& final(self).i > old(self).i
                &&& old(self).tok(old(self).i as int) == Token::Int
                &&& d.span.start == old(self).tokens@[old(self).i as int].span.start
                &&& d.span.end == final(self).tokens@[final(self).i - 1].span.end
                &&& final(self).tok(final(self).i - 1) == Token::Semicolon
                &&& d.storage_class == StorageClass::Unspecified
                &&& d.ty is Int
            },
            r matches Some(d) ==> (quiet(*old(self), *final(self)) ==> var_decl_derives(old(self).bytes(), old(self).tokens@,
                old(self).i as int, final(self).i as int, d)),
            r is None && quiet(*old(self), *final(self)) ==> final(self).i >= final(self).tokens@.len(),
            var_decl_end(old(self).bytes(), old(self).tokens@, old(self).i as int) matches Some(k) ==> r is Some
                && final(self).i == k && final(self).errors == old(self).errors,
        decreases old(self).tokens@.len() - old(self).i, 12nat,
    {
        let ghost i0 = self.i as int;
        let start = self.peek_span()?;
        self.consume(Token::Int)?;
        let name = self.ident()?;
        proof {
            assert(names_token(self.bytes(), self.tokens@, i0 + 1, name));
        }
        let mut init = None;
        if self.consume_if_present(Token::Assign).is_some() {
            init = Some(self.expression(0)?);
        }
        self.consume(Token::Semicolon)?;
        let span = start.start..self.prev_span()?.end;
        Some(VariableDeclaration { name, init, span, storage_class: StorageClass::Unspecified, ty: Type::Int })
    }

    /// Parses a declaration: a variable when `=` or `;` follows the name, a
    /// function when `(` does.
    #[verifier::spinoff_prover]
    pub fn declaration(&mut self) -> (r: Option<Declaration>)
        requires
            old(self).wf(),
        ensures
            final(self).wf(),
            advanced(*old(self), *final(self)),
            r is Some ==> final(self).i > old(self).i && old(self).tok(old(self).i as int) == Token::Int,
            r matches Some(Declaration::Var(_)) ==> old(self).i + 2 < old(self).tokens@.len()
                && (old(self).tok(old(self).i + 2) == Token::Assign || old(self).tok(old(self).i + 2) == Token::Semicolon),
            r matches Some(Declaration::Func(_)) ==> old(self).i + 2 < old(self).tokens@.len()
                && old(self).tok(old(self).i + 2) == Token::OpenParen,
            r matches Some(d) ==> (quiet(*old(self), *final(self)) ==> decl_derives(old(self).bytes(), old(self).tokens@,
                old(self).i as int, final(self).i as int, d)),
            r is None && quiet(*old(self), *final(self)) ==> final(self).i >= final(self).tokens@.len(),
            var_decl_end(old(self).bytes(), old(self).tokens@, old(self).i as int) matches Some(k) ==>
                (r matches Some(Declaration::Var(_))) && final(self).i == k && final(self).errors == old(self).errors,
            var_decl_end(old(self).bytes(), old(self).tokens@, old(self).i as int) is None ==>
                (func_end(old(self).bytes(), old(self).tokens@, old(self).i as int) matches Some(k) ==>
                (r matches Some(Declaration::Func(_))) && final(self).i == k && final(self).errors == old(self).errors),
        decreases old(self).tokens@.len() - old(self).i, 18nat,
    {
        proof {
            let b = self.bytes();
            let ts = self.tokens@;
            let i0 = self.i as int;
            assert(func_end(b, ts, i0) is Some ==> i0 + 2 < ts.len() && tk(ts, i0) == Token::Int
                && tk(ts, i0 + 1) == Token::Ident && tk(ts, i0 + 2) == Token::OpenParen) by {
                reveal(func_end);
            }
        }
        let start = self.i;
        self.consume(Token::Int)?;
        self.consume(Token::Ident)?;
        match self.peek()? {
            Token::Assign | Token::Semicolon => {
                self.i = start;
                match self.variable_declaration() {
                    Some(d) => Some(Declaration::Var(d)),
                    None => None,
                }
            },
            Token::OpenParen => {
                self.i = start;
                match self.function_declaration() {
                    Some(f) => Some(Declaration::Func(f)),
                    None => None,
                }
            },
            found => {
                let span = self.peek_span_or_eof();
                let m = if found == Token::EndOfInput {
                    string_of("expected '=', ';' or '(' but reached end of input")
                } else {
                    let mut m = string_of("expected = or ( but found '");
                    push_str(&mut m, found.text());
                    push_str(&mut m, "'");
                    m
                };
                self.error(span, m);
                None
            },
        }
    }

    /// Parses one `int name` parameter.
    fn parameter(&mut self, args: &mut Vec<FunctionParameter>) -> (r: Option<()>)
        requires
            old(self).wf(),
        ensures
            final(self).wf(),
            advanced(*old(self), *final(self)),
            r is Some ==> final(self).i > old(self).i && final(args)@ == old(args)@.push(final(args)@.last())
                && final(args)@.last().ty is Int,
            r is Some ==> final(self).i == old(self).i + 2
                && param_derives(old(self).bytes(), old(self).tokens@, old(self).i as int, final(args)@.last()),
            r is None ==> final(args)@ == old(args)@,
            r is None && quiet(*old(self), *final(self)) ==> final(self).i >= final(self).tokens@.len(),
            r is Some <==> old(self).i + 1 < old(self).tokens@.len() && old(self).tok(old(self).i as int) == Token::Int
                && old(self).tok(old(self).i + 1) == Token::Ident,
            r is Some ==> quiet(*old(self), *final(self)),
            r is Some ==> final(self).errors == old(self).errors,
    {
        self.consume(Token::Int)?;
        let span = self.peek_span()?;
        let name = self.ident()?;
        args.push(FunctionParameter { span, name, ty: Type::Int });
        Some(())
    }

    /// Parses a parameter list: `void`, or `int` names separated by commas.
    #[verifier::spinoff_prover]
    pub fn param_list(&mut self) -> (r: Option<Vec<FunctionParameter>>)
        requires
            old(self).wf(),
        ensures
            final(self).wf(),
            advanced(*old(self), *final(self)),
            r matches Some(ps) ==> final(self).i > old(self).i && forall|k: int| 0 <= k < ps@.len() ==> (#[trigger] ps@[k]).ty is Int,
            r matches Some(ps) ==> (ps@.len() == 0 <==> old(self).tok(old(self).i as int) == Token::Void),
            r matches Some(ps) ==> params_derive(old(self).bytes(), old(self).tokens@, old(self).i as int, final(self).i as int, ps@),
            r is None && quiet(*old(self), *final(self)) ==> final(self).i >= final(self).tokens@.len(),
            params_end(old(self).tokens@, old(self).i as int) matches Some(k) ==> r is Some
                && final(self).i == k && final(self).errors == old(self).errors,
    {
        let ghost i0 = self.i as int;
        let ghost b = self.bytes();
        let ghost ts = self.tokens@;
        if self.peek()? == Token::Void {
            self.next()?;
            Some(Vec::new())
        } else {
            let mut args: Vec<FunctionParameter> = Vec::new();
            self.parameter(&mut args)?;
            proof {
                assert(args@.len() == 1);
                assert(params_derive(b, ts, i0, self.i as int, args@));
            }
            while self.peek().is_some() && self.peek() != Some(Token::CloseParen)
                invariant
                    self.wf(),
                    advanced(*old(self), *self),
                    self.i > old(self).i,
                    args@.len() > 0,
                    forall|k: int| 0 <= k < args@.len() ==> (#[trigger] args@[k]).ty is Int,
                    b == self.bytes(),
                    ts == self.tokens@,
                    i0 == old(self).i as int,
                    params_derive(b, ts, i0, self.i as int, args@),
                    params_end(ts, i0) is Some ==> more_params_end(ts, self.i as int) == params_end(ts, i0)
                        && self.errors == old(self).errors,
                decreases self.tokens@.len() - self.i,
            {
                let ghost before = args@;
                self.consume(Token::Comma)?;
                self.parameter(&mut args)?;
                proof {
                    assert(args@.drop_last() =~= before);
                    assert(params_derive(b, ts, i0, self.i as int, args@));
                }
            }
            Some(args)
        }
    }

    /// Parses function declarations up to the end of input.
    #[verifier::spinoff_prover]
    pub fn parse(&mut self) -> (r: Option<Program>)
        requires
            old(self).wf(),
        ensures
            final(self).wf(),
            advanced(*old(self), *final(self)),
            r matches Some(p) ==> {
                &&& forall|k: int| 0 <= k < p.0@.len() ==> (#[trigger] p.0@[k]) is Func
                &&& (final(self).i >= final(self).tokens@.len() || final(self).tok(final(self).i as int) == Token::EndOfInput)
            },
            r matches Some(p) ==> (quiet(*old(self), *final(self)) ==> decls_derive(old(self).bytes(), old(self).tokens@,
                old(self).i as int, final(self).i as int, p.0@)),
            r is None && quiet(*old(self), *final(self)) ==> final(self).i >= final(self).tokens@.len(),
            old(self).i < old(self).tokens@.len() && old(self).tok(old(self).i as int) == Token::EndOfInput ==>
                (r matches Some(p) && p.0@.len() == 0) && final(self).i == old(self).i && final(self).errors == old(self).errors,
            program_parses(old(self).bytes(), old(self).tokens@, old(self).i as int) ==> r is Some
                && final(self).errors == old(self).errors,
    {
        let ghost i0 = self.i as int;
        let ghost b = self.bytes();
        let ghost ts = self.tokens@;
        let ghost e0 = self.errors@.len();
        let mut functions: Vec<Declaration> = Vec::new();
        let ghost empty = i0 < ts.len() && tk(ts, i0) == Token::EndOfInput;
        loop
            invariant
                self.wf(),
                advanced(*old(self), *self),
                forall|k: int| 0 <= k < functions@.len() ==> (#[trigger] functions@[k]) is Func,
                b == self.bytes(),
                ts == self.tokens@,
                i0 == old(self).i as int,
                e0 == old(self).errors@.len(),
                self.errors@.len() == e0 ==> decls_derive(b, ts, i0, self.i as int, functions@),
                empty == (i0 < ts.len() && tk(ts, i0) == Token::EndOfInput),
                empty ==> self.i == i0 && functions@.len() == 0 && self.errors == old(self).errors,
                program_parses(b, ts, i0) ==> program_parses(b, ts, self.i as int) && self.errors == old(self).errors,
            ensures
                self.wf(),
                advanced(*old(self), *self),
                forall|k: int| 0 <= k < functions@.len() ==> (#[trigger] functions@[k]) is Func,
                self.i >= self.tokens@.len() || self.tok(self.i as int) == Token::EndOfInput,
                self.errors@.len() == e0 ==> decls_derive(b, ts, i0, self.i as int, functions@),
                empty ==> self.i == i0 && functions@.len() == 0 && self.errors == old(self).errors,
                program_parses(b, ts, i0) ==> self.errors == old(self).errors,
            decreases self.tokens@.len() - self.i,
        {
            match self.peek() {
                Some(t) => {
                    if t == Token::EndOfInput {
                        break;
                    }
                },
                None => break,
            }
            let ghost k = self.i as int;
            let ghost before = functions@;
            let f = self.function_declaration()?;
            functions.push(Declaration::Func(f));
            proof {
                if self.errors@.len() == e0 {
                    assert(functions@.drop_last() =~= before);
                    assert(tk(ts, k) == tk(ts, k));
                    assert(decls_derive(b, ts, i0, self.i as int, functions@));
                }
            }
        }
        Some(Program(functions))
    }

    /// The token after the next one, when there is one.
    pub open spec fn peek_second(&self) -> Option<Token> {
        if self.i + 1 < self.tokens@.len() { Some(self.tok(self.i + 1)) } else { None }
    }
}

/// Whether a statement's kind is the one its first tokens announce.
pub open spec fn statement_kind_for(first: Token, second: Option<Token>, kind: StmtKind) -> bool {
    match first {
        Token::OpenBrace => kind is Compound,
        Token::Goto => kind is Goto,
        Token::If => kind is If,
        Token::Return => kind is Return,
        Token::Semicolon => kind is Null,
        Token::Break => kind is Break,
        Token::Continue => kind is Continue,
        Token::While => kind is While,
        Token::Do => kind is DoWhile,
        Token::For => kind is For,
        Token::Switch => kind is Switch,
        Token::Case => kind is Case,
        Token::Default => kind is DefaultCase,
        Token::Ident => if second == Some(Token::Colon) { kind is Label } else { kind is Expression },
        _ => kind is Expression,
    }
}

/// The tokens that the lexer returns meet what the parser asks of its input.
pub proof fn lemma_lexed_tokens_wf(b: Seq<u8>, ts: Seq<SpannedToken>)
    requires
        token_triples(ts) == lex_tokens(b, 0).push((Token::EndOfInput, b.len() as int, b.len() as int)),
    ensures
        tokens_wf(b, ts),
{
    lemma_lex_tokens_wf(b, 0);
    let lt = lex_tokens(b, 0);
    let eoi = (Token::EndOfInput, b.len() as int, b.len() as int);
    assert forall|k: int| 0 <= k < ts.len() implies token_wf(b, #[trigger] ts[k]) by {
        assert(token_triples(ts).len() == ts.len());
        assert(token_triples(ts)[k] == (ts[k].token, ts[k].span.start as int, ts[k].span.end as int));
        if k < lt.len() {
            assert(lt.push(eoi)[k] == lt[k]);
            assert(lexed_token_wf(b, lt[k]));
        } else {
            assert(lt.push(eoi)[k] == eoi);
        }
    }
}

/// Parses a token list into a program; all errors found are returned.
#[verifier::rlimit(30)]
#[verifier::spinoff_prover]
pub fn parse(source: String, tokens: Vec<SpannedToken>) -> (r: Result<Program, Vec<Diagnostic>>)
    requires
        tokens_wf(vstd::utf8::encode_utf8(source@), tokens@),
        vstd::utf8::encode_utf8(source@).len() < usize::MAX,
    ensures
        r matches Ok(p) ==> forall|k: int| 0 <= k < p.0@.len() ==> (#[trigger] p.0@[k]) is Func,
        r matches Ok(p) ==> program_derives(vstd::utf8::encode_utf8(source@), tokens@, p.0@),
        r matches Ok(p) ==> crate::analysis::readiness::program_every(p.0@, crate::analysis::readiness::placed()),
        r matches Err(es) ==> es@.len() > 0 && forall|k: int| 0 <= k < es@.len() ==> (#[trigger] es@[k]).stage == Stage::Parse,
        tokens@.len() > 0 && tokens@[0].token == Token::EndOfInput ==> (r matches Ok(p) && p.0@.len() == 0),
        program_parses(vstd::utf8::encode_utf8(source@), tokens@, 0) ==> r is Ok,
{
    let mut parser = Parser::new(source, tokens);
    let program = parser.parse();
    match program {
        Some(program) => {
            if parser.errors.len() == 0 {
                proof {
                    let k = parser.i as int;
                    assert(parser.tokens@ == tokens@);
                    assert(parser.bytes() == vstd::utf8::encode_utf8(source@));
                    assert(decls_derive(parser.bytes(), tokens@, 0, k, program.0@));
                    assert(k == tokens@.len() || tk(tokens@, k) == Token::EndOfInput);
                    assert(program_derives(vstd::utf8::encode_utf8(source@), tokens@, program.0@));
                    crate::analysis::readiness::lemma_parsed_operators_placed(
                        vstd::utf8::encode_utf8(source@), tokens@, program.0@);
                }
                return Ok(program);
            }
        },
        None => {},
    }
    if parser.errors.len() == 0 {
        let span = parser.eof_span();
        parser.errors.push(Diagnostic::new(Stage::Parse, span, string_of("unexpected end of input")));
    }
    Err(parser.errors)
}

/// Lexes a source text and parses its tokens: the lexical errors, if there
/// are any, or what `parse` gives. (A source as long as the address space
/// cannot exist; it is refused as too large.)
pub fn lex_and_parse(source: String) -> (r: Result<Program, Vec<Diagnostic>>)
    ensures
        lex_errors(vstd::utf8::encode_utf8(source@), 0).len() > 0 ==> r is Err,
        r matches Ok(p) ==> exists|ts: Seq<SpannedToken>| {
            &&& token_triples(ts) == lex_tokens(vstd::utf8::encode_utf8(source@), 0).push((Token::EndOfInput,
                vstd::utf8::encode_utf8(source@).len() as int, vstd::utf8::encode_utf8(source@).len() as int))
            &&& #[trigger] program_derives(vstd::utf8::encode_utf8(source@), ts, p.0@)
        },
        r matches Ok(p) ==> forall|k: int| 0 <= k < p.0@.len() ==> (#[trigger] p.0@[k]) is Func,
        r matches Err(es) ==> es@.len() > 0,
        lex_errors(vstd::utf8::encode_utf8(source@), 0).len() == 0 && vstd::utf8::encode_utf8(source@).len() < usize::MAX
            && (forall|ts: Seq<SpannedToken>| token_triples(ts) == lex_tokens(vstd::utf8::encode_utf8(source@), 0).push((
                Token::EndOfInput, vstd::utf8::encode_utf8(source@).len() as int, vstd::utf8::encode_utf8(source@).len() as int))
                ==> #[trigger] program_parses(vstd::utf8::encode_utf8(source@), ts, 0)) ==> r is Ok,
{
    let tokens = lex(source.as_str())?;
    if source.as_str().as_bytes().len() == usize::MAX {
        return Err(vec![Diagnostic::new(Stage::Lex, 0..0, string_of("source too large"))]);
    }
    proof {
        lemma_lexed_tokens_wf(vstd::utf8::encode_utf8(source@), tokens@);
    }
    let ghost ts = tokens@;
    let r = parse(source, tokens);
    proof {
        if r is Ok {
            assert(program_derives(vstd::utf8::encode_utf8(source@), ts, r->Ok_0.0@));
        }
    }
    r
}

} // verus!
