//! The lexer: turns source bytes into tokens, longest match first.
use vstd::prelude::*;
use vstd::string::StringSliceAdditionalSpecFns;
use crate::diagnostics::{Diagnostic, Span, Stage, is_continuation};
use crate::parser::Specifier;
use crate::text::{escape_debug, push_string, push_str, spec_escape_debug, char_from_u32, string_of};

verus! {

/// The kinds of token of the language.
#[derive(Debug, PartialEq, Eq, Copy, Clone, Structural)]
pub enum Token {
    Ident,
    ConstantInt,
    Int,
    Void,
    Return,
    OpenParen,
    CloseParen,
    OpenBrace,
    CloseBrace,
    Semicolon,
    Tilde,
    Hyphen,
    Plus,
    Asterisk,
    Slash,
    Percent,
    Ampersand,
    Caret,
    Pipe,
    LeftShift,
    RightShift,
    Not,
    LogicalAnd,
    LogicalOr,
    Equal,
    NotEqual,
    LessThan,
    LessEqual,
    GreaterThan,
    GreaterEqual,
    Assign,
    AddAssign,
    SubtractAssign,
    MultiplyAssign,
    DivideAssign,
    RemainderAssign,
    BitwiseAndAssign,
    BitwiseXorAssign,
    BitwiseOrAssign,
    RightShiftAssign,
    LeftShiftAssign,
    Increment,
    Decrement,
    If,
    Else,
    QuestionMark,
    Colon,
    Goto,
    Do,
    While,
    For,
    Switch,
    Case,
    Default,
    Break,
    Continue,
    Comma,
    Static,
    Extern,
    EndOfInput,
}

/// How a token is named in messages.
pub open spec fn token_text(t: Token) -> Seq<char> {
    match t {
        Token::Ident => "identifier"@,
        Token::ConstantInt => "constant"@,
        Token::Int => "int"@,
        Token::Void => "void"@,
        Token::Return => "return"@,
        Token::OpenParen => "("@,
        Token::CloseParen => ")"@,
        Token::OpenBrace => "{"@,
        Token::CloseBrace => "}"@,
        Token::Semicolon => ";"@,
        Token::Tilde => "~"@,
        Token::Hyphen => "-"@,
        Token::Plus => "+"@,
        Token::Asterisk => "*"@,
        Token::Slash => "/"@,
        Token::Percent => "%"@,
        Token::Ampersand => "&"@,
        Token::Caret => "^"@,
        Token::Pipe => "|"@,
        Token::LeftShift => "<<"@,
        Token::RightShift => ">>"@,
        Token::Not => "!"@,
        Token::LogicalAnd => "&&"@,
        Token::LogicalOr => "||"@,
        Token::Equal => "=="@,
        Token::NotEqual => "!="@,
        Token::LessThan => "<"@,
        Token::LessEqual => "<="@,
        Token::GreaterThan => ">"@,
        Token::GreaterEqual => ">="@,
        Token::Assign => "="@,
        Token::AddAssign => "+="@,
        Token::SubtractAssign => "-="@,
        Token::MultiplyAssign => "*="@,
        Token::DivideAssign => "/="@,
        Token::RemainderAssign => "%="@,
        Token::BitwiseAndAssign => "&="@,
        Token::BitwiseXorAssign => "^="@,
        Token::BitwiseOrAssign => "|="@,
        Token::RightShiftAssign => ">>="@,
        Token::LeftShiftAssign => "<<="@,
        Token::Increment => "++"@,
        Token::Decrement => "--"@,
        Token::If => "if"@,
        Token::Else => "else"@,
        Token::QuestionMark => "?"@,
        Token::Colon => ":"@,
        Token::Goto => "goto"@,
        Token::Do => "do"@,
        Token::While => "while"@,
        Token::For => "for"@,
        Token::Switch => "switch"@,
        Token::Case => "case"@,
        Token::Default => "default"@,
        Token::Break => "break"@,
        Token::Continue => "continue"@,
        Token::Comma => ","@,
        Token::Static => "static"@,
        Token::Extern => "extern"@,
        Token::EndOfInput => "end of input"@,
    }
}

impl Token {
    /// How the token is named in messages.
    pub fn text(self) -> (s: &'static str)
        ensures
            s@ == token_text(self),
    {
        match self {
            Token::Ident => "identifier",
            Token::ConstantInt => "constant",
            Token::Int => "int",
            Token::Void => "void",
            Token::Return => "return",
            Token::OpenParen => "(",
            Token::CloseParen => ")",
            Token::OpenBrace => "{",
            Token::CloseBrace => "}",
            Token::Semicolon => ";",
            Token::Tilde => "~",
            Token::Hyphen => "-",
            Token::Plus => "+",
            Token::Asterisk => "*",
            Token::Slash => "/",
            Token::Percent => "%",
            Token::Ampersand => "&",
            Token::Caret => "^",
            Token::Pipe => "|",
            Token::LeftShift => "<<",
            Token::RightShift => ">>",
            Token::Not => "!",
            Token::LogicalAnd => "&&",
            Token::LogicalOr => "||",
            Token::Equal => "==",
            Token::NotEqual => "!=",
            Token::LessThan => "<",
            Token::LessEqual => "<=",
            Token::GreaterThan => ">",
            Token::GreaterEqual => ">=",
            Token::Assign => "=",
            Token::AddAssign => "+=",
            Token::SubtractAssign => "-=",
            Token::MultiplyAssign => "*=",
            Token::DivideAssign => "/=",
            Token::RemainderAssign => "%=",
            Token::BitwiseAndAssign => "&=",
            Token::BitwiseXorAssign => "^=",
            Token::BitwiseOrAssign => "|=",
            Token::RightShiftAssign => ">>=",
            Token::LeftShiftAssign => "<<=",
            Token::Increment => "++",
            Token::Decrement => "--",
            Token::If => "if",
            Token::Else => "else",
            Token::QuestionMark => "?",
            Token::Colon => ":",
            Token::Goto => "goto",
            Token::Do => "do",
            Token::While => "while",
            Token::For => "for",
            Token::Switch => "switch",
            Token::Case => "case",
            Token::Default => "default",
            Token::Break => "break",
            Token::Continue => "continue",
            Token::Comma => ",",
            Token::Static => "static",
            Token::Extern => "extern",
            Token::EndOfInput => "end of input",
        }
    }

    pub fn is_specifier(self) -> (r: bool)
        ensures
            r == (self == Token::Int || self == Token::Static || self == Token::Extern),
    {
        self == Token::Int || self == Token::Static || self == Token::Extern
    }

    pub fn specifier(self) -> (r: Option<Specifier>)
        ensures
            r == spec_specifier(self),
    {
        match self {
            Token::Int => Some(Specifier::Int),
            Token::Static => Some(Specifier::Static),
            Token::Extern => Some(Specifier::Extern),
            _ => None,
        }
    }
}

/// The declaration specifier that a token stands for, if any.
pub open spec fn spec_specifier(t: Token) -> Option<Specifier> {
    match t {
        Token::Int => Some(Specifier::Int),
        Token::Static => Some(Specifier::Static),
        Token::Extern => Some(Specifier::Extern),
        _ => None,
    }
}

/// A token is a specifier exactly when it stands for one.
pub proof fn lemma_specifier_agrees(t: Token)
    ensures
        (t == Token::Int || t == Token::Static || t == Token::Extern) <==> spec_specifier(t) is Some,
{
}

/// A token with the byte range of the source that it was read from.
#[derive(Debug)]
pub struct SpannedToken {
    pub token: Token,
    pub span: Span,
}

/// Bytes skipped between tokens: space, tab, carriage return, newline.
pub open spec fn is_space(c: u8) -> bool {
    c == 32 || c == 9 || c == 13 || c == 10
}

pub open spec fn is_digit(c: u8) -> bool {
    48 <= c <= 57
}

/// `[a-zA-Z_]`
pub open spec fn is_ident_start(c: u8) -> bool {
    (65 <= c <= 90) || (97 <= c <= 122) || c == 95
}

/// `[a-zA-Z0-9_]`
pub open spec fn is_ident_char(c: u8) -> bool {
    is_ident_start(c) || is_digit(c)
}

/// The end of the run of spaces from `i` on.
pub open spec fn space_end(b: Seq<u8>, i: int) -> int
    decreases b.len() - i,
{
    if 0 <= i < b.len() && is_space(b[i]) {
        space_end(b, i + 1)
    } else {
        i
    }
}

/// The end of the run of identifier characters from `i` on.
pub open spec fn ident_end(b: Seq<u8>, i: int) -> int
    decreases b.len() - i,
{
    if 0 <= i < b.len() && is_ident_char(b[i]) {
        ident_end(b, i + 1)
    } else {
        i
    }
}

/// The end of the run of digits from `i` on.
pub open spec fn digits_end(b: Seq<u8>, i: int) -> int
    decreases b.len() - i,
{
    if 0 <= i < b.len() && is_digit(b[i]) {
        digits_end(b, i + 1)
    } else {
        i
    }
}

/// The end of the character that starts at `i - 1` (skipping continuation bytes from `i`).
pub open spec fn char_end(b: Seq<u8>, i: int) -> int
    decreases b.len() - i,
{
    if 0 <= i < b.len() && is_continuation(b[i]) {
        char_end(b, i + 1)
    } else {
        i
    }
}

/// The keyword spelled by `b[s..e]`, if any.
pub open spec fn keyword(b: Seq<u8>, s: int, e: int) -> Option<Token> {
    if e - s == 3 && b[s + 0] == 105 && b[s + 1] == 110 && b[s + 2] == 116 {
        Some(Token::Int)
    } else if e - s == 4 && b[s + 0] == 118 && b[s + 1] == 111 && b[s + 2] == 105 && b[s + 3] == 100 {
        Some(Token::Void)
    } else if e - s == 6 && b[s + 0] == 114 && b[s + 1] == 101 && b[s + 2] == 116 && b[s + 3] == 117 && b[s + 4] == 114 && b[s + 5] == 110 {
        Some(Token::Return)
    } else if e - s == 2 && b[s + 0] == 105 && b[s + 1] == 102 {
        Some(Token::If)
    } else if e - s == 4 && b[s + 0] == 101 && b[s + 1] == 108 && b[s + 2] == 115 && b[s + 3] == 101 {
        Some(Token::Else)
    } else if e - s == 4 && b[s + 0] == 103 && b[s + 1] == 111 && b[s + 2] == 116 && b[s + 3] == 111 {
        Some(Token::Goto)
    } else if e - s == 2 && b[s + 0] == 100 && b[s + 1] == 111 {
        Some(Token::Do)
    } else if e - s == 5 && b[s + 0] == 119 && b[s + 1] == 104 && b[s + 2] == 105 && b[s + 3] == 108 && b[s + 4] == 101 {
        Some(Token::While)
    } else if e - s == 3 && b[s + 0] == 102 && b[s + 1] == 111 && b[s + 2] == 114 {
        Some(Token::For)
    } else if e - s == 6 && b[s + 0] == 115 && b[s + 1] == 119 && b[s + 2] == 105 && b[s + 3] == 116 && b[s + 4] == 99 && b[s + 5] == 104 {
        Some(Token::Switch)
    } else if e - s == 4 && b[s + 0] == 99 && b[s + 1] == 97 && b[s + 2] == 115 && b[s + 3] == 101 {
        Some(Token::Case)
    } else if e - s == 7 && b[s + 0] == 100 && b[s + 1] == 101 && b[s + 2] == 102 && b[s + 3] == 97 && b[s + 4] == 117 && b[s + 5] == 108 && b[s + 6] == 116 {
        Some(Token::Default)
    } else if e - s == 5 && b[s + 0] == 98 && b[s + 1] == 114 && b[s + 2] == 101 && b[s + 3] == 97 && b[s + 4] == 107 {
        Some(Token::Break)
    } else if e - s == 8 && b[s + 0] == 99 && b[s + 1] == 111 && b[s + 2] == 110 && b[s + 3] == 116 && b[s + 4] == 105 && b[s + 5] == 110 && b[s + 6] == 117 && b[s + 7] == 101 {
        Some(Token::Continue)
    } else if e - s == 6 && b[s + 0] == 115 && b[s + 1] == 116 && b[s + 2] == 97 && b[s + 3] == 116 && b[s + 4] == 105 && b[s + 5] == 99 {
        Some(Token::Static)
    } else if e - s == 6 && b[s + 0] == 101 && b[s + 1] == 120 && b[s + 2] == 116 && b[s + 3] == 101 && b[s + 4] == 114 && b[s + 5] == 110 {
        Some(Token::Extern)
    } else {
        None
    }
}

/// One-byte operators and punctuation.
pub open spec fn punct1(c0: u8) -> Option<Token> {
    if c0 == 40 { Some(Token::OpenParen) } else
    if c0 == 41 { Some(Token::CloseParen) } else
    if c0 == 123 { Some(Token::OpenBrace) } else
    if c0 == 125 { Some(Token::CloseBrace) } else
    if c0 == 59 { Some(Token::Semicolon) } else
    if c0 == 126 { Some(Token::Tilde) } else
    if c0 == 45 { Some(Token::Hyphen) } else
    if c0 == 43 { Some(Token::Plus) } else
    if c0 == 42 { Some(Token::Asterisk) } else
    if c0 == 47 { Some(Token::Slash) } else
    if c0 == 37 { Some(Token::Percent) } else
    if c0 == 38 { Some(Token::Ampersand) } else
    if c0 == 94 { Some(Token::Caret) } else
    if c0 == 124 { Some(Token::Pipe) } else
    if c0 == 33 { Some(Token::Not) } else
    if c0 == 60 { Some(Token::LessThan) } else
    if c0 == 62 { Some(Token::GreaterThan) } else
    if c0 == 61 { Some(Token::Assign) } else
    if c0 == 63 { Some(Token::QuestionMark) } else
    if c0 == 58 { Some(Token::Colon) } else
    if c0 == 44 { Some(Token::Comma) } else { None }
}

/// Two-byte operators.
pub open spec fn punct2(c0: u8, c1: u8) -> Option<Token> {
    if c0 == 60 && c1 == 60 { Some(Token::LeftShift) } else
    if c0 == 62 && c1 == 62 { Some(Token::RightShift) } else
    if c0 == 38 && c1 == 38 { Some(Token::LogicalAnd) } else
    if c0 == 124 && c1 == 124 { Some(Token::LogicalOr) } else
    if c0 == 61 && c1 == 61 { Some(Token::Equal) } else
    if c0 == 33 && c1 == 61 { Some(Token::NotEqual) } else
    if c0 == 60 && c1 == 61 { Some(Token::LessEqual) } else
    if c0 == 62 && c1 == 61 { Some(Token::GreaterEqual) } else
    if c0 == 43 && c1 == 61 { Some(Token::AddAssign) } else
    if c0 == 45 && c1 == 61 { Some(Token::SubtractAssign) } else
    if c0 == 42 && c1 == 61 { Some(Token::MultiplyAssign) } else
    if c0 == 47 && c1 == 61 { Some(Token::DivideAssign) } else
    if c0 == 37 && c1 == 61 { Some(Token::RemainderAssign) } else
    if c0 == 38 && c1 == 61 { Some(Token::BitwiseAndAssign) } else
    if c0 == 94 && c1 == 61 { Some(Token::BitwiseXorAssign) } else
    if c0 == 124 && c1 == 61 { Some(Token::BitwiseOrAssign) } else
    if c0 == 43 && c1 == 43 { Some(Token::Increment) } else
    if c0 == 45 && c1 == 45 { Some(Token::Decrement) } else { None }
}

/// Three-byte operators.
pub open spec fn punct3(c0: u8, c1: u8, c2: u8) -> Option<Token> {
    if c0 == 62 && c1 == 62 && c2 == 61 { Some(Token::RightShiftAssign) } else
    if c0 == 60 && c1 == 60 && c2 == 61 { Some(Token::LeftShiftAssign) } else { None }

}

/// The longest operator or punctuation token at `i`, with its length.
pub open spec fn punct_at(b: Seq<u8>, i: int) -> Option<(Token, int)> {
    if i + 3 <= b.len() && punct3(b[i], b[i + 1], b[i + 2]) is Some {
        Some((punct3(b[i], b[i + 1], b[i + 2]).unwrap(), 3))
    } else if i + 2 <= b.len() && punct2(b[i], b[i + 1]) is Some {
        Some((punct2(b[i], b[i + 1]).unwrap(), 2))
    } else if punct1(b[i]) is Some {
        Some((punct1(b[i]).unwrap(), 1))
    } else {
        None
    }
}

/// What is read at a position of the source.
pub enum Lexeme {
    Space,
    Tok(Token),
    Bad,
}

/// What starts at byte `i` (which must be inside `b`), and where it ends:
/// a run of spaces, the longest token, or one character that starts no token.
pub open spec fn scan(b: Seq<u8>, i: int) -> (Lexeme, int) {
    let c = b[i];
    if is_space(c) {
        (Lexeme::Space, space_end(b, i))
    } else if is_ident_start(c) {
        let e = ident_end(b, i);
        match keyword(b, i, e) {
            Some(t) => (Lexeme::Tok(t), e),
            None => (Lexeme::Tok(Token::Ident), e),
        }
    } else if is_digit(c) {
        (Lexeme::Tok(Token::ConstantInt), digits_end(b, i))
    } else {
        match punct_at(b, i) {
            Some((t, l)) => (Lexeme::Tok(t), i + l),
            None => (Lexeme::Bad, char_end(b, i + 1)),
        }
    }
}

proof fn lemma_space_end(b: Seq<u8>, i: int)
    requires
        0 <= i <= b.len(),
    ensures
        i <= space_end(b, i) <= b.len(),
        forall|k: int| i <= k < space_end(b, i) ==> is_space(#[trigger] b[k]),
        space_end(b, i) < b.len() ==> !is_space(b[space_end(b, i)]),
    decreases b.len() - i,
{
    if i < b.len() && is_space(b[i]) {
        lemma_space_end(b, i + 1);
    }
}

proof fn lemma_ident_end(b: Seq<u8>, i: int)
    requires
        0 <= i <= b.len(),
    ensures
        i <= ident_end(b, i) <= b.len(),
        forall|k: int| i <= k < ident_end(b, i) ==> is_ident_char(#[trigger] b[k]),
        ident_end(b, i) < b.len() ==> !is_ident_char(b[ident_end(b, i)]),
    decreases b.len() - i,
{
    if i < b.len() && is_ident_char(b[i]) {
        lemma_ident_end(b, i + 1);
    }
}

proof fn lemma_digits_end(b: Seq<u8>, i: int)
    requires
        0 <= i <= b.len(),
    ensures
        i <= digits_end(b, i) <= b.len(),
        forall|k: int| i <= k < digits_end(b, i) ==> is_digit(#[trigger] b[k]),
        digits_end(b, i) < b.len() ==> !is_digit(b[digits_end(b, i)]),
    decreases b.len() - i,
{
    if i < b.len() && is_digit(b[i]) {
        lemma_digits_end(b, i + 1);
    }
}

proof fn lemma_char_end(b: Seq<u8>, i: int)
    requires
        0 <= i <= b.len(),
    ensures
        i <= char_end(b, i) <= b.len(),
    decreases b.len() - i,
{
    if i < b.len() && is_continuation(b[i]) {
        lemma_char_end(b, i + 1);
    }
}

/// Every lexeme is at least one byte long and stays inside the source.
pub proof fn lemma_scan_progress(b: Seq<u8>, i: int)
    requires
        0 <= i < b.len(),
    ensures
        i < scan(b, i).1 <= b.len(),
{
    lemma_space_end(b, i);
    lemma_ident_end(b, i);
    lemma_digits_end(b, i);
    lemma_char_end(b, i + 1);
}

/// The tokens read from byte `i` on: kind, start and end of each.
pub open spec fn lex_tokens(b: Seq<u8>, i: int) -> Seq<(Token, int, int)>
    decreases b.len() - i,
{
    if 0 <= i < b.len() {
        proof { lemma_scan_progress(b, i); }
        let (lx, e) = scan(b, i);
        match lx {
            Lexeme::Tok(t) => seq![(t, i, e)] + lex_tokens(b, e),
            _ => lex_tokens(b, e),
        }
    } else {
        seq![]
    }
}

/// Whether a lexed token `(t, s, e)` lies inside `b`, with a constant or an
/// identifier spanning a non-empty run of digits or identifier characters.
pub open spec fn lexed_token_wf(b: Seq<u8>, t: (Token, int, int)) -> bool {
    &&& 0 <= t.1 <= t.2 <= b.len()
    &&& t.0 == Token::ConstantInt ==> t.1 < t.2 && forall|k: int| t.1 <= k < t.2 ==> is_digit(#[trigger] b[k])
    &&& t.0 == Token::Ident ==> t.1 < t.2 && forall|k: int| t.1 <= k < t.2 ==> is_ident_char(#[trigger] b[k])
}

/// Every token read from byte `i` on starts at or after `i` and is well formed.
pub proof fn lemma_lex_tokens_wf(b: Seq<u8>, i: int)
    requires
        0 <= i <= b.len(),
    ensures
        forall|k: int| 0 <= k < lex_tokens(b, i).len() ==> i <= (#[trigger] lex_tokens(b, i)[k]).1
            && lexed_token_wf(b, lex_tokens(b, i)[k]),
    decreases b.len() - i,
{
    if i < b.len() {
        lemma_scan_progress(b, i);
        lemma_ident_end(b, i);
        lemma_digits_end(b, i);
        let (lx, e) = scan(b, i);
        lemma_lex_tokens_wf(b, e);
        match lx {
            Lexeme::Tok(t) => {
                let rest = lex_tokens(b, e);
                assert(lex_tokens(b, i) == seq![(t, i, e)] + rest);
                assert(lexed_token_wf(b, (t, i, e)));
                assert forall|k: int| 0 <= k < lex_tokens(b, i).len() implies i <= (#[trigger] lex_tokens(b, i)[k]).1
                    && lexed_token_wf(b, lex_tokens(b, i)[k]) by {
                    if k > 0 {
                        assert(lex_tokens(b, i)[k] == rest[k - 1]);
                    }
                }
            },
            _ => {
                assert(lex_tokens(b, i) == lex_tokens(b, e));
            },
        }
    }
}

/// The byte ranges, from byte `i` on, of characters that start no token.
pub open spec fn lex_errors(b: Seq<u8>, i: int) -> Seq<(int, int)>
    decreases b.len() - i,
{
    if 0 <= i < b.len() {
        proof { lemma_scan_progress(b, i); }
        let (lx, e) = scan(b, i);
        match lx {
            Lexeme::Bad => seq![(i, e)] + lex_errors(b, e),
            _ => lex_errors(b, e),
        }
    } else {
        seq![]
    }
}

/// The code point encoded by the bytes `b[s..e]` (one UTF-8 character).
pub open spec fn code_point(b: Seq<u8>, s: int, e: int) -> u32 {
    if e - s == 1 {
        b[s] as u32
    } else if e - s == 2 {
        (((b[s] & 0x1F) as u32) << 6) | ((b[s + 1] & 0x3F) as u32)
    } else if e - s == 3 {
        (((b[s] & 0x0F) as u32) << 12) | (((b[s + 1] & 0x3F) as u32) << 6) | ((b[s + 2] & 0x3F) as u32)
    } else {
        (((b[s] & 0x07) as u32) << 18) | (((b[s + 1] & 0x3F) as u32) << 12) | (((b[s + 2] & 0x3F) as u32) << 6) | ((b[s + 3] & 0x3F) as u32)
    }
}

/// The character that `b[s..e]` encodes (the replacement character where the
/// bytes encode none).
pub open spec fn error_char(b: Seq<u8>, s: int, e: int) -> char {
    let u = code_point(b, s, e);
    if u < 0xD800 || (0xE000 <= u && u < 0x110000) {
        u as char
    } else {
        '\u{FFFD}'
    }
}

/// The message reported for a character that starts no token.
pub open spec fn error_message(b: Seq<u8>, s: int, e: int) -> Seq<char> {
    "unexpected character '"@ + spec_escape_debug(error_char(b, s, e)) + "'"@
}

/// The (kind, start, end) triples of a token list.
pub open spec fn token_triples(ts: Seq<SpannedToken>) -> Seq<(Token, int, int)> {
    ts.map_values(|t: SpannedToken| (t.token, t.span.start as int, t.span.end as int))
}

/// Whether `ds` are the lexing errors reported for the character ranges `es` of `b`.
pub open spec fn lex_diagnostics(b: Seq<u8>, ds: Seq<Diagnostic>, es: Seq<(int, int)>) -> bool {
    &&& ds.len() == es.len()
    &&& forall|k: int| 0 <= k < ds.len() ==> {
        &&& (#[trigger] ds[k]).stage == Stage::Lex
        &&& ds[k].span.start == es[k].0
        &&& ds[k].span.end == es[k].1
        &&& ds[k].message@ == error_message(b, es[k].0, es[k].1)
    }
}

fn space_end_exec(b: &[u8], i: usize) -> (e: usize)
    requires
        i <= b@.len(),
    ensures
        e == space_end(b@, i as int),
{
    let mut j = i;
    while j < b.len() && (b[j] == 32 || b[j] == 9 || b[j] == 13 || b[j] == 10)
        invariant
            i <= j <= b@.len(),
            space_end(b@, i as int) == space_end(b@, j as int),
        decreases b@.len() - j,
    {
        j = j + 1;
    }
    j
}

fn ident_end_exec(b: &[u8], i: usize) -> (e: usize)
    requires
        i <= b@.len(),
    ensures
        e == ident_end(b@, i as int),
{
    let mut j = i;
    while j < b.len() && ((65 <= b[j] && b[j] <= 90) || (97 <= b[j] && b[j] <= 122) || b[j] == 95 || (48 <= b[j] && b[j] <= 57))
        invariant
            i <= j <= b@.len(),
            ident_end(b@, i as int) == ident_end(b@, j as int),
        decreases b@.len() - j,
    {
        j = j + 1;
    }
    j
}

fn digits_end_exec(b: &[u8], i: usize) -> (e: usize)
    requires
        i <= b@.len(),
    ensures
        e == digits_end(b@, i as int),
{
    let mut j = i;
    while j < b.len() && (48 <= b[j] && b[j] <= 57)
        invariant
            i <= j <= b@.len(),
            digits_end(b@, i as int) == digits_end(b@, j as int),
        decreases b@.len() - j,
    {
        j = j + 1;
    }
    j
}

fn char_end_exec(b: &[u8], i: usize) -> (e: usize)
    requires
        i <= b@.len(),
    ensures
        e == char_end(b@, i as int),
{
    let mut j = i;
    while j < b.len() && 0x80 <= b[j] && b[j] < 0xC0
        invariant
            i <= j <= b@.len(),
            char_end(b@, i as int) == char_end(b@, j as int),
        decreases b@.len() - j,
    {
        j = j + 1;
    }
    j
}

fn keyword_exec(b: &[u8], s: usize, e: usize) -> (r: Option<Token>)
    requires
        s <= e <= b@.len(),
    ensures
        r == keyword(b@, s as int, e as int),
{
    if e - s == 2 {
        if b[s + 0] == 105 && b[s + 1] == 102 {
            return Some(Token::If);
        }
        if b[s + 0] == 100 && b[s + 1] == 111 {
            return Some(Token::Do);
        }
    }
    if e - s == 3 {
        if b[s + 0] == 105 && b[s + 1] == 110 && b[s + 2] == 116 {
            return Some(Token::Int);
        }
        if b[s + 0] == 102 && b[s + 1] == 111 && b[s + 2] == 114 {
            return Some(Token::For);
        }
    }
    if e - s == 4 {
        if b[s + 0] == 118 && b[s + 1] == 111 && b[s + 2] == 105 && b[s + 3] == 100 {
            return Some(Token::Void);
        }
        if b[s + 0] == 101 && b[s + 1] == 108 && b[s + 2] == 115 && b[s + 3] == 101 {
            return Some(Token::Else);
        }
        if b[s + 0] == 103 && b[s + 1] == 111 && b[s + 2] == 116 && b[s + 3] == 111 {
            return Some(Token::Goto);
        }
        if b[s + 0] == 99 && b[s + 1] == 97 && b[s + 2] == 115 && b[s + 3] == 101 {
            return Some(Token::Case);
        }
    }
    if e - s == 5 {
        if b[s + 0] == 119 && b[s + 1] == 104 && b[s + 2] == 105 && b[s + 3] == 108 && b[s + 4] == 101 {
            return Some(Token::While);
        }
        if b[s + 0] == 98 && b[s + 1] == 114 && b[s + 2] == 101 && b[s + 3] == 97 && b[s + 4] == 107 {
            return Some(Token::Break);
        }
    }
    if e - s == 6 {
        if b[s + 0] == 114 && b[s + 1] == 101 && b[s + 2] == 116 && b[s + 3] == 117 && b[s + 4] == 114 && b[s + 5] == 110 {
            return Some(Token::Return);
        }
        if b[s + 0] == 115 && b[s + 1] == 119 && b[s + 2] == 105 && b[s + 3] == 116 && b[s + 4] == 99 && b[s + 5] == 104 {
            return Some(Token::Switch);
        }
        if b[s + 0] == 115 && b[s + 1] == 116 && b[s + 2] == 97 && b[s + 3] == 116 && b[s + 4] == 105 && b[s + 5] == 99 {
            return Some(Token::Static);
        }
        if b[s + 0] == 101 && b[s + 1] == 120 && b[s + 2] == 116 && b[s + 3] == 101 && b[s + 4] == 114 && b[s + 5] == 110 {
            return Some(Token::Extern);
        }
    }
    if e - s == 7 {
        if b[s + 0] == 100 && b[s + 1] == 101 && b[s + 2] == 102 && b[s + 3] == 97 && b[s + 4] == 117 && b[s + 5] == 108 && b[s + 6] == 116 {
            return Some(Token::Default);
        }
    }
    if e - s == 8 {
        if b[s + 0] == 99 && b[s + 1] == 111 && b[s + 2] == 110 && b[s + 3] == 116 && b[s + 4] == 105 && b[s + 5] == 110 && b[s + 6] == 117 && b[s + 7] == 101 {
            return Some(Token::Continue);
        }
    }
    None
}

fn punct_exec(b: &[u8], i: usize) -> (r: Option<(Token, usize)>)
    requires
        i < b@.len(),
    ensures
        match r {
            Some((t, l)) => punct_at(b@, i as int) == Some((t, l as int)),
            None => punct_at(b@, i as int) is None,
        },
{
    let c0 = b[i];
    if b.len() - i >= 3 {
        let c1 = b[i + 1];
        let c2 = b[i + 2];
        if c0 == 60 && c1 == 60 && c2 == 61 {
            return Some((Token::LeftShiftAssign, 3));
        }
        if c0 == 62 && c1 == 62 && c2 == 61 {
            return Some((Token::RightShiftAssign, 3));
        }
    }
    if b.len() - i >= 2 {
        let c1 = b[i + 1];
        let t2 = punct2_exec(c0, c1);
        if let Some(t) = t2 {
            return Some((t, 2));
        }
    }
    match punct1_exec(c0) {
        Some(t) => Some((t, 1)),
        None => None,
    }
}

fn punct1_exec(c0: u8) -> (r: Option<Token>)
    ensures
        r == punct1(c0),
{
    if c0 == 40 { Some(Token::OpenParen) } else
    if c0 == 41 { Some(Token::CloseParen) } else
    if c0 == 123 { Some(Token::OpenBrace) } else
    if c0 == 125 { Some(Token::CloseBrace) } else
    if c0 == 59 { Some(Token::Semicolon) } else
    if c0 == 126 { Some(Token::Tilde) } else
    if c0 == 45 { Some(Token::Hyphen) } else
    if c0 == 43 { Some(Token::Plus) } else
    if c0 == 42 { Some(Token::Asterisk) } else
    if c0 == 47 { Some(Token::Slash) } else
    if c0 == 37 { Some(Token::Percent) } else
    if c0 == 38 { Some(Token::Ampersand) } else
    if c0 == 94 { Some(Token::Caret) } else
    if c0 == 124 { Some(Token::Pipe) } else
    if c0 == 33 { Some(Token::Not) } else
    if c0 == 60 { Some(Token::LessThan) } else
    if c0 == 62 { Some(Token::GreaterThan) } else
    if c0 == 61 { Some(Token::Assign) } else
    if c0 == 63 { Some(Token::QuestionMark) } else
    if c0 == 58 { Some(Token::Colon) } else
    if c0 == 44 { Some(Token::Comma) } else { None }
}

fn punct2_exec(c0: u8, c1: u8) -> (r: Option<Token>)
    ensures
        r == punct2(c0, c1),
{
    if c0 == 60 && c1 == 60 { Some(Token::LeftShift) } else
    if c0 == 62 && c1 == 62 { Some(Token::RightShift) } else
    if c0 == 38 && c1 == 38 { Some(Token::LogicalAnd) } else
    if c0 == 124 && c1 == 124 { Some(Token::LogicalOr) } else
    if c0 == 61 && c1 == 61 { Some(Token::Equal) } else
    if c0 == 33 && c1 == 61 { Some(Token::NotEqual) } else
    if c0 == 60 && c1 == 61 { Some(Token::LessEqual) } else
    if c0 == 62 && c1 == 61 { Some(Token::GreaterEqual) } else
    if c0 == 43 && c1 == 61 { Some(Token::AddAssign) } else
    if c0 == 45 && c1 == 61 { Some(Token::SubtractAssign) } else
    if c0 == 42 && c1 == 61 { Some(Token::MultiplyAssign) } else
    if c0 == 47 && c1 == 61 { Some(Token::DivideAssign) } else
    if c0 == 37 && c1 == 61 { Some(Token::RemainderAssign) } else
    if c0 == 38 && c1 == 61 { Some(Token::BitwiseAndAssign) } else
    if c0 == 94 && c1 == 61 { Some(Token::BitwiseXorAssign) } else
    if c0 == 124 && c1 == 61 { Some(Token::BitwiseOrAssign) } else
    if c0 == 43 && c1 == 43 { Some(Token::Increment) } else
    if c0 == 45 && c1 == 45 { Some(Token::Decrement) } else { None }
}

/// The character encoded by `b[s..e]`, as `error_char` describes.
fn decode_error_char(b: &[u8], s: usize, e: usize) -> (c: char)
    requires
        s < e <= b@.len(),
    ensures
        c == error_char(b@, s as int, e as int),
{
    let len = e - s;
    let u: u32 = if len == 1 {
        b[s] as u32
    } else if len == 2 {
        (((b[s] & 0x1F) as u32) << 6) | ((b[s + 1] & 0x3F) as u32)
    } else if len == 3 {
        (((b[s] & 0x0F) as u32) << 12) | (((b[s + 1] & 0x3F) as u32) << 6) | ((b[s + 2] & 0x3F) as u32)
    } else {
        (((b[s] & 0x07) as u32) << 18) | (((b[s + 1] & 0x3F) as u32) << 12) | (((b[s + 2] & 0x3F) as u32) << 6) | ((b[s + 3] & 0x3F) as u32)
    };
    match char_from_u32(u) {
        Some(c) => {
            proof {
                vstd::utf8::char_u32_cast(c, u);
            }
            c
        },
        None => '\u{FFFD}',
    }
}

/// Splits `source` into tokens, the longest token first at every position,
/// skipping spaces, tabs, carriage returns and newlines, and ending with an
/// `EndOfInput` token at the end of the source. A character that starts no
/// token is an error; all such characters are reported.
pub fn lex(source: &str) -> (r: Result<Vec<SpannedToken>, Vec<Diagnostic>>)
    ensures
        match r {
            Ok(ts) => {
                &&& lex_errors(source.spec_bytes(), 0).len() == 0
                &&& token_triples(ts@) == lex_tokens(source.spec_bytes(), 0).push(
                    (Token::EndOfInput, source.spec_bytes().len() as int, source.spec_bytes().len() as int))
            },
            Err(es) => {
                &&& lex_errors(source.spec_bytes(), 0).len() > 0
                &&& lex_diagnostics(source.spec_bytes(), es@, lex_errors(source.spec_bytes(), 0))
            },
        },
{
    let b = source.as_bytes();
    let n = b.len();
    let mut tokens: Vec<SpannedToken> = Vec::new();
    let mut errors: Vec<Diagnostic> = Vec::new();
    let mut i: usize = 0;
    while i < n
        invariant
            b@ == source.spec_bytes(),
            n == b@.len(),
            i <= n,
            lex_tokens(b@, 0) == token_triples(tokens@) + lex_tokens(b@, i as int),
            lex_errors(b@, 0) == errors@.map_values(|d: Diagnostic| (d.span.start as int, d.span.end as int)) + lex_errors(b@, i as int),
            lex_diagnostics(b@, errors@, errors@.map_values(|d: Diagnostic| (d.span.start as int, d.span.end as int))),
        decreases n - i,
    {
        proof {
            lemma_scan_progress(b@, i as int);
        }
        let ghost old_tokens = tokens@;
        let ghost old_errors = errors@;
        let c = b[i];
        let mut produced: Option<Token> = None;
        let e: usize;
        if c == 32 || c == 9 || c == 13 || c == 10 {
            e = space_end_exec(b, i);
        } else if (65 <= c && c <= 90) || (97 <= c && c <= 122) || c == 95 {
            e = ident_end_exec(b, i);
            proof {
                lemma_ident_end(b@, i as int);
            }
            match keyword_exec(b, i, e) {
                Some(t) => { produced = Some(t); }
                None => { produced = Some(Token::Ident); }
            }
        } else if 48 <= c && c <= 57 {
            e = digits_end_exec(b, i);
            produced = Some(Token::ConstantInt);
        } else {
            match punct_exec(b, i) {
                Some((t, l)) => {
                    e = i + l;
                    produced = Some(t);
                }
                None => {
                    proof {
                        lemma_char_end(b@, i as int + 1);
                    }
                    e = char_end_exec(b, i + 1);
                    let ch = decode_error_char(b, i, e);
                    let mut message = string_of("unexpected character '");
                    let escaped = escape_debug(ch);
                    push_string(&mut message, &escaped);
                    push_str(&mut message, "'");
                    errors.push(Diagnostic::new(Stage::Lex, i..e, message));
                }
            }
        }
        assert(e as int == scan(b@, i as int).1);
        match produced {
            Some(t) => {
                tokens.push(SpannedToken { token: t, span: i..e });
                proof {
                    assert(token_triples(tokens@) =~= token_triples(old_tokens).push((t, i as int, e as int)));
                }
            }
            None => {}
        }
        proof {
            assert(errors@.map_values(|d: Diagnostic| (d.span.start as int, d.span.end as int)).len() == errors@.len());
        }
        i = e;
    }
    tokens.push(SpannedToken { token: Token::EndOfInput, span: n..n });
    if errors.len() == 0 {
        Ok(tokens)
    } else {
        Err(errors)
    }
}

/// The text of bytes `s` to `e`, one character per byte.
pub open spec fn byte_text(b: Seq<u8>, s: int, e: int) -> Seq<char> {
    b.subrange(s, e).map_values(|c: u8| c as char)
}

/// An operator or punctuation token is read only from the bytes that spell
/// it: `!=` gives `NotEqual` and nothing else.
pub proof fn lemma_punct_spelled(b: Seq<u8>, i: int)
    requires
        0 <= i < b.len(),
    ensures
        punct_at(b, i) matches Some((t, n)) ==> i + n <= b.len() && token_text(t) == byte_text(b, i, i + n),
{
    reveal_strlit("(");
    reveal_strlit(")");
    reveal_strlit("{");
    reveal_strlit("}");
    reveal_strlit(";");
    reveal_strlit("~");
    reveal_strlit("-");
    reveal_strlit("+");
    reveal_strlit("*");
    reveal_strlit("/");
    reveal_strlit("%");
    reveal_strlit("&");
    reveal_strlit("^");
    reveal_strlit("|");
    reveal_strlit("!");
    reveal_strlit("<");
    reveal_strlit(">");
    reveal_strlit("=");
    reveal_strlit("?");
    reveal_strlit(":");
    reveal_strlit(",");
    reveal_strlit("<<");
    reveal_strlit(">>");
    reveal_strlit("&&");
    reveal_strlit("||");
    reveal_strlit("==");
    reveal_strlit("!=");
    reveal_strlit("<=");
    reveal_strlit(">=");
    reveal_strlit("+=");
    reveal_strlit("-=");
    reveal_strlit("*=");
    reveal_strlit("/=");
    reveal_strlit("%=");
    reveal_strlit("&=");
    reveal_strlit("^=");
    reveal_strlit("|=");
    reveal_strlit("++");
    reveal_strlit("--");
    reveal_strlit(">>=");
    reveal_strlit("<<=");
    if i + 3 <= b.len() && punct3(b[i], b[i + 1], b[i + 2]) is Some {
        assert(byte_text(b, i, i + 3) =~= seq![b[i] as char, b[i + 1] as char, b[i + 2] as char]);
    } else if i + 2 <= b.len() && punct2(b[i], b[i + 1]) is Some {
        assert(byte_text(b, i, i + 2) =~= seq![b[i] as char, b[i + 1] as char]);
    } else {
        assert(byte_text(b, i, i + 1) =~= seq![b[i] as char]);
    }
}

/// A keyword is read only from the bytes that spell it.
pub proof fn lemma_keyword_spelled(b: Seq<u8>, s: int, e: int)
    requires
        0 <= s <= e <= b.len(),
    ensures
        keyword(b, s, e) matches Some(t) ==> token_text(t) == byte_text(b, s, e),
{
    reveal_strlit("int");
    reveal_strlit("void");
    reveal_strlit("return");
    reveal_strlit("if");
    reveal_strlit("else");
    reveal_strlit("goto");
    reveal_strlit("do");
    reveal_strlit("while");
    reveal_strlit("for");
    reveal_strlit("switch");
    reveal_strlit("case");
    reveal_strlit("default");
    reveal_strlit("break");
    reveal_strlit("continue");
    reveal_strlit("static");
    reveal_strlit("extern");
    if keyword(b, s, e) is Some {
        let n = e - s;
        assert(byte_text(b, s, e) =~= Seq::new(n as nat, |k: int| b[s + k] as char));
        assert(token_text(keyword(b, s, e)->0).len() == n);
        assert forall|k: int| 0 <= k < n implies #[trigger] token_text(keyword(b, s, e)->0)[k] == b[s + k] as char by {}
        assert(token_text(keyword(b, s, e)->0) =~= byte_text(b, s, e));
    }
}

/// Every token the lexer reads, other than a name or a number, is the token
/// that its bytes spell.
pub proof fn lemma_tokens_spelled(b: Seq<u8>, i: int)
    requires
        0 <= i <= b.len(),
    ensures
        forall|k: int| 0 <= k < lex_tokens(b, i).len() ==> {
            let t = #[trigger] lex_tokens(b, i)[k];
            t.0 != Token::Ident && t.0 != Token::ConstantInt ==> token_text(t.0) == byte_text(b, t.1, t.2)
        },
    decreases b.len() - i,
{
    if i < b.len() {
        lemma_scan_progress(b, i);
        lemma_ident_end(b, i);
        let (lx, e) = scan(b, i);
        lemma_tokens_spelled(b, e);
        lemma_punct_spelled(b, i);
        lemma_keyword_spelled(b, i, ident_end(b, i));
        match lx {
            Lexeme::Tok(t) => {
                let rest = lex_tokens(b, e);
                assert(lex_tokens(b, i) == seq![(t, i, e)] + rest);
                assert forall|k: int| 0 <= k < lex_tokens(b, i).len() implies {
                    let u = #[trigger] lex_tokens(b, i)[k];
                    u.0 != Token::Ident && u.0 != Token::ConstantInt ==> token_text(u.0) == byte_text(b, u.1, u.2)
                } by {
                    if k > 0 {
                        assert(lex_tokens(b, i)[k] == rest[k - 1]);
                    }
                }
            },
            _ => {},
        }
    }
}

} // verus!
