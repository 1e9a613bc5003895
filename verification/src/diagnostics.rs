//! Error reports collected by the compiler's stages.
use vstd::prelude::*;
use vstd::string::StringSliceAdditionalSpecFns;
use crate::text::{decimal, push_decimal, push_str, push_string};

verus! {

/// A byte range of the source text.
pub type Span = core::ops::Range<usize>;

/// The compiler stage that found a problem.
#[derive(Debug, Clone, Copy, PartialEq, Eq, Structural)]
pub enum Stage {
    Lex,
    Parse,
    Analysis,
}

/// The name under which a stage is reported.
pub open spec fn stage_text(stage: Stage) -> Seq<char> {
    match stage {
        Stage::Lex => "lexer"@,
        Stage::Parse => "parser"@,
        Stage::Analysis => "semantic analyzer"@,
    }
}

impl Stage {
    /// The name under which the stage is reported.
    pub fn text(self) -> (s: &'static str)
        ensures
            s@ == stage_text(self),
    {
        match self {
            Stage::Lex => "lexer",
            Stage::Parse => "parser",
            Stage::Analysis => "semantic analyzer",
        }
    }
}

/// One problem found in the source, with where it is and what it is.
#[derive(Debug)]
pub struct Diagnostic {
    pub stage: Stage,
    pub span: Span,
    pub message: String,
}

impl Diagnostic {
    pub fn new(stage: Stage, span: Span, message: String) -> (d: Self)
        ensures
            d.stage == stage,
            d.span == span,
            d.message == message,
    {
        Self { stage, span, message }
    }
}

/// The problems found so far, in the order they were found.
pub struct Diagnostics {
    pub vec: Vec<Diagnostic>,
}

impl Diagnostics {
    pub fn new() -> (d: Self)
        ensures
            d.vec@.len() == 0,
    {
        Self { vec: Vec::new() }
    }

    pub fn is_empty(&self) -> (r: bool)
        ensures
            r == (self.vec@.len() == 0),
    {
        self.vec.len() == 0
    }

    pub fn push(&mut self, diagnostic: Diagnostic)
        ensures
            final(self).vec@ == old(self).vec@.push(diagnostic),
    {
        self.vec.push(diagnostic);
    }

    /// Records a problem found by `stage` at `span`.
    pub fn add(&mut self, stage: Stage, span: Span, message: String)
        ensures
            final(self).vec@.len() == old(self).vec@.len() + 1,
            final(self).vec@.drop_last() == old(self).vec@,
            final(self).vec@.last().stage == stage,
            final(self).vec@.last().span == span,
            final(self).vec@.last().message@ == message@,
    {
        self.vec.push(Diagnostic::new(stage, span, message));
        proof {
            assert(self.vec@.drop_last() =~= old(self).vec@);
        }
    }

    pub fn lexing_error(&mut self, span: Span, message: String)
        ensures
            final(self).vec@.len() == old(self).vec@.len() + 1,
            final(self).vec@.drop_last() == old(self).vec@,
            final(self).vec@.last().stage == Stage::Lex,
            final(self).vec@.last().span == span,
            final(self).vec@.last().message@ == message@,
    {
        self.add(Stage::Lex, span, message);
    }

    pub fn parsing_error(&mut self, span: Span, message: String)
        ensures
            final(self).vec@.len() == old(self).vec@.len() + 1,
            final(self).vec@.drop_last() == old(self).vec@,
            final(self).vec@.last().stage == Stage::Parse,
            final(self).vec@.last().span == span,
            final(self).vec@.last().message@ == message@,
    {
        self.add(Stage::Parse, span, message);
    }

    pub fn analysis_error(&mut self, span: Span, message: String)
        ensures
            final(self).vec@.len() == old(self).vec@.len() + 1,
            final(self).vec@.drop_last() == old(self).vec@,
            final(self).vec@.last().stage == Stage::Analysis,
            final(self).vec@.last().span == span,
            final(self).vec@.last().message@ == message@,
    {
        self.add(Stage::Analysis, span, message);
    }
}

/// Whether a byte continues a multi-byte UTF-8 character.
pub open spec fn is_continuation(b: u8) -> bool {
    0x80 <= b < 0xC0
}

/// The 1-based line and column reached after reading the first `k` bytes of
/// `bytes`: a newline starts a new line, and every other character (counted
/// at its first byte) moves one column on.
pub open spec fn spec_line_col(bytes: Seq<u8>, k: nat) -> (int, int)
    decreases k,
{
    if k == 0 {
        (1, 1)
    } else {
        let (line, col) = spec_line_col(bytes, (k - 1) as nat);
        let b = bytes[k - 1];
        if b == 10 {
            (line + 1, 1)
        } else if is_continuation(b) {
            (line, col)
        } else {
            (line, col + 1)
        }
    }
}

proof fn lemma_line_col_bounds(bytes: Seq<u8>, k: nat)
    ensures
        1 <= spec_line_col(bytes, k).0,
        1 <= spec_line_col(bytes, k).1,
        spec_line_col(bytes, k).0 + spec_line_col(bytes, k).1 <= k + 2,
    decreases k,
{
    if k > 0 {
        lemma_line_col_bounds(bytes, (k - 1) as nat);
    }
}

/// The line and column of the character at byte `offset` of `source`.
pub fn line_col(source: &str, offset: usize) -> (r: (usize, usize))
    requires
        source.spec_bytes().len() < usize::MAX,
    ensures
        r.0 == spec_line_col(source.spec_bytes(), vstd::math::min(offset as int, source.spec_bytes().len() as int) as nat).0,
        r.1 == spec_line_col(source.spec_bytes(), vstd::math::min(offset as int, source.spec_bytes().len() as int) as nat).1,
{
    let bytes = source.as_bytes();
    let n = bytes.len();
    let end = if offset < n { offset } else { n };
    let mut line: usize = 1;
    let mut col: usize = 1;
    let mut i: usize = 0;
    while i < end
        invariant
            bytes@ == source.spec_bytes(),
            n == bytes@.len(),
            n < usize::MAX,
            end <= n,
            i <= end,
            (line as int, col as int) == spec_line_col(bytes@, i as nat),
        decreases end - i,
    {
        proof {
            lemma_line_col_bounds(bytes@, i as nat);
        }
        let b = bytes[i];
        if b == 10 {
            line = line + 1;
            col = 1;
        } else if 0x80 <= b && b < 0xC0 {
        } else {
            col = col + 1;
        }
        i = i + 1;
    }
    (line, col)
}

/// The headline under which a diagnostic is reported: the stage, the message
/// and the line and column where its span starts.
pub open spec fn report_headline(source: Seq<u8>, d: Diagnostic) -> Seq<char> {
    let (line, col) = spec_line_col(source, vstd::math::min(d.span.start as int, source.len() as int) as nat);
    stage_text(d.stage) + " error: "@ + d.message@ + " (line "@ + decimal(line as nat) + ", column "@
        + decimal(col as nat) + ")"@
}

/// The headline under which `d` is reported for `source`.
pub fn report_message(source: &str, d: &Diagnostic) -> (s: String)
    requires
        source.spec_bytes().len() < usize::MAX,
    ensures
        s@ == report_headline(source.spec_bytes(), *d),
{
    let (line, col) = line_col(source, d.span.start);
    proof {
        lemma_line_col_bounds(source.spec_bytes(), vstd::math::min(d.span.start as int, source.spec_bytes().len() as int) as nat);
    }
    let mut s = String::new();
    push_str(&mut s, d.stage.text());
    push_str(&mut s, " error: ");
    push_string(&mut s, &d.message);
    push_str(&mut s, " (line ");
    push_decimal(&mut s, line as u64);
    push_str(&mut s, ", column ");
    push_decimal(&mut s, col as u64);
    push_str(&mut s, ")");
    proof {
        assert(s@ =~= report_headline(source.spec_bytes(), *d));
    }
    s
}

} // verus!
