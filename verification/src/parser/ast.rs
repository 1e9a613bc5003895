//! The syntax tree of a translation unit.
use vstd::prelude::*;
use crate::analysis::Type;
use crate::diagnostics::Span;
use crate::parser::operators::{BinaryOperator, IncDec, UnaryOperator};
use crate::text::{string_of, push_str, push_string, random_lowercase_letter, string_push};

verus! {

/// A translation unit: its top-level declarations in order.
#[derive(Debug)]
pub struct Program(pub Vec<Declaration>);

/// Whether a declaration declares a function.
pub open spec fn is_function_declaration(d: Declaration) -> bool {
    d is Func
}

impl Program {
    /// The function declarations of the program, in order.
    pub fn functions(&self) -> (r: Vec<&FunctionDeclaration>)
        ensures
            r@.len() == self.0@.filter(|d: Declaration| is_function_declaration(d)).len(),
            forall|k: int| 0 <= k < r@.len() ==>
                Declaration::Func(*#[trigger] r@[k]) == self.0@.filter(|d: Declaration| is_function_declaration(d))[k],
    {
        let mut r: Vec<&FunctionDeclaration> = Vec::new();
        let mut i: usize = 0;
        while i < self.0.len()
            invariant
                i <= self.0@.len(),
                r@.len() == self.0@.take(i as int).filter(|d: Declaration| is_function_declaration(d)).len(),
                forall|k: int| 0 <= k < r@.len() ==>
                    Declaration::Func(*#[trigger] r@[k]) == self.0@.take(i as int).filter(|d: Declaration| is_function_declaration(d))[k],
            decreases self.0@.len() - i,
        {
            proof {
                assert(self.0@.take(i + 1).drop_last() =~= self.0@.take(i as int));
                reveal_with_fuel(Seq::filter, 1);
            }
            match &self.0[i] {
                Declaration::Func(f) => {
                    r.push(f);
                },
                _ => {},
            }
            i = i + 1;
        }
        proof {
            assert(self.0@.take(self.0@.len() as int) =~= self.0@);
        }
        r
    }
}

pub type Block = Vec<BlockItem>;

/// A function declaration, with its body when it is a definition.
#[derive(Debug)]
pub struct FunctionDeclaration {
    pub name: Identifier,
    pub params: Vec<FunctionParameter>,
    pub body: Option<Block>,
    pub span: Span,
    pub name_span: Span,
    pub storage_class: StorageClass,
    pub return_type: Type,
}

/// A declaration specifier.
#[derive(Debug, PartialEq, Eq, Clone, Copy, Structural)]
pub enum Specifier {
    Int,
    Long,
    Static,
    Extern,
}

impl Specifier {
    /// The type named by a type specifier.
    pub fn ty(&self) -> (t: Type)
        requires
            *self == Specifier::Int || *self == Specifier::Long,
        ensures
            *self == Specifier::Int ==> t is Int,
            *self == Specifier::Long ==> t is Long,
    {
        match self {
            Specifier::Int => Type::Int,
            _ => Type::Long,
        }
    }

    /// The storage class named by a specifier (`None` for a type specifier).
    pub fn storage_class(&self) -> (c: StorageClass)
        ensures
            c == (match *self {
                Specifier::Static => StorageClass::Static,
                Specifier::Extern => StorageClass::Extern,
                _ => StorageClass::Unspecified,
            }),
    {
        match self {
            Specifier::Static => StorageClass::Static,
            Specifier::Extern => StorageClass::Extern,
            _ => StorageClass::Unspecified,
        }
    }
}

#[derive(Debug)]
pub struct FunctionParameter {
    pub name: Identifier,
    pub span: Span,
    pub ty: Type,
}

#[derive(Debug)]
pub struct VariableDeclaration {
    pub name: Identifier,
    pub init: Option<Expression>,
    pub span: Span,
    pub storage_class: StorageClass,
    pub ty: Type,
}

#[derive(Debug)]
pub enum Declaration {
    Func(FunctionDeclaration),
    Var(VariableDeclaration),
}

#[derive(Debug, Clone, Copy, PartialEq, Eq, Structural)]
pub enum StorageClass {
    Static,
    Extern,
    Unspecified,
}

impl StorageClass {
    pub fn is_static(&self) -> (r: bool)
        ensures
            r == (*self == StorageClass::Static),
    {
        *self == StorageClass::Static
    }

    pub fn is_extern(&self) -> (r: bool)
        ensures
            r == (*self == StorageClass::Extern),
    {
        *self == StorageClass::Extern
    }

    pub fn is_none(&self) -> (r: bool)
        ensures
            r == (*self == StorageClass::Unspecified),
    {
        *self == StorageClass::Unspecified
    }
}

/// A name: the text used in the generated code, and the name as the source
/// wrote it.
#[derive(Debug)]
pub struct Identifier(pub String, pub String);

impl View for Identifier {
    type V = (Seq<char>, Seq<char>);

    open spec fn view(&self) -> (Seq<char>, Seq<char>) {
        (self.0@, self.1@)
    }
}

impl Clone for Identifier {
    fn clone(&self) -> (r: Self)
        ensures
            r == *self,
    {
        Identifier(self.0.clone(), self.1.clone())
    }
}

impl PartialEq for Identifier {
    fn eq(&self, other: &Self) -> (r: bool) {
        self.0 == other.0 && self.1 == other.1
    }
}

impl vstd::std_specs::cmp::PartialEqSpecImpl for Identifier {
    open spec fn obeys_eq_spec() -> bool {
        true
    }

    open spec fn eq_spec(&self, other: &Self) -> bool {
        self@ == other@
    }
}

/// The prefix of local assembly labels.
pub open spec fn local_prefix() -> Seq<char> {
    ".L_"@
}

/// Whether `s` is four letters from `a` to `y`.
pub open spec fn is_random_suffix(s: Seq<char>) -> bool {
    s.len() == 4 && forall|k: int| 0 <= k < 4 ==> 'a' <= #[trigger] s[k] < 'z'
}

impl Identifier {
    /// Four random letters from `a` to `y`.
    fn rand() -> (s: String)
        ensures
            is_random_suffix(s@),
    {
        let mut s = String::new();
        let mut i: usize = 0;
        while i < 4
            invariant
                i <= 4,
                s@.len() == i,
                forall|k: int| 0 <= k < i ==> 'a' <= #[trigger] s@[k] < 'z',
            decreases 4 - i,
        {
            let c = random_lowercase_letter();
            string_push(&mut s, c);
            i = i + 1;
        }
        s
    }

    /// A fresh name for something the compiler introduces: a local label
    /// made of `name` and four random letters.
    pub fn new(name: &str) -> (r: Self)
        ensures
            r.1@ == name@,
            exists|s: Seq<char>| is_random_suffix(s) && r.0@ == local_prefix() + name@ + "__"@ + s,
    {
        let mut s = string_of(".L_");
        push_str(&mut s, name);
        push_str(&mut s, "__");
        let suffix = Self::rand();
        push_string(&mut s, &suffix);
        Self(s, string_of(name))
    }

    /// A name used as written.
    pub fn new_raw(name: &str) -> (r: Self)
        ensures
            r.0@ == name@,
            r.1@ == name@,
    {
        Self(string_of(name), string_of(name))
    }

    /// The name turned into a local label.
    pub fn local(&self) -> (r: Self)
        ensures
            r.0@ == local_prefix() + self.0@,
            r.1@ == self.1@,
    {
        let mut s = string_of(".L_");
        push_string(&mut s, &self.0);
        Self(s, self.1.clone())
    }

    /// The name with `suffix` appended to its generated text.
    pub fn with_suffix(&self, suffix: &str) -> (r: Self)
        ensures
            r.0@ == self.0@ + suffix@,
            r.1@ == self.1@,
    {
        let mut s = self.0.clone();
        push_str(&mut s, suffix);
        Self(s, self.1.clone())
    }

    pub fn _start(&self) -> (r: Self)
        ensures
            r.0@ == self.0@ + "_start"@,
            r.1@ == self.1@,
    {
        self.with_suffix("_start")
    }

    pub fn _break(&self) -> (r: Self)
        ensures
            r.0@ == self.0@ + "_break"@,
            r.1@ == self.1@,
    {
        self.with_suffix("_break")
    }

    pub fn _continue(&self) -> (r: Self)
        ensures
            r.0@ == self.0@ + "_continue"@,
            r.1@ == self.1@,
    {
        self.with_suffix("_continue")
    }

    /// The placeholder that `break` and `continue` carry until loops are labelled.
    pub fn dummy() -> (r: Self)
        ensures
            r.0@ == "DUMMY_IDENTIFIER__SHOULD_NOT_APPEAR_IN_OUTPUT"@,
            r.1@ == Seq::<char>::empty(),
    {
        Self(string_of("DUMMY_IDENTIFIER__SHOULD_NOT_APPEAR_IN_OUTPUT"), String::new())
    }
}

#[derive(Debug)]
pub enum BlockItem {
    Stmt(Statement),
    Decl(Declaration),
}

#[derive(Debug)]
pub struct Statement {
    pub kind: StmtKind,
    pub span: Span,
}

impl Statement {
    pub fn new(kind: StmtKind, span: Span) -> (s: Self)
        ensures
            s.kind == kind,
            s.span == span,
    {
        Self { kind, span }
    }
}

#[derive(Debug)]
pub enum StmtKind {
    Return(Expression),
    Expression(Expression),
    If { cond: Expression, then: Box<Statement>, else_: Option<Box<Statement>> },
    Null,
    Goto(Identifier),
    Label(Identifier, Box<Statement>),
    Compound(Block),
    Break(Identifier),
    Continue(Identifier),
    While { cond: Expression, body: Box<Statement>, label: Identifier },
    DoWhile { body: Box<Statement>, cond: Expression, label: Identifier },
    For {
        init: ForInit,
        condition: Option<Expression>,
        post: Option<Expression>,
        body: Box<Statement>,
        label: Identifier,
    },
    Switch(Switch),
    Case {
        value: Constant,
        label: Identifier,
        /// span excluding stmt
        header_span: Span,
        stmt: Box<Statement>,
    },
    DefaultCase { label: Identifier, header_span: Span, stmt: Box<Statement> },
}

/// A switch statement with the cases found in its body.
#[derive(Debug)]
pub struct Switch {
    pub value: Expression,
    pub body: Box<Statement>,
    pub label: Identifier,
    /// The case values seen, each once.
    pub case_set: Vec<Constant>,
    pub cases: Vec<SwitchCase>,
    pub default_case: Option<Identifier>,
}

pub type SwitchCase = (Identifier, Constant);

#[derive(Debug)]
pub enum ForInit {
    Decl(VariableDeclaration),
    Expr(Expression),
    Empty,
}

#[derive(Debug)]
pub enum ExprKind {
    Var(Identifier),
    Constant(Constant),
    Cast { target_type: Type, expr: Box<Expression> },
    Unary { operator: UnaryOperator, expr: Box<Expression> },
    Binary { operator: BinaryOperator, lhs: Box<Expression>, rhs: Box<Expression> },
    CompoundAssign { operator: BinaryOperator, lhs: Box<Expression>, rhs: Box<Expression> },
    Assignment(Box<Expression>, Box<Expression>),
    Prefix(IncDec, Box<Expression>),
    Postfix(IncDec, Box<Expression>),
    Conditional(Box<Expression>, Box<Expression>, Box<Expression>),
    FunctionCall { name: Identifier, args: Vec<Expression> },
}

#[derive(Debug)]
pub struct Expression {
    pub ty: Type,
    pub kind: ExprKind,
    pub span: Span,
}

impl Expression {
    pub fn new(kind: ExprKind, span: Span) -> (e: Self)
        ensures
            e.kind == kind,
            e.span == span,
            e.ty is Int,
    {
        Self { kind, span, ty: Type::Int }
    }

    pub fn is_var(&self) -> (r: bool)
        ensures
            r == (self.kind is Var),
    {
        match &self.kind {
            ExprKind::Var(_) => true,
            _ => false,
        }
    }

    pub fn as_var(&self) -> (r: Option<&Identifier>)
        ensures
            match self.kind {
                ExprKind::Var(i) => r == Some(&i),
                _ => r is None,
            },
    {
        match &self.kind {
            ExprKind::Var(i) => Some(i),
            _ => None,
        }
    }
}

/// An integer constant.
#[derive(Debug, PartialEq, Eq, Hash, Clone, Copy, Structural)]
pub enum Constant {
    Int(i32),
    Long(i64),
}

/// The kind of a constant.
#[derive(Debug, PartialEq, Eq, Hash, Clone, Copy, Structural)]
pub enum ConstantType {
    Int,
    Long,
}

/// The value of a constant.
pub open spec fn constant_value(c: Constant) -> int {
    match c {
        Constant::Int(i) => i as int,
        Constant::Long(l) => l as int,
    }
}

pub open spec fn constant_type(c: Constant) -> ConstantType {
    match c {
        Constant::Int(_) => ConstantType::Int,
        Constant::Long(_) => ConstantType::Long,
    }
}

/// Converting a constant to a kind: sign extension to `long`, truncation to `int`.
pub open spec fn spec_cast(c: Constant, ty: ConstantType) -> Constant {
    match (c, ty) {
        (Constant::Int(i), ConstantType::Long) => Constant::Long(i as i64),
        (Constant::Long(l), ConstantType::Int) => Constant::Int(l as i32),
        _ => c,
    }
}

impl Constant {
    pub fn i64(&self) -> (r: i64)
        ensures
            r == constant_value(*self),
    {
        match self {
            Constant::Int(i) => *i as i64,
            Constant::Long(l) => *l,
        }
    }

    pub fn size_bytes(&self) -> (r: usize)
        ensures
            r == (if *self is Int { 4usize } else { 8usize }),
    {
        match self {
            Constant::Int(_) => 4,
            Constant::Long(_) => 8,
        }
    }

    pub fn is_zero(&self) -> (r: bool)
        ensures
            r == (constant_value(*self) == 0),
    {
        match self {
            Constant::Int(i) => *i == 0,
            Constant::Long(l) => *l == 0,
        }
    }

    pub fn from_int(i: i32, ty: ConstantType) -> (c: Self)
        ensures
            constant_value(c) == i,
            constant_type(c) == ty,
    {
        match ty {
            ConstantType::Int => Constant::Int(i),
            ConstantType::Long => Constant::Long(i as i64),
        }
    }

    pub fn discriminant(&self) -> (t: ConstantType)
        ensures
            t == constant_type(*self),
    {
        match self {
            Constant::Int(_) => ConstantType::Int,
            Constant::Long(_) => ConstantType::Long,
        }
    }

    /// Both constants converted to a common kind: unchanged when they are of
    /// one kind, both widened to `long` otherwise.
    pub fn to_common_pair(self, other: Self) -> (r: (Self, Self))
        ensures
            r == (if constant_type(self) == constant_type(other) {
                (self, other)
            } else {
                (spec_cast(self, ConstantType::Long), spec_cast(other, ConstantType::Long))
            }),
    {
        if self.discriminant() == other.discriminant() {
            (self, other)
        } else {
            (self.cast_long(), other.cast_long())
        }
    }

    pub fn cast_long(self) -> (r: Self)
        ensures
            r == spec_cast(self, ConstantType::Long),
    {
        self.cast(ConstantType::Long)
    }

    pub fn cast(self, const_ty: ConstantType) -> (r: Constant)
        ensures
            r == spec_cast(self, const_ty),
    {
        match (self, const_ty) {
            (Constant::Int(i), ConstantType::Long) => Constant::Long(i as i64),
            (Constant::Long(l), ConstantType::Int) => Constant::Int(l as i32),
            (Constant::Int(_), ConstantType::Int) | (Constant::Long(_), ConstantType::Long) => self,
        }
    }

    pub fn ty(&self) -> (t: Type)
        ensures
            t is Int <==> *self is Int,
            t is Long <==> *self is Long,
    {
        match self {
            Constant::Int(_) => Type::Int,
            Constant::Long(_) => Type::Long,
        }
    }
}

/// The common pair of two constants is of one kind, and keeps their values.
pub proof fn lemma_common_pair(a: Constant, b: Constant)
    ensures
        ({
            let (x, y) = if constant_type(a) == constant_type(b) {
                (a, b)
            } else {
                (spec_cast(a, ConstantType::Long), spec_cast(b, ConstantType::Long))
            };
            &&& constant_type(x) == constant_type(y)
            &&& constant_value(x) == constant_value(a)
            &&& constant_value(y) == constant_value(b)
        }),
{
}

/// Widening a constant to `long` and narrowing it back gives an `int` back.
pub proof fn lemma_cast_roundtrip(c: Constant)
    requires
        c is Int,
    ensures
        spec_cast(spec_cast(c, ConstantType::Long), ConstantType::Int) == c,
{
    if let Constant::Int(i) = c {
        assert((i as i64) as i32 == i) by (bit_vector);
    }
}

} // verus!
