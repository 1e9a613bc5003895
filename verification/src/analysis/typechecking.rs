//! Types of expressions and declarations, and the symbol table that
//! type checking builds.
use vstd::prelude::*;
use crate::parser::{Constant, ConstantType};
use crate::codegen::AssemblyType;
use crate::text::push_str;

verus! {

/// The type of an expression, a variable or a function.
#[derive(Debug)]
pub enum Type {
    Int,
    Long,
    Function(Box<FunctionType>),
}

/// The signature of a function, and whether a definition has been seen.
#[derive(Debug)]
pub struct FunctionType {
    pub parameters: Vec<Type>,
    pub defined: bool,
    pub return_type: Type,
}

/// The mathematical value of a type.
pub enum TypeView {
    Int,
    Long,
    Function { parameters: Seq<TypeView>, defined: bool, return_type: Box<TypeView> },
}

/// The value of a type, with function signatures read through their vectors.
pub open spec fn type_view(t: Type) -> TypeView
    decreases t,
{
    match t {
        Type::Int => TypeView::Int,
        Type::Long => TypeView::Long,
        Type::Function(f) => {
            let ps = f.parameters@;
            TypeView::Function {
                parameters: Seq::new(
                    ps.len(),
                    |i: int|
                        {
                            if 0 <= i < ps.len() {
                                proof {
                                    broadcast use vstd::std_specs::vec::axiom_vec_decreases_to_view;

                                    assert(decreases_to!(f.parameters => ps));
                                    assert(decreases_to!(t => ps[i]));
                                }
                                type_view(ps[i])
                            } else {
                                TypeView::Int
                            }
                        },
                ),
                defined: f.defined,
                return_type: Box::new(type_view(f.return_type)),
            }
        },
    }
}

impl View for Type {
    type V = TypeView;

    open spec fn view(&self) -> TypeView {
        type_view(*self)
    }
}

/// The values of a sequence of types.
pub open spec fn types_view(ts: Seq<Type>) -> Seq<TypeView> {
    Seq::new(ts.len(), |i: int| ts[i]@)
}

impl View for FunctionType {
    type V = TypeView;

    open spec fn view(&self) -> TypeView {
        TypeView::Function {
            parameters: types_view(self.parameters@),
            defined: self.defined,
            return_type: Box::new(self.return_type@),
        }
    }
}

pub proof fn lemma_function_view(f: Box<FunctionType>)
    ensures
        Type::Function(f)@ == (*f)@,
{
    assert(types_view(f.parameters@) =~= match Type::Function(f)@ {
        TypeView::Function { parameters, .. } => parameters,
        _ => Seq::empty(),
    });
}

/// Copies a type.
pub fn clone_type(t: &Type) -> (r: Type)
    ensures
        r@ == t@,
    decreases t,
{
    match t {
        Type::Int => Type::Int,
        Type::Long => Type::Long,
        Type::Function(f) => {
            let g = clone_function_type(f);
            proof {
                lemma_function_view(Box::new(g));
                lemma_function_view(*f);
            }
            Type::Function(Box::new(g))
        },
    }
}

/// Copies a function signature.
pub fn clone_function_type(f: &FunctionType) -> (r: FunctionType)
    ensures
        r@ == f@,
    decreases f,
{
    let mut parameters: Vec<Type> = Vec::new();
    let mut i: usize = 0;
    while i < f.parameters.len()
        invariant
            i <= f.parameters@.len(),
            parameters@.len() == i,
            forall|k: int| 0 <= k < i ==> (#[trigger] parameters@[k])@ == f.parameters@[k]@,
        decreases f.parameters@.len() - i,
    {
        proof {
            broadcast use vstd::std_specs::vec::axiom_vec_decreases_to_view;
            assert(decreases_to!(f => f.parameters@[i as int]));
        }
        let p = clone_type(&f.parameters[i]);
        parameters.push(p);
        i = i + 1;
    }
    let return_type = clone_type(&f.return_type);
    let r = FunctionType { parameters, defined: f.defined, return_type };
    proof {
        assert(types_view(r.parameters@) =~= types_view(f.parameters@));
    }
    r
}

/// Whether two types are the same.
pub fn same_type(a: &Type, b: &Type) -> (r: bool)
    ensures
        r == (a@ == b@),
    decreases a,
{
    match (a, b) {
        (Type::Int, Type::Int) => true,
        (Type::Long, Type::Long) => true,
        (Type::Function(f), Type::Function(g)) => {
            proof {
                lemma_function_view(*f);
                lemma_function_view(*g);
            }
            if f.defined != g.defined {
                return false;
            }
            if f.parameters.len() != g.parameters.len() {
                proof {
                    assert(types_view(f.parameters@).len() != types_view(g.parameters@).len());
                }
                return false;
            }
            let mut i: usize = 0;
            while i < f.parameters.len()
                invariant
                    i <= f.parameters@.len(),
                    f.parameters@.len() == g.parameters@.len(),
                    a@ == (**f)@,
                    b@ == (**g)@,
                    *a == Type::Function(*f),
                    forall|k: int| 0 <= k < i ==> (#[trigger] f.parameters@[k])@ == g.parameters@[k]@,
                decreases f.parameters@.len() - i,
            {
                proof {
                    broadcast use vstd::std_specs::vec::axiom_vec_decreases_to_view;
                    assert(decreases_to!(f.parameters => f.parameters@));
                    assert(decreases_to!(*a => f.parameters@[i as int]));
                }
                if !same_type(&f.parameters[i], &g.parameters[i]) {
                    proof {
                        assert(types_view(f.parameters@)[i as int] != types_view(g.parameters@)[i as int]);
                    }
                    return false;
                }
                i = i + 1;
            }
            proof {
                assert(types_view(f.parameters@) =~= types_view(g.parameters@));
            }
            proof {
                assert(decreases_to!(*a => f.return_type));
            }
            same_type(&f.return_type, &g.return_type)
        },
        _ => false,
    }
}

/// Whether two lists of types are the same.
pub fn same_types(a: &Vec<Type>, b: &Vec<Type>) -> (r: bool)
    ensures
        r == (types_view(a@) == types_view(b@)),
{
    if a.len() != b.len() {
        proof {
            assert(types_view(a@).len() != types_view(b@).len());
        }
        return false;
    }
    let mut i: usize = 0;
    while i < a.len()
        invariant
            i <= a@.len(),
            a@.len() == b@.len(),
            forall|k: int| 0 <= k < i ==> (#[trigger] a@[k])@ == b@[k]@,
        decreases a@.len() - i,
    {
        if !same_type(&a[i], &b[i]) {
            proof {
                assert(types_view(a@)[i as int] != types_view(b@)[i as int]);
            }
            return false;
        }
        i = i + 1;
    }
    proof {
        assert(types_view(a@) =~= types_view(b@));
    }
    true
}

impl Type {
    pub fn alignment(&self) -> (r: u32)
        ensures
            r == (match self {
                Type::Int => 4u32,
                Type::Long => 8u32,
                Type::Function(_) => 8u32,
            }),
    {
        match self {
            Type::Int => 4,
            Type::Long => 8,
            Type::Function(_) => 8,
        }
    }

    pub fn to_constant(&self) -> (r: Option<ConstantType>)
        ensures
            r == spec_type_to_constant(*self),
    {
        match self {
            Type::Int => Some(ConstantType::Int),
            Type::Long => Some(ConstantType::Long),
            _ => None,
        }
    }

    pub fn to_asm_type(&self) -> (r: Option<AssemblyType>)
        ensures
            r == spec_type_to_asm(*self),
    {
        match self {
            Type::Int => Some(AssemblyType::Longword),
            Type::Long => Some(AssemblyType::Quadword),
            _ => None,
        }
    }

    pub fn is_int(&self) -> (r: bool)
        ensures
            r == (*self is Int),
    {
        match self {
            Type::Int => true,
            _ => false,
        }
    }

    pub fn is_long(&self) -> (r: bool)
        ensures
            r == (*self is Long),
    {
        match self {
            Type::Long => true,
            _ => false,
        }
    }

    pub fn is_function(&self) -> (r: bool)
        ensures
            r == (*self is Function),
    {
        match self {
            Type::Function(_) => true,
            _ => false,
        }
    }

    /// The type as C writes it in messages: `int`, `long`, or a function
    /// type written `int(int, ...)` with one `int` per parameter.
    pub fn text(&self) -> (s: String)
        ensures
            s@ == type_text(*self),
    {
        match self {
            Type::Int => crate::text::string_of("int"),
            Type::Long => crate::text::string_of("long"),
            Type::Function(f) => arity_text(f.num_parameters()),
        }
    }
}

/// The text of the type of a function of `n` `int` parameters.
pub open spec fn type_text_of_arity(n: nat) -> Seq<char> {
    "int("@ + int_list_text(n) + ")"@
}

/// Writes the type of a function of `n` `int` parameters.
pub fn arity_text(n: usize) -> (s: String)
    ensures
        s@ == type_text_of_arity(n as nat),
{
    let mut s = crate::text::string_of("int(");
    let mut i: usize = 0;
    while i < n
        invariant
            i <= n,
            s@ == "int("@ + int_list_text(i as nat),
        decreases n - i,
    {
        if i == 0 {
            push_str(&mut s, "int");
        } else {
            push_str(&mut s, ", int");
        }
        proof {
            assert(int_list_text((i + 1) as nat) == int_list_text(i as nat) + (if i == 0 { "int"@ } else { ", int"@ }));
        }
        i = i + 1;
    }
    push_str(&mut s, ")");
    s
}

/// `int, int, ..., int` with `n` entries.
pub open spec fn int_list_text(n: nat) -> Seq<char>
    decreases n,
{
    if n == 0 {
        Seq::empty()
    } else if n == 1 {
        "int"@
    } else {
        int_list_text((n - 1) as nat) + ", int"@
    }
}

pub open spec fn type_text(t: Type) -> Seq<char> {
    match t {
        Type::Int => "int"@,
        Type::Long => "long"@,
        Type::Function(f) => "int("@ + int_list_text(f.parameters@.len()) + ")"@,
    }
}

pub open spec fn spec_type_to_constant(t: Type) -> Option<ConstantType> {
    match t {
        Type::Int => Some(ConstantType::Int),
        Type::Long => Some(ConstantType::Long),
        _ => None,
    }
}

pub open spec fn spec_type_to_asm(t: Type) -> Option<AssemblyType> {
    match t {
        Type::Int => Some(AssemblyType::Longword),
        Type::Long => Some(AssemblyType::Quadword),
        _ => None,
    }
}

/// What the symbol table records of a name besides its type.
#[derive(Clone, Copy, Debug, PartialEq, Eq, Structural)]
pub enum IdentifierAttributes {
    Function { defined: bool, global: bool },
    Static { init: InitialValue, global: bool },
    Local,
}

impl IdentifierAttributes {
    pub fn global(&self) -> (r: bool)
        ensures
            r == spec_global(*self),
    {
        match self {
            IdentifierAttributes::Function { global, .. } => *global,
            IdentifierAttributes::Static { global, .. } => *global,
            IdentifierAttributes::Local => false,
        }
    }

    pub fn initial_value(&self) -> (r: Option<InitialValue>)
        ensures
            r == (match *self {
                IdentifierAttributes::Static { init, .. } => Some(init),
                _ => None,
            }),
    {
        match self {
            IdentifierAttributes::Function { .. } => None,
            IdentifierAttributes::Static { init, .. } => Some(*init),
            IdentifierAttributes::Local => None,
        }
    }

    pub fn is_static(&self) -> (r: bool)
        ensures
            r == (*self is Static),
    {
        match self {
            IdentifierAttributes::Static { .. } => true,
            _ => false,
        }
    }
}

pub open spec fn spec_global(a: IdentifierAttributes) -> bool {
    match a {
        IdentifierAttributes::Function { global, .. } => global,
        IdentifierAttributes::Static { global, .. } => global,
        IdentifierAttributes::Local => false,
    }
}

/// How a variable of static storage duration is initialized.
#[derive(Clone, Copy, Debug, PartialEq, Eq, Structural)]
pub enum InitialValue {
    Tentitive,
    Constant(StaticInit),
    NoInitializer,
}

impl InitialValue {
    pub fn is_constant(&self) -> (r: bool)
        ensures
            r == (*self is Constant),
    {
        match self {
            InitialValue::Constant(_) => true,
            _ => false,
        }
    }

    pub fn is_tentitive(&self) -> (r: bool)
        ensures
            r == (*self is Tentitive),
    {
        match self {
            InitialValue::Tentitive => true,
            _ => false,
        }
    }
}

/// The initial value of a variable of static storage duration.
#[derive(Clone, Copy, Debug, PartialEq, Eq, Structural)]
pub enum StaticInit {
    Int(i32),
    Long(i64),
}

/// The kind of a `StaticInit`.
#[derive(Clone, Copy, Debug, PartialEq, Eq, Structural)]
pub enum StaticIntType {
    Int,
    Long,
}

impl StaticInit {
    pub fn size_bytes(&self) -> (r: usize)
        ensures
            r == (if *self is Int { 4usize } else { 8usize }),
    {
        match self {
            StaticInit::Int(_) => 4,
            StaticInit::Long(_) => 8,
        }
    }

    pub fn is_zero(&self) -> (r: bool)
        ensures
            r == (spec_static_value(*self) == 0),
    {
        match self {
            StaticInit::Int(i) => *i == 0,
            StaticInit::Long(l) => *l == 0,
        }
    }

    pub fn from_constant(constant: &Constant) -> (r: Option<Self>)
        ensures
            r == Some(spec_static_from_constant(*constant)),
    {
        match constant {
            Constant::Int(i) => Some(StaticInit::Int(*i)),
            Constant::Long(l) => Some(StaticInit::Long(*l)),
        }
    }

    pub fn to_constant(&self) -> (r: Constant)
        ensures
            r == spec_static_to_constant(*self),
    {
        match self {
            StaticInit::Int(i) => Constant::Int(*i),
            StaticInit::Long(l) => Constant::Long(*l),
        }
    }

    /// Converts the value to the given width, as C converts between `int`
    /// and `long`: sign extension upwards, truncation downwards.
    pub fn cast(self, ty: StaticIntType) -> (r: Self)
        ensures
            r == spec_static_cast(self, ty),
    {
        match (self, ty) {
            (StaticInit::Int(i), StaticIntType::Int) => StaticInit::Int(i),
            (StaticInit::Int(i), StaticIntType::Long) => StaticInit::Long(i as i64),
            (StaticInit::Long(l), StaticIntType::Int) => StaticInit::Int(l as i32),
            (StaticInit::Long(l), StaticIntType::Long) => StaticInit::Long(l),
        }
    }
}

pub open spec fn spec_static_value(s: StaticInit) -> int {
    match s {
        StaticInit::Int(i) => i as int,
        StaticInit::Long(l) => l as int,
    }
}

pub open spec fn spec_static_from_constant(c: Constant) -> StaticInit {
    match c {
        Constant::Int(i) => StaticInit::Int(i),
        Constant::Long(l) => StaticInit::Long(l),
    }
}

pub open spec fn spec_static_to_constant(s: StaticInit) -> Constant {
    match s {
        StaticInit::Int(i) => Constant::Int(i),
        StaticInit::Long(l) => Constant::Long(l),
    }
}

pub open spec fn spec_static_cast(s: StaticInit, ty: StaticIntType) -> StaticInit {
    match (s, ty) {
        (StaticInit::Int(i), StaticIntType::Int) => StaticInit::Int(i),
        (StaticInit::Int(i), StaticIntType::Long) => StaticInit::Long(i as i64),
        (StaticInit::Long(l), StaticIntType::Int) => StaticInit::Int(l as i32),
        (StaticInit::Long(l), StaticIntType::Long) => StaticInit::Long(l),
    }
}

/// Converting a constant to a static initializer and back gives the constant.
pub proof fn lemma_static_init_roundtrip(c: Constant)
    ensures
        spec_static_to_constant(spec_static_from_constant(c)) == c,
        spec_static_from_constant(spec_static_to_constant(spec_static_from_constant(c))) == spec_static_from_constant(c),
{
}

/// Widening an `int` initializer to `long` and narrowing it back gives it back.
pub proof fn lemma_static_cast_roundtrip(i: i32)
    ensures
        spec_static_cast(spec_static_cast(StaticInit::Int(i), StaticIntType::Long), StaticIntType::Int) == StaticInit::Int(i),
{
    assert((i as i64) as i32 == i) by (bit_vector);
}

/// What the symbol table records of a name.
#[derive(Debug)]
pub struct Symbol {
    pub attributes: IdentifierAttributes,
    pub ty: Type,
}

impl FunctionType {
    pub fn num_parameters(&self) -> (r: usize)
        ensures
            r == self.parameters@.len(),
    {
        self.parameters.len()
    }
}

} // verus!
