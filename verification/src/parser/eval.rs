//! Evaluation of constant expressions, with C's integer semantics.
use vstd::prelude::*;
use crate::analysis::Type;
use crate::parser::ast::{Constant, ConstantType, ExprKind, Expression, constant_type, spec_cast};
use crate::parser::operators::{BinaryOperator, UnaryOperator, spec_is_compound_assign};

verus! {

/// An expression built from constants alone.
pub enum ConstExpr {
    Constant(Constant),
    Unary { operator: UnaryOperator, expr: Box<ConstExpr> },
    Binary { operator: BinaryOperator, lhs: Box<ConstExpr>, rhs: Box<ConstExpr> },
    Conditional(Box<ConstExpr>, Box<ConstExpr>, Box<ConstExpr>),
    Cast { target_type: ConstantType, expr: Box<ConstExpr> },
}

pub open spec fn abs(x: int) -> int {
    if x < 0 { -x } else { x }
}

/// Division rounding toward zero.
pub open spec fn trunc_div(a: int, b: int) -> int {
    if (a < 0) == (b < 0) { abs(a) / abs(b) } else { -(abs(a) / abs(b)) }
}

/// The remainder of division rounding toward zero: it has the sign of `a`.
pub open spec fn trunc_rem(a: int, b: int) -> int {
    if a < 0 { -(abs(a) % abs(b)) } else { abs(a) % abs(b) }
}

/// `1` or `0` as an `int` constant.
pub open spec fn bool_int(b: bool) -> Constant {
    Constant::Int(if b { 1 } else { 0 })
}

/// Whether a value fits in a constant of kind `ty`.
pub open spec fn fits(v: int, ty: ConstantType) -> bool {
    match ty {
        ConstantType::Int => i32::MIN <= v <= i32::MAX,
        ConstantType::Long => i64::MIN <= v <= i64::MAX,
    }
}

/// The value of `+ - * / %` on two integers.
pub open spec fn arith(op: BinaryOperator, x: int, y: int) -> int {
    match op {
        BinaryOperator::Add => x + y,
        BinaryOperator::Subtract => x - y,
        BinaryOperator::Multiply => x * y,
        BinaryOperator::Divide => trunc_div(x, y),
        _ => trunc_rem(x, y),
    }
}

pub open spec fn is_arith(op: BinaryOperator) -> bool {
    op == BinaryOperator::Add || op == BinaryOperator::Subtract || op == BinaryOperator::Multiply
        || op == BinaryOperator::Divide || op == BinaryOperator::Remainder
}

/// The value of a comparison or logical operator on two integers.
pub open spec fn relation(op: BinaryOperator, x: int, y: int) -> bool {
    match op {
        BinaryOperator::And => x != 0 && y != 0,
        BinaryOperator::Or => x != 0 || y != 0,
        BinaryOperator::Equal => x == y,
        BinaryOperator::NotEqual => x != y,
        BinaryOperator::LessThan => x < y,
        BinaryOperator::LessEqual => x <= y,
        BinaryOperator::GreaterThan => x > y,
        _ => x >= y,
    }
}

pub open spec fn is_relation(op: BinaryOperator) -> bool {
    op == BinaryOperator::And || op == BinaryOperator::Or || op == BinaryOperator::Equal
        || op == BinaryOperator::NotEqual || op == BinaryOperator::LessThan || op == BinaryOperator::LessEqual
        || op == BinaryOperator::GreaterThan || op == BinaryOperator::GreaterEqual
}

/// Whether a unary operator can be applied without overflow.
pub open spec fn unary_defined(op: UnaryOperator, c: Constant) -> bool {
    op == UnaryOperator::Negate ==> match c {
        Constant::Int(n) => n != i32::MIN,
        Constant::Long(n) => n != i64::MIN,
    }
}

pub open spec fn unary_value(op: UnaryOperator, c: Constant) -> Constant {
    match c {
        Constant::Int(n) => match op {
            UnaryOperator::BitwiseNot => Constant::Int(!n),
            UnaryOperator::Not => bool_int(n == 0),
            UnaryOperator::Negate => Constant::Int((-n) as i32),
        },
        Constant::Long(n) => match op {
            UnaryOperator::BitwiseNot => Constant::Long(!n),
            UnaryOperator::Not => bool_int(n == 0),
            UnaryOperator::Negate => Constant::Long((-n) as i64),
        },
    }
}

/// Whether a binary operator can be applied to two constants of one kind:
/// no assignment, no overflow, no division by zero, no shift out of range.
pub open spec fn binary_defined(op: BinaryOperator, a: Constant, b: Constant) -> bool {
    match (a, b) {
        (Constant::Int(x), Constant::Int(y)) => {
            &&& is_arith(op) || is_relation(op) || op == BinaryOperator::BitwiseAnd || op == BinaryOperator::BitwiseXor
                || op == BinaryOperator::BitwiseOr || op == BinaryOperator::LeftShift || op == BinaryOperator::RightShift
            &&& (op == BinaryOperator::Divide || op == BinaryOperator::Remainder) ==> y != 0 && fits(trunc_div(x as int, y as int), ConstantType::Int)
            &&& is_arith(op) ==> fits(arith(op, x as int, y as int), ConstantType::Int)
            &&& (op == BinaryOperator::LeftShift || op == BinaryOperator::RightShift) ==> 0 <= y < 32
        },
        (Constant::Long(x), Constant::Long(y)) => {
            &&& is_arith(op) || is_relation(op) || op == BinaryOperator::BitwiseAnd || op == BinaryOperator::BitwiseXor
                || op == BinaryOperator::BitwiseOr || op == BinaryOperator::LeftShift || op == BinaryOperator::RightShift
            &&& (op == BinaryOperator::Divide || op == BinaryOperator::Remainder) ==> y != 0 && fits(trunc_div(x as int, y as int), ConstantType::Long)
            &&& is_arith(op) ==> fits(arith(op, x as int, y as int), ConstantType::Long)
            &&& (op == BinaryOperator::LeftShift || op == BinaryOperator::RightShift) ==> 0 <= y < 64
        },
        _ => false,
    }
}

pub open spec fn binary_value(op: BinaryOperator, a: Constant, b: Constant) -> Constant {
    match (a, b) {
        (Constant::Int(x), Constant::Int(y)) => {
            if is_arith(op) {
                Constant::Int(arith(op, x as int, y as int) as i32)
            } else if is_relation(op) {
                bool_int(relation(op, x as int, y as int))
            } else {
                match op {
                    BinaryOperator::BitwiseAnd => Constant::Int(x & y),
                    BinaryOperator::BitwiseXor => Constant::Int(x ^ y),
                    BinaryOperator::BitwiseOr => Constant::Int(x | y),
                    BinaryOperator::LeftShift => Constant::Int(x << y),
                    _ => Constant::Int(x >> y),
                }
            }
        },
        (Constant::Long(x), Constant::Long(y)) => {
            if is_arith(op) {
                Constant::Long(arith(op, x as int, y as int) as i64)
            } else if is_relation(op) {
                bool_int(relation(op, x as int, y as int))
            } else {
                match op {
                    BinaryOperator::BitwiseAnd => Constant::Long(x & y),
                    BinaryOperator::BitwiseXor => Constant::Long(x ^ y),
                    BinaryOperator::BitwiseOr => Constant::Long(x | y),
                    BinaryOperator::LeftShift => Constant::Long(x << y),
                    _ => Constant::Long(x >> y),
                }
            }
        },
        _ => a,
    }
}

/// Both constants brought to a common kind.
pub open spec fn common_pair(a: Constant, b: Constant) -> (Constant, Constant) {
    if constant_type(a) == constant_type(b) {
        (a, b)
    } else {
        (spec_cast(a, ConstantType::Long), spec_cast(b, ConstantType::Long))
    }
}

pub open spec fn is_zero_constant(c: Constant) -> bool {
    match c {
        Constant::Int(n) => n == 0,
        Constant::Long(n) => n == 0,
    }
}

/// The value of a constant expression.
pub open spec fn const_value(e: ConstExpr) -> Constant
    decreases e,
{
    match e {
        ConstExpr::Constant(c) => c,
        ConstExpr::Unary { operator, expr } => unary_value(operator, const_value(*expr)),
        ConstExpr::Cast { target_type, expr } => spec_cast(const_value(*expr), target_type),
        ConstExpr::Binary { operator, lhs, rhs } => {
            let (a, b) = common_pair(const_value(*lhs), const_value(*rhs));
            binary_value(operator, a, b)
        },
        ConstExpr::Conditional(c, t, f) => {
            if is_zero_constant(const_value(*c)) {
                const_value(*f)
            } else {
                const_value(*t)
            }
        },
    }
}

/// Whether evaluating a constant expression meets no overflow, division by
/// zero or shift out of range (only the branch taken by `?:` counts).
pub open spec fn const_defined(e: ConstExpr) -> bool
    decreases e,
{
    match e {
        ConstExpr::Constant(_) => true,
        ConstExpr::Unary { operator, expr } => const_defined(*expr) && unary_defined(operator, const_value(*expr)),
        ConstExpr::Cast { target_type, expr } => const_defined(*expr),
        ConstExpr::Binary { operator, lhs, rhs } => {
            let (a, b) = common_pair(const_value(*lhs), const_value(*rhs));
            const_defined(*lhs) && const_defined(*rhs) && binary_defined(operator, a, b)
        },
        ConstExpr::Conditional(c, t, f) => {
            &&& const_defined(*c)
            &&& if is_zero_constant(const_value(*c)) { const_defined(*f) } else { const_defined(*t) }
        },
    }
}

/// Division and remainder rounding toward zero.
fn div_rem(a: i64, b: i64) -> (r: (i64, i64))
    requires
        b != 0,
        fits(trunc_div(a as int, b as int), ConstantType::Long),
    ensures
        r.0 == trunc_div(a as int, b as int),
        r.1 == trunc_rem(a as int, b as int),
{
    let n: i128 = if a < 0 { -(a as i128) } else { a as i128 };
    let d: i128 = if b < 0 { -(b as i128) } else { b as i128 };
    let q0 = n / d;
    let r0 = n % d;
    proof {
        assert(n == abs(a as int) && d == abs(b as int));
        assert(0 <= r0 < d);
        assert(0 <= q0 <= n) by (nonlinear_arith)
            requires
                q0 == n / d,
                d >= 1,
                n >= 0,
        ;
    }
    let q: i128 = if (a < 0) == (b < 0) { q0 } else { -q0 };
    let r: i128 = if a < 0 { -r0 } else { r0 };
    (q as i64, r as i64)
}

fn eval_unary(operator: UnaryOperator, c: Constant) -> (r: Constant)
    requires
        unary_defined(operator, c),
    ensures
        r == unary_value(operator, c),
{
    match c {
        Constant::Int(n) => match operator {
            UnaryOperator::BitwiseNot => Constant::Int(!n),
            UnaryOperator::Not => Constant::Int(if n != 0 { 0 } else { 1 }),
            UnaryOperator::Negate => Constant::Int(-n),
        },
        Constant::Long(n) => match operator {
            UnaryOperator::BitwiseNot => Constant::Long(!n),
            UnaryOperator::Not => Constant::Int(if n != 0 { 0 } else { 1 }),
            UnaryOperator::Negate => Constant::Long(-n),
        },
    }
}

fn bool_constant(b: bool) -> (r: Constant)
    ensures
        r == bool_int(b),
{
    Constant::Int(if b { 1 } else { 0 })
}

fn eval_binary(operator: BinaryOperator, a: Constant, b: Constant) -> (r: Constant)
    requires
        binary_defined(operator, a, b),
    ensures
        r == binary_value(operator, a, b),
{
    match (a, b) {
        (Constant::Int(x), Constant::Int(y)) => match operator {
            BinaryOperator::Add => Constant::Int(x + y),
            BinaryOperator::Subtract => Constant::Int(x - y),
            BinaryOperator::Multiply => Constant::Int(x * y),
            BinaryOperator::Divide => Constant::Int(div_rem(x as i64, y as i64).0 as i32),
            BinaryOperator::Remainder => {
                let r = div_rem(x as i64, y as i64).1;
                proof {
                    assert(abs(r as int) < abs(y as int));
                }
                Constant::Int(r as i32)
            },
            BinaryOperator::BitwiseAnd => Constant::Int(x & y),
            BinaryOperator::BitwiseXor => Constant::Int(x ^ y),
            BinaryOperator::BitwiseOr => Constant::Int(x | y),
            BinaryOperator::LeftShift => Constant::Int(x << y),
            BinaryOperator::RightShift => Constant::Int(x >> y),
            BinaryOperator::And => bool_constant(x != 0 && y != 0),
            BinaryOperator::Or => bool_constant(x != 0 || y != 0),
            BinaryOperator::Equal => bool_constant(x == y),
            BinaryOperator::NotEqual => bool_constant(x != y),
            BinaryOperator::LessThan => bool_constant(x < y),
            BinaryOperator::LessEqual => bool_constant(x <= y),
            BinaryOperator::GreaterThan => bool_constant(x > y),
            _ => bool_constant(x >= y),
        },
        (Constant::Long(x), Constant::Long(y)) => match operator {
            BinaryOperator::Add => Constant::Long(x + y),
            BinaryOperator::Subtract => Constant::Long(x - y),
            BinaryOperator::Multiply => Constant::Long(x * y),
            BinaryOperator::Divide => Constant::Long(div_rem(x, y).0),
            BinaryOperator::Remainder => Constant::Long(div_rem(x, y).1),
            BinaryOperator::BitwiseAnd => Constant::Long(x & y),
            BinaryOperator::BitwiseXor => Constant::Long(x ^ y),
            BinaryOperator::BitwiseOr => Constant::Long(x | y),
            BinaryOperator::LeftShift => Constant::Long(x << y),
            BinaryOperator::RightShift => Constant::Long(x >> y),
            BinaryOperator::And => bool_constant(x != 0 && y != 0),
            BinaryOperator::Or => bool_constant(x != 0 || y != 0),
            BinaryOperator::Equal => bool_constant(x == y),
            BinaryOperator::NotEqual => bool_constant(x != y),
            BinaryOperator::LessThan => bool_constant(x < y),
            BinaryOperator::LessEqual => bool_constant(x <= y),
            BinaryOperator::GreaterThan => bool_constant(x > y),
            _ => bool_constant(x >= y),
        },
        _ => a,
    }
}

impl ConstExpr {
    /// The value of the expression, computed as C computes it.
    pub fn eval(self) -> (r: Constant)
        requires
            const_defined(self),
        ensures
            r == const_value(self),
        decreases self,
    {
        match self {
            ConstExpr::Constant(c) => c,
            ConstExpr::Unary { operator, expr } => {
                let c = expr.eval();
                eval_unary(operator, c)
            },
            ConstExpr::Cast { target_type, expr } => expr.eval().cast(target_type),
            ConstExpr::Binary { operator, lhs, rhs } => {
                let lhs = lhs.eval();
                let rhs = rhs.eval();
                let (a, b) = lhs.to_common_pair(rhs);
                eval_binary(operator, a, b)
            },
            ConstExpr::Conditional(cond, then, else_) => {
                let c = cond.eval();
                if c.is_zero() {
                    else_.eval()
                } else {
                    then.eval()
                }
            },
        }
    }
}

/// The constant expression that an expression is, when it uses no variable,
/// assignment, increment or call.
pub open spec fn spec_to_constant(e: Expression) -> Option<ConstExpr>
    decreases e,
{
    match e.kind {
        ExprKind::Constant(c) => Some(ConstExpr::Constant(c)),
        ExprKind::Cast { target_type, expr } => {
            match spec_to_constant(*expr) {
                Some(inner) => match target_type {
                    Type::Int => Some(ConstExpr::Cast { target_type: ConstantType::Int, expr: Box::new(inner) }),
                    Type::Long => Some(ConstExpr::Cast { target_type: ConstantType::Long, expr: Box::new(inner) }),
                    _ => None,
                },
                None => None,
            }
        },
        ExprKind::Unary { operator, expr } => {
            match spec_to_constant(*expr) {
                Some(inner) => Some(ConstExpr::Unary { operator, expr: Box::new(inner) }),
                None => None,
            }
        },
        ExprKind::Binary { operator, lhs, rhs } => {
            if operator == BinaryOperator::Assign || spec_is_compound_assign(operator) {
                None
            } else {
                match (spec_to_constant(*lhs), spec_to_constant(*rhs)) {
                    (Some(l), Some(r)) => Some(ConstExpr::Binary { operator, lhs: Box::new(l), rhs: Box::new(r) }),
                    _ => None,
                }
            }
        },
        ExprKind::Conditional(c, t, f) => {
            match (spec_to_constant(*c), spec_to_constant(*t), spec_to_constant(*f)) {
                (Some(c), Some(t), Some(f)) => Some(ConstExpr::Conditional(Box::new(c), Box::new(t), Box::new(f))),
                _ => None,
            }
        },
        _ => None,
    }
}

impl Expression {
    /// The value of the expression, when it is a constant expression.
    pub fn eval(&self) -> (r: Option<Constant>)
        requires
            spec_to_constant(*self) matches Some(c) ==> const_defined(c),
        ensures
            r == (match spec_to_constant(*self) {
                Some(c) => Some(const_value(c)),
                None => None::<Constant>,
            }),
    {
        match self.to_constant() {
            Some(c) => Some(c.eval()),
            None => None,
        }
    }

    /// The expression as a constant expression, when it is one.
    pub fn to_constant(&self) -> (r: Option<ConstExpr>)
        ensures
            r == spec_to_constant(*self),
        decreases self,
    {
        match &self.kind {
            ExprKind::Var(_) | ExprKind::CompoundAssign { .. } | ExprKind::Assignment(_, _) | ExprKind::Prefix(_, _)
            | ExprKind::Postfix(_, _) | ExprKind::FunctionCall { .. } => None,
            ExprKind::Constant(c) => Some(ConstExpr::Constant(*c)),
            ExprKind::Cast { target_type, expr } => {
                let inner = expr.to_constant()?;
                let ty = match target_type {
                    Type::Int => ConstantType::Int,
                    Type::Long => ConstantType::Long,
                    _ => return None,
                };
                Some(ConstExpr::Cast { target_type: ty, expr: Box::new(inner) })
            },
            ExprKind::Unary { operator, expr } => {
                let inner = expr.to_constant()?;
                Some(ConstExpr::Unary { operator: *operator, expr: Box::new(inner) })
            },
            ExprKind::Binary { operator, lhs, rhs } => {
                if operator.is_assign() || operator.is_compound_assign() {
                    return None;
                }
                let l = lhs.to_constant()?;
                let r = rhs.to_constant()?;
                Some(ConstExpr::Binary { operator: *operator, lhs: Box::new(l), rhs: Box::new(r) })
            },
            ExprKind::Conditional(cond, then, else_) => {
                let c = cond.to_constant()?;
                let t = then.to_constant()?;
                let f = else_.to_constant()?;
                Some(ConstExpr::Conditional(Box::new(c), Box::new(t), Box::new(f)))
            },
        }
    }
}

impl ConstExpr {
    /// The value of the expression, or `None` where evaluating it would
    /// overflow, divide by zero or shift out of range.
    pub fn try_eval(self) -> (r: Option<Constant>)
        ensures
            r == (if const_defined(self) { Some(const_value(self)) } else { None::<Constant> }),
        decreases self,
    {
        match self {
            ConstExpr::Constant(c) => Some(c),
            ConstExpr::Unary { operator, expr } => {
                let c = expr.try_eval()?;
                if !unary_defined_exec(operator, c) {
                    return None;
                }
                Some(eval_unary(operator, c))
            },
            ConstExpr::Cast { target_type, expr } => {
                let c = expr.try_eval()?;
                Some(c.cast(target_type))
            },
            ConstExpr::Binary { operator, lhs, rhs } => {
                let l = lhs.try_eval()?;
                let r = rhs.try_eval()?;
                let (a, b) = l.to_common_pair(r);
                if !binary_defined_exec(operator, a, b) {
                    return None;
                }
                Some(eval_binary(operator, a, b))
            },
            ConstExpr::Conditional(cond, then, else_) => {
                let c = cond.try_eval()?;
                if c.is_zero() {
                    else_.try_eval()
                } else {
                    then.try_eval()
                }
            },
        }
    }
}

fn unary_defined_exec(op: UnaryOperator, c: Constant) -> (r: bool)
    ensures
        r == unary_defined(op, c),
{
    match (op, c) {
        (UnaryOperator::Negate, Constant::Int(n)) => n != i32::MIN,
        (UnaryOperator::Negate, Constant::Long(n)) => n != i64::MIN,
        _ => true,
    }
}

fn binary_defined_exec(op: BinaryOperator, a: Constant, b: Constant) -> (r: bool)
    ensures
        r == binary_defined(op, a, b),
{
    let supported = match op {
        BinaryOperator::Add | BinaryOperator::Subtract | BinaryOperator::Multiply | BinaryOperator::Divide
        | BinaryOperator::Remainder | BinaryOperator::And | BinaryOperator::Or | BinaryOperator::Equal
        | BinaryOperator::NotEqual | BinaryOperator::LessThan | BinaryOperator::LessEqual
        | BinaryOperator::GreaterThan | BinaryOperator::GreaterEqual | BinaryOperator::BitwiseAnd
        | BinaryOperator::BitwiseXor | BinaryOperator::BitwiseOr | BinaryOperator::LeftShift
        | BinaryOperator::RightShift => true,
        _ => false,
    };
    if !supported {
        return false;
    }
    match (a, b) {
        (Constant::Int(x), Constant::Int(y)) => {
            let wx = x as i128;
            let wy = y as i128;
            match op {
                BinaryOperator::Add => i32::MIN as i128 <= wx + wy && wx + wy <= i32::MAX as i128,
                BinaryOperator::Subtract => i32::MIN as i128 <= wx - wy && wx - wy <= i32::MAX as i128,
                BinaryOperator::Multiply => {
                    proof {
                        assert(-0x4000_0000_0000_0000 <= wx * wy <= 0x4000_0000_0000_0000) by (nonlinear_arith)
                            requires
                                i32::MIN <= wx <= i32::MAX,
                                i32::MIN <= wy <= i32::MAX,
                        ;
                    }
                    i32::MIN as i128 <= wx * wy && wx * wy <= i32::MAX as i128
                },
                BinaryOperator::Divide | BinaryOperator::Remainder => {
                    if y == 0 {
                        false
                    } else {
                        proof { lemma_trunc_div_fits(x as int, y as int, i32::MIN as int, i32::MAX as int); }
                        !(x == i32::MIN && y == -1)
                    }
                },
                BinaryOperator::LeftShift | BinaryOperator::RightShift => 0 <= y && y < 32,
                _ => true,
            }
        },
        (Constant::Long(x), Constant::Long(y)) => {
            let wx = x as i128;
            let wy = y as i128;
            match op {
                BinaryOperator::Add => i64::MIN as i128 <= wx + wy && wx + wy <= i64::MAX as i128,
                BinaryOperator::Subtract => i64::MIN as i128 <= wx - wy && wx - wy <= i64::MAX as i128,
                BinaryOperator::Multiply => {
                    proof {
                        assert(-0x4000_0000_0000_0000_0000_0000_0000_0000 <= wx * wy <= 0x4000_0000_0000_0000_0000_0000_0000_0000) by (nonlinear_arith)
                            requires
                                i64::MIN <= wx <= i64::MAX,
                                i64::MIN <= wy <= i64::MAX,
                        ;
                    }
                    i64::MIN as i128 <= wx * wy && wx * wy <= i64::MAX as i128
                },
                BinaryOperator::Divide | BinaryOperator::Remainder => {
                    if y == 0 {
                        false
                    } else {
                        proof { lemma_trunc_div_fits(x as int, y as int, i64::MIN as int, i64::MAX as int); }
                        !(x == i64::MIN && y == -1)
                    }
                },
                BinaryOperator::LeftShift | BinaryOperator::RightShift => 0 <= y && y < 64,
                _ => true,
            }
        },
        _ => false,
    }
}

/// C's division: the quotient times the divisor plus the remainder gives
/// back the dividend, the remainder is smaller than the divisor in size, and
/// it is zero or has the sign of the dividend (so the quotient rounds toward
/// zero).
pub proof fn lemma_trunc_div_rem(a: int, b: int)
    requires
        b != 0,
    ensures
        trunc_div(a, b) * b + trunc_rem(a, b) == a,
        abs(trunc_rem(a, b)) < abs(b),
        trunc_rem(a, b) == 0 || (trunc_rem(a, b) < 0) == (a < 0),
{
    let q = abs(a) / abs(b);
    let r = abs(a) % abs(b);
    assert(q * abs(b) + r == abs(a) && 0 <= r < abs(b)) by (nonlinear_arith)
        requires
            q == abs(a) / abs(b),
            r == abs(a) % abs(b),
            abs(b) > 0,
    ;
    if a < 0 {
        if b < 0 {
            assert(trunc_div(a, b) == q);
            assert(q * b == -(q * abs(b))) by (nonlinear_arith)
                requires b < 0, abs(b) == -b;
        } else {
            assert(trunc_div(a, b) == -q);
            assert(-q * b == -(q * abs(b))) by (nonlinear_arith)
                requires b > 0, abs(b) == b;
        }
    } else {
        if b < 0 {
            assert(trunc_div(a, b) == -q);
            assert(-q * b == q * abs(b)) by (nonlinear_arith)
                requires b < 0, abs(b) == -b;
        } else {
            assert(trunc_div(a, b) == q);
        }
    }
}

/// Division rounding toward zero stays in a two's-complement range, except
/// for the most negative value divided by `-1`.
pub proof fn lemma_trunc_div_fits(x: int, y: int, lo: int, hi: int)
    requires
        y != 0,
        lo <= x <= hi,
        lo == -hi - 1,
        hi > 0,
    ensures
        fits_range(trunc_div(x, y), lo, hi) <==> !(x == lo && y == -1),
{
    let q = abs(x) / abs(y);
    assert(0 <= q <= abs(x)) by (nonlinear_arith)
        requires
            q == abs(x) / abs(y),
            abs(y) >= 1,
            abs(x) >= 0,
    ;
    if abs(y) >= 2 {
        assert(q * 2 <= abs(x)) by (nonlinear_arith)
            requires
                q == abs(x) / abs(y),
                abs(y) >= 2,
                abs(x) >= 0,
        ;
    } else {
        assert(q == abs(x));
    }
}

pub open spec fn fits_range(v: int, lo: int, hi: int) -> bool {
    lo <= v <= hi
}

impl Expression {
    /// The value of the expression when it is a constant expression whose
    /// evaluation is defined.
    pub fn try_eval(&self) -> (r: Option<Constant>)
        ensures
            r == (match spec_to_constant(*self) {
                Some(c) => if const_defined(c) { Some(const_value(c)) } else { None::<Constant> },
                None => None::<Constant>,
            }),
    {
        match self.to_constant() {
            Some(c) => c.try_eval(),
            None => None,
        }
    }
}

} // verus!
