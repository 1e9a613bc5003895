use c_compiler::parser::eval::ConstExpr;
use c_compiler::parser::{BinaryOperator, Constant, ConstantType, UnaryOperator};

fn int_c(i: i32) -> ConstExpr {
    ConstExpr::Constant(Constant::Int(i))
}

fn long_c(l: i64) -> ConstExpr {
    ConstExpr::Constant(Constant::Long(l))
}

fn bin(operator: BinaryOperator, lhs: ConstExpr, rhs: ConstExpr) -> ConstExpr {
    ConstExpr::Binary { operator, lhs: Box::new(lhs), rhs: Box::new(rhs) }
}

#[test]
fn division_truncates_toward_zero() {
    assert_eq!(bin(BinaryOperator::Divide, int_c(-7), int_c(2)).try_eval(), Some(Constant::Int(-3)));
    assert_eq!(bin(BinaryOperator::Divide, int_c(7), int_c(-2)).try_eval(), Some(Constant::Int(-3)));
    assert_eq!(bin(BinaryOperator::Remainder, int_c(-7), int_c(2)).try_eval(), Some(Constant::Int(-1)));
    assert_eq!(bin(BinaryOperator::Remainder, int_c(7), int_c(-2)).try_eval(), Some(Constant::Int(1)));
    assert_eq!(bin(BinaryOperator::Divide, int_c(-7), int_c(2)).eval(), Constant::Int(-3));
}

#[test]
fn arithmetic_and_bitwise() {
    assert_eq!(bin(BinaryOperator::Add, int_c(2), int_c(3)).eval(), Constant::Int(5));
    assert_eq!(bin(BinaryOperator::Multiply, int_c(-4), int_c(5)).eval(), Constant::Int(-20));
    assert_eq!(bin(BinaryOperator::LeftShift, int_c(1), int_c(4)).eval(), Constant::Int(16));
    assert_eq!(bin(BinaryOperator::RightShift, int_c(-16), int_c(2)).eval(), Constant::Int(-4));
    assert_eq!(bin(BinaryOperator::BitwiseAnd, int_c(12), int_c(10)).eval(), Constant::Int(8));
    assert_eq!(bin(BinaryOperator::BitwiseOr, int_c(12), int_c(10)).eval(), Constant::Int(14));
    assert_eq!(bin(BinaryOperator::BitwiseXor, int_c(12), int_c(10)).eval(), Constant::Int(6));
}

#[test]
fn comparisons_and_logic_give_int() {
    assert_eq!(bin(BinaryOperator::LessThan, int_c(1), int_c(2)).eval(), Constant::Int(1));
    assert_eq!(bin(BinaryOperator::GreaterEqual, int_c(1), int_c(2)).eval(), Constant::Int(0));
    assert_eq!(bin(BinaryOperator::Equal, long_c(5), long_c(5)).eval(), Constant::Int(1));
    assert_eq!(bin(BinaryOperator::And, int_c(3), int_c(0)).eval(), Constant::Int(0));
    assert_eq!(bin(BinaryOperator::Or, int_c(0), int_c(7)).eval(), Constant::Int(1));
}

#[test]
fn unary_operators() {
    let neg = ConstExpr::Unary { operator: UnaryOperator::Negate, expr: Box::new(int_c(5)) };
    assert_eq!(neg.eval(), Constant::Int(-5));
    let not = ConstExpr::Unary { operator: UnaryOperator::Not, expr: Box::new(int_c(0)) };
    assert_eq!(not.eval(), Constant::Int(1));
    let inv = ConstExpr::Unary { operator: UnaryOperator::BitwiseNot, expr: Box::new(int_c(0)) };
    assert_eq!(inv.eval(), Constant::Int(-1));
}

#[test]
fn conditional_picks_branch() {
    let c = ConstExpr::Conditional(Box::new(int_c(0)), Box::new(int_c(1)), Box::new(int_c(2)));
    assert_eq!(c.eval(), Constant::Int(2));
    let c = ConstExpr::Conditional(Box::new(long_c(9)), Box::new(int_c(1)), Box::new(int_c(2)));
    assert_eq!(c.eval(), Constant::Int(1));
}

#[test]
fn mixed_operands_widen_to_long() {
    assert_eq!(bin(BinaryOperator::Add, int_c(1), long_c(2)).eval(), Constant::Long(3));
}

#[test]
fn casts_convert() {
    let c = ConstExpr::Cast { target_type: ConstantType::Long, expr: Box::new(int_c(-1)) };
    assert_eq!(c.eval(), Constant::Long(-1));
    let c = ConstExpr::Cast { target_type: ConstantType::Int, expr: Box::new(long_c(4294967297)) };
    assert_eq!(c.eval(), Constant::Int(1));
}

#[test]
fn undefined_evaluations_give_none() {
    assert_eq!(bin(BinaryOperator::Divide, int_c(1), int_c(0)).try_eval(), None);
    assert_eq!(bin(BinaryOperator::Remainder, int_c(1), int_c(0)).try_eval(), None);
    assert_eq!(bin(BinaryOperator::Divide, int_c(i32::MIN), int_c(-1)).try_eval(), None);
    assert_eq!(bin(BinaryOperator::Add, int_c(i32::MAX), int_c(1)).try_eval(), None);
    assert_eq!(bin(BinaryOperator::Multiply, long_c(i64::MAX), long_c(2)).try_eval(), None);
}
