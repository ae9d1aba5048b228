use bricks::math::{fac, isqrt, pow_num, div_num, apply_unary, apply_binary, UnaryOp, BinaryOp};

#[test]
fn factorial_of_small_numbers() {
    assert_eq!(fac(1), 1);
    assert_eq!(fac(2), 2);
    assert_eq!(fac(3), 6);
    assert_eq!(fac(5), 120);
    assert_eq!(fac(10), 3628800);
}

#[test]
fn factorial_below_one_is_identity() {
    assert_eq!(fac(0), 0);
    assert_eq!(fac(-3), -3);
}

#[test]
fn integer_square_roots() {
    assert_eq!(isqrt(0), 0);
    assert_eq!(isqrt(1), 1);
    assert_eq!(isqrt(3), 1);
    assert_eq!(isqrt(4), 2);
    assert_eq!(isqrt(15), 3);
    assert_eq!(isqrt(16), 4);
    assert_eq!(isqrt(1000000), 1000);
    assert_eq!(isqrt(i64::MAX), 3037000499);
}

#[test]
fn powers() {
    assert_eq!(pow_num(2, 0), 1);
    assert_eq!(pow_num(2, 16), 65536);
    assert_eq!(pow_num(-3, 3), -27);
    assert_eq!(pow_num(0, 0), 1);
}

#[test]
fn division_truncates_toward_zero() {
    assert_eq!(div_num(7, 2), 3);
    assert_eq!(div_num(-7, 2), -3);
    assert_eq!(div_num(7, -2), -3);
    assert_eq!(div_num(-7, -2), 3);
}

#[test]
fn division_edge_cases() {
    assert_eq!(div_num(5, 0), 0);
    assert_eq!(div_num(i64::MIN, -1), i64::MIN);
    assert_eq!(div_num(i64::MIN, 1), i64::MIN);
    assert_eq!(div_num(i64::MIN, -2), 4611686018427387904);
}

#[test]
fn unary_applications() {
    assert_eq!(apply_unary(UnaryOp::Neg, 5), -5);
    assert_eq!(apply_unary(UnaryOp::Neg, i64::MIN), i64::MIN);
    assert_eq!(apply_unary(UnaryOp::Abs, -5), 5);
    assert_eq!(apply_unary(UnaryOp::Abs, 5), 5);
    assert_eq!(apply_unary(UnaryOp::Sqrt, 9), 3);
    assert_eq!(apply_unary(UnaryOp::Sqrt, -9), 0);
    assert_eq!(apply_unary(UnaryOp::Fac, 4), 24);
}

#[test]
fn binary_applications_wrap() {
    assert_eq!(apply_binary(BinaryOp::Add, 1, 2), 3);
    assert_eq!(apply_binary(BinaryOp::Add, i64::MAX, 1), i64::MIN);
    assert_eq!(apply_binary(BinaryOp::Sub, 1, 2), -1);
    assert_eq!(apply_binary(BinaryOp::Sub, i64::MIN, 1), i64::MAX);
    assert_eq!(apply_binary(BinaryOp::Mul, 6, 7), 42);
    assert_eq!(apply_binary(BinaryOp::Div, 9, 2), 4);
    assert_eq!(apply_binary(BinaryOp::Pow, 3, 4), 81);
    assert_eq!(apply_binary(BinaryOp::Pow, 3, -1), 0);
}
