use bricks::builder::{solve, Error};
use bricks::Environment;

fn eval(input: &str) -> Result<i64, Error> {
    let env = Environment::new();
    solve(&env, String::from(input))
}

#[test]
fn bare_literal_round_trip() {
    assert_eq!(eval("42"), Ok(42));
}

#[test]
fn single_digit() {
    assert_eq!(eval("7"), Ok(7));
}

#[test]
fn whitespace_is_insignificant() {
    assert_eq!(eval("  1 +   2  "), Ok(3));
}

#[test]
fn addition_chain() {
    assert_eq!(eval("3 + 2 + 1"), Ok(6));
}

#[test]
fn subtraction_chain_is_left_associative() {
    // The eager fold fires at equal priority, so `-` groups leftward:
    // (3 - 2) - 1, never 3 - (2 - 1).
    assert_eq!(eval("3 - 2 - 1"), Ok(0));
}

#[test]
fn precedence_multiplication_after_addition() {
    assert_eq!(eval("2 + 3 * 4"), Ok(14));
}

#[test]
fn precedence_multiplication_before_addition() {
    assert_eq!(eval("2 * 3 + 4"), Ok(10));
}

#[test]
fn parentheses_override_precedence() {
    assert_eq!(eval("(2 + 3) * 4"), Ok(20));
}

#[test]
fn prefix_negation_binds_tighter_than_power() {
    assert_eq!(eval("-2 ^ 2"), Ok(4));
}

#[test]
fn appended_factorial_applies_immediately() {
    assert_eq!(eval("3! + 1"), Ok(7));
}

#[test]
fn appended_factorial_at_end() {
    assert_eq!(eval("3!"), Ok(6));
}

#[test]
fn appended_factorial_inside_brackets() {
    assert_eq!(eval("(3!)"), Ok(6));
}

#[test]
fn nested_brackets_resolve_independently() {
    assert_eq!(eval("((2 + 3) * (4 - 1))"), Ok(15));
}

#[test]
fn bracketed_subtrahend() {
    assert_eq!(eval("2 - (1 + 1)"), Ok(0));
}

#[test]
fn closing_bracket_without_value_is_syntax_fault() {
    assert_eq!(eval(")"), Err(Error::SyntaxError));
}

#[test]
fn unmatched_closing_bracket_is_syntax_fault() {
    assert_eq!(eval("2 + 3)"), Err(Error::SyntaxError));
}

#[test]
fn unregistered_symbol_is_operation_not_found() {
    assert_eq!(eval("2 @ 3"), Err(Error::OperationNotFoundError));
}

#[test]
fn empty_input_is_malformed_number() {
    assert_eq!(eval(""), Err(Error::MalformedNumberError));
}

#[test]
fn trailing_operator_is_malformed_number() {
    assert_eq!(eval("2 +"), Err(Error::MalformedNumberError));
}

#[test]
fn oversized_literal_is_malformed_number() {
    assert_eq!(eval("99999999999999999999"), Err(Error::MalformedNumberError));
}

#[test]
fn largest_literal_parses() {
    assert_eq!(eval("9223372036854775807"), Ok(i64::MAX));
}

#[test]
fn unmatched_open_bracket_is_tolerated() {
    assert_eq!(eval("(2 + 3"), Ok(5));
}

#[test]
fn prefix_sqrt_of_literal() {
    assert_eq!(eval("sqrt 9"), Ok(3));
}

#[test]
fn prefix_sqrt_of_bracketed_sum() {
    assert_eq!(eval("sqrt(4 + 5)"), Ok(3));
}

#[test]
fn prefix_abs_of_bracketed_difference() {
    assert_eq!(eval("abs(1 - 3)"), Ok(2));
}

#[test]
fn prefix_negation_of_literal() {
    assert_eq!(eval("-5"), Ok(-5));
}

#[test]
fn division_truncates() {
    assert_eq!(eval("7 / 2"), Ok(3));
}

#[test]
fn division_by_zero_is_zero() {
    assert_eq!(eval("8 / 0"), Ok(0));
}

#[test]
fn power_chain_is_left_associative() {
    // Equal priority folds eagerly: (2 ^ 3) ^ 2.
    assert_eq!(eval("2 ^ 3 ^ 2"), Ok(64));
}

#[test]
fn power_of_literal() {
    assert_eq!(eval("2 ^ 10"), Ok(1024));
}

#[test]
fn mixed_brackets_and_precedence() {
    assert_eq!(eval("2 * (3 + 4) - 5"), Ok(9));
}

#[test]
fn error_descriptions() {
    assert_eq!(
        Error::SyntaxError.description(),
        "There were some invalid token combinations"
    );
    assert_eq!(
        Error::OperationNotFoundError.description(),
        "The provided operation was not contained by the environment"
    );
    assert_eq!(
        Error::MalformedNumberError.description(),
        "There was a numeric segment that is no valid number"
    );
}

#[test]
fn multi_digit_addition_chain() {
    assert_eq!(eval("10 + 20 + 12"), Ok(42));
}

#[test]
fn deeply_nested_brackets() {
    assert_eq!(eval("(((7)))"), Ok(7));
}

#[test]
fn factorial_inside_product() {
    assert_eq!(eval("2 * (3!)"), Ok(12));
}

#[test]
fn prefix_symbol_after_binary_is_not_found() {
    // After a binary symbol the scanner keeps accumulating one operator
    // token, so `+ -` reads as the single unregistered symbol `+-`.
    assert_eq!(eval("4 + -2"), Err(Error::OperationNotFoundError));
}

#[test]
fn sqrt_rounds_down() {
    assert_eq!(eval("sqrt 2"), Ok(1));
}

#[test]
fn subtraction_of_two_literals() {
    assert_eq!(eval("5 - 3"), Ok(2));
}

#[test]
fn leading_zeros_parse() {
    assert_eq!(eval("007"), Ok(7));
}

#[test]
fn zero_literal() {
    assert_eq!(eval("0"), Ok(0));
}

#[test]
fn spaces_inside_a_digit_run_merge() {
    assert_eq!(eval("4 2"), Ok(42));
}

#[test]
fn mixed_plus_minus_chain_is_left_associative() {
    assert_eq!(eval("10 - 4 + 3 - 2"), Ok(7));
}

#[test]
fn prefix_at_equal_priority_folds_first() {
    // `sqrt` and `^` share a priority, so pushing the power eagerly folds
    // the pending prefix operation into its operand: (sqrt 4) ^ 2.
    assert_eq!(eval("sqrt 4 ^ 2"), Ok(4));
}
