use bricks::builder::{solve, Error};
use bricks::math::{BinaryOp, UnaryOp};
use bricks::Environment;

#[test]
fn raw_environment_still_evaluates_literals() {
    let env = Environment::raw();
    assert_eq!(solve(&env, String::from("42")), Ok(42));
}

#[test]
fn raw_environment_knows_no_operators() {
    let env = Environment::raw();
    assert_eq!(
        solve(&env, String::from("1 + 2")),
        Err(Error::OperationNotFoundError)
    );
}

#[test]
fn custom_binary_operator() {
    let mut env = Environment::raw();
    env.add_binary("#", 5, BinaryOp::Mul);
    assert_eq!(solve(&env, String::from("6 # 7")), Ok(42));
}

#[test]
fn custom_priorities_decide_grouping() {
    // With addition binding tighter than multiplication the sum folds first.
    let mut env = Environment::raw();
    env.add_binary("+", 4, BinaryOp::Add);
    env.add_binary("*", 6, BinaryOp::Mul);
    assert_eq!(solve(&env, String::from("2 + 3 * 4")), Ok(20));
}

#[test]
fn custom_prefix_operator() {
    let mut env = Environment::raw();
    env.add_unary("neg", 1, UnaryOp::Neg);
    assert_eq!(solve(&env, String::from("neg 5")), Ok(-5));
}

#[test]
fn custom_appended_operator() {
    let mut env = Environment::raw();
    env.add_binary("+", 8, BinaryOp::Add);
    env.add_binary("-", 8, BinaryOp::Sub);
    env.add_appended("?", UnaryOp::Abs);
    assert_eq!(solve(&env, String::from("0 - 3")), Ok(-3));
    assert_eq!(solve(&env, String::from("(0 - 3)? + 1")), Ok(4));
}

#[test]
fn re_registration_replaces() {
    let mut env = Environment::raw();
    env.add_binary("+", 8, BinaryOp::Add);
    env.add_binary("-", 8, BinaryOp::Sub);
    env.add_binary("+", 8, BinaryOp::Mul);
    // The later registration of `+` wins; `-` is untouched.
    assert_eq!(solve(&env, String::from("2 + 3")), Ok(6));
    assert_eq!(solve(&env, String::from("5 - 3")), Ok(2));
}

#[test]
fn default_environment_symbols() {
    let env = Environment::new();
    assert_eq!(env.bin_operations.len(), 5);
    assert_eq!(env.un_operations.len(), 3);
    assert_eq!(env.app_operations.len(), 1);
    let plus: Vec<char> = env.bin_operations[0].symbol.clone();
    assert_eq!(plus, vec!['+']);
    let sqrt: Vec<char> = env.un_operations[0].symbol.clone();
    assert_eq!(sqrt, vec!['s', 'q', 'r', 't']);
}
