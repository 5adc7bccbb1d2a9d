//! End-to-end behaviour of the language: one line of source through the
//! tokenizer, the parser and the evaluator.

use exprlang::ast::{AstNode, Value};
use exprlang::token::Token;
use exprlang::interpreter::{interpret, Environment, EvalError};
use exprlang::lexer::Lexer;
use exprlang::parser::parse;

fn run(src: &str, env: &mut Environment) -> Result<Value, EvalError> {
    let mut lexer = Lexer::new(src);
    let ast = parse(&mut lexer).expect("parse failed");
    interpret(env, ast)
}

fn eval_one(src: &str) -> Value {
    let mut env = Environment::default();
    run(src, &mut env).expect("evaluation failed")
}

fn eval_err(src: &str) -> EvalError {
    let mut env = Environment::default();
    run(src, &mut env).expect_err("evaluation unexpectedly succeeded")
}

fn num(x: f64) -> Value {
    Value::Number(x.to_bits())
}

#[test]
fn precedence_mul_binds_tighter_than_add() {
    assert_eq!(eval_one("1 + 2 * 3"), num(7.0));
}

#[test]
fn precedence_div_binds_tighter_than_add() {
    assert_eq!(eval_one("12 + 2 / 3"), num(12.0 + 2.0 / 3.0));
}

#[test]
fn cross_type_equality_is_false_not_an_error() {
    assert_eq!(eval_one("1 == \"1\""), Value::Bool(false));
}

#[test]
fn cross_type_inequality_is_true_not_an_error() {
    assert_eq!(eval_one("1 != \"1\""), Value::Bool(true));
}

#[test]
fn and_evaluates_right_operand_even_when_left_is_false() {
    let mut env = Environment::default();
    run(
        "b = 0, false and if true then b = 1, true else false end",
        &mut env,
    )
    .unwrap();
    assert_eq!(run("b", &mut env).unwrap(), num(1.0));
}

#[test]
fn or_evaluates_right_operand_even_when_left_is_true() {
    let mut env = Environment::default();
    run(
        "b = 0, true or if true then b = 1, true else false end",
        &mut env,
    )
    .unwrap();
    assert_eq!(run("b", &mut env).unwrap(), num(1.0));
}

#[test]
fn unbound_variable_yields_nil() {
    assert_eq!(eval_one("x"), Value::Nil);
}

#[test]
fn unbound_call_yields_nil() {
    assert_eq!(eval_one("x()"), Value::Nil);
}

#[test]
fn calling_a_non_function_yields_nil() {
    assert_eq!(eval_one("x = 1, x(2)"), Value::Nil);
}

#[test]
fn assignment_in_a_call_never_touches_the_outer_frame() {
    assert_eq!(eval_one("x = 1, f = fn -> x = 2, f(), x"), num(1.0));
}

#[test]
fn arity_error_names_both_counts() {
    assert_eq!(
        eval_err("f = fn a -> a, f(1, 2)"),
        EvalError::Arity { want: 1, got: 2 }
    );
}

#[test]
fn if_runs_only_the_taken_branch() {
    let mut env = Environment::default();
    run("a = 0, b = 0, if true then a = 1 else b = 1 end", &mut env).unwrap();
    assert_eq!(run("a", &mut env).unwrap(), num(1.0));
    assert_eq!(run("b", &mut env).unwrap(), num(0.0));
}

#[test]
fn when_runs_only_the_first_true_arm() {
    let mut env = Environment::default();
    run(
        "a = 0, b = 0, c = 0, when false -> a = 1, true -> b = 1, true -> c = 1 end",
        &mut env,
    )
    .unwrap();
    assert_eq!(run("a", &mut env).unwrap(), num(0.0));
    assert_eq!(run("b", &mut env).unwrap(), num(1.0));
    assert_eq!(run("c", &mut env).unwrap(), num(0.0));
}

#[test]
fn multi_sequences_assignments() {
    assert_eq!(eval_one("a = 1, a = a + 1, a"), num(2.0));
}

#[test]
fn multi_yields_the_last_value() {
    assert_eq!(eval_one("1, 2, 3"), num(3.0));
}

#[test]
fn assignment_yields_nil() {
    assert_eq!(eval_one("x = 5"), Value::Nil);
}

#[test]
fn subtraction_and_division() {
    assert_eq!(eval_one("10 - 4"), num(6.0));
    assert_eq!(eval_one("1 / 2"), num(0.5));
}

#[test]
fn comparisons_on_numbers() {
    assert_eq!(eval_one("1 < 2"), Value::Bool(true));
    assert_eq!(eval_one("2 <= 1"), Value::Bool(false));
    assert_eq!(eval_one("3 > 2"), Value::Bool(true));
    assert_eq!(eval_one("2 >= 3"), Value::Bool(false));
}

#[test]
fn number_equality_is_numeric() {
    assert_eq!(eval_one("1 == 1"), Value::Bool(true));
    assert_eq!(eval_one("1 == 2"), Value::Bool(false));
    assert_eq!(eval_one("1 != 2"), Value::Bool(true));
}

#[test]
fn nan_equals_nothing_not_even_itself() {
    assert_eq!(eval_one("a = 0 / 0, a == a"), Value::Bool(false));
}

#[test]
fn equality_binds_tighter_than_division() {
    assert_eq!(
        eval_err("0 / 1 == 1"),
        EvalError::NumberOperands {
            left: num(0.0),
            right: Value::Bool(true),
        }
    );
}

#[test]
fn boolean_operators() {
    assert_eq!(eval_one("true and false"), Value::Bool(false));
    assert_eq!(eval_one("true and true"), Value::Bool(true));
    assert_eq!(eval_one("false or true"), Value::Bool(true));
    assert_eq!(eval_one("false or false"), Value::Bool(false));
}

#[test]
fn string_equality_compares_raw_text() {
    assert_eq!(eval_one("\"ab\" == \"ab\""), Value::Bool(true));
    assert_eq!(eval_one("\"ab\" == \"ba\""), Value::Bool(false));
}

#[test]
fn if_condition_must_be_boolean() {
    assert_eq!(
        eval_err("if 1 then 2 else 3 end"),
        EvalError::IfCondition { cond: num(1.0) }
    );
}

#[test]
fn when_guard_must_be_boolean() {
    assert_eq!(
        eval_err("when 3 -> 1 end"),
        EvalError::GuardCondition { guard: num(3.0) }
    );
}

#[test]
fn when_without_a_true_guard_yields_nil() {
    assert_eq!(eval_one("when false -> 1 end"), Value::Nil);
}

#[test]
fn arithmetic_needs_two_numbers() {
    assert_eq!(
        eval_err("1 + true"),
        EvalError::NumberOperands {
            left: num(1.0),
            right: Value::Bool(true),
        }
    );
}

#[test]
fn logic_needs_two_booleans() {
    assert_eq!(
        eval_err("1 and 2"),
        EvalError::BoolOperands {
            left: num(1.0),
            right: num(2.0),
        }
    );
}

#[test]
fn else_branch_runs_when_condition_is_false() {
    assert_eq!(eval_one("if false then 1 else 2 end"), num(2.0));
}

#[test]
fn blocks_inside_if_branches() {
    assert_eq!(eval_one("if true then 1, 2 else 3 end"), num(2.0));
}

#[test]
fn conditional_as_an_operand() {
    assert_eq!(eval_one("1 + if true then 2 else 3 end"), num(3.0));
}

#[test]
fn when_arm_bodies_may_hold_several_elements() {
    assert_eq!(eval_one("when true -> 1, 2 end"), num(2.0));
    assert_eq!(eval_one("when false -> 1, 2, true -> 7 end"), num(7.0));
}

#[test]
fn function_of_two_parameters() {
    assert_eq!(eval_one("f = fn a, b -> a + b, f(2, 3)"), num(5.0));
}

#[test]
fn function_without_parameters() {
    assert_eq!(eval_one("f = fn -> 42, f()"), num(42.0));
}

#[test]
fn nested_calls() {
    assert_eq!(eval_one("f = fn x -> x * 2, f(f(3))"), num(12.0));
}

#[test]
fn later_arguments_see_earlier_parameters() {
    assert_eq!(eval_one("f = fn a, b -> b, f(1, a + 1)"), num(2.0));
}

#[test]
fn free_variables_resolve_through_the_caller_chain() {
    assert_eq!(eval_one("f = fn -> y, g = fn y -> f(), g(7)"), num(7.0));
}

#[test]
fn recursion_through_the_session_frame() {
    assert_eq!(
        eval_one("sum = fn n -> if n == 0 then 0 else n + sum(n - 1) end, sum(10)"),
        num(55.0)
    );
}

#[test]
fn runaway_recursion_fails_with_the_depth_error() {
    assert_eq!(
        eval_err("f = fn n -> if n == 0 then 0 else f(n - 1) end, f(1000)"),
        EvalError::CallDepth
    );
}

#[test]
fn number_literals_parse_as_binary64() {
    let text = "100000000000000000000000";
    let expected: f64 = text.parse().unwrap();
    assert_eq!(eval_one(text), num(expected));
}

#[test]
fn hand_built_binary_with_a_non_operator_token_fails() {
    let ast = AstNode::Binary {
        left: Box::new(AstNode::Primary(num(1.0))),
        op: Token::Comma,
        right: Box::new(AstNode::Primary(num(2.0))),
    };
    let mut env = Environment::default();
    assert_eq!(
        interpret(&mut env, ast),
        Err(EvalError::InvalidOp { op: Token::Comma })
    );
}

#[test]
fn hand_built_empty_multi_yields_nil() {
    let mut env = Environment::default();
    assert_eq!(interpret(&mut env, AstNode::Multi(Vec::new())), Ok(Value::Nil));
}

#[test]
fn the_session_frame_persists_across_inputs() {
    let mut env = Environment::default();
    run("x = 21", &mut env).unwrap();
    assert_eq!(run("x * 2", &mut env).unwrap(), num(42.0));
}
