use std::collections::HashMap;

use rust_parser::ast::{Binary, BinaryOp, Expr, If, Lambda, Unary, UnaryOp, Value, Variable};
use rust_parser::error::{EvalError, Operator, ValueKind};
use rust_parser::executor::{
    apply_binary_operator, apply_unary_operator, Executor, DEFAULT_BUDGET, DEFAULT_DEPTH,
};
use rust_parser::reader::parse_program;

fn num(n: i64) -> Box<Expr> {
    Box::new(Expr::Value(Value::Int(n)))
}

fn text(s: &str) -> Box<Expr> {
    Box::new(Expr::Value(Value::Str(s.to_string())))
}

fn boolean(b: bool) -> Box<Expr> {
    Box::new(Expr::Value(Value::Bool(b)))
}

fn var(id: i64) -> Box<Expr> {
    Box::new(Expr::Variable(Variable(id)))
}

fn lambda(binder: i64, body: Box<Expr>) -> Box<Expr> {
    Box::new(Expr::Lambda(Lambda { body: binder, arg: body }))
}

fn binary(op: BinaryOp, first: Box<Expr>, second: Box<Expr>) -> Box<Expr> {
    Box::new(Expr::Binary(Binary { op, first, second }))
}

fn unary(op: UnaryOp, val: Box<Expr>) -> Box<Expr> {
    Box::new(Expr::Unary(Unary { op, val }))
}

fn cond(condition: Box<Expr>, if_true: Box<Expr>, if_false: Box<Expr>) -> Box<Expr> {
    Box::new(Expr::If(If { condition, if_true, if_false }))
}

fn run(program: &str) -> Result<Value, EvalError> {
    let ast = Box::new(parse_program(program).unwrap());
    Executor::new().fully_evaluate(ast)
}

fn mismatch(op: BinaryOp, expected: ValueKind, actual: ValueKind) -> EvalError {
    EvalError::TypeMismatch { operator: Operator::Binary(op), expected, actual }
}

fn s(v: &str) -> Value {
    Value::Str(v.to_string())
}

fn on_ints(op: BinaryOp, x: i64, y: i64) -> Result<Value, EvalError> {
    apply_binary_operator(op, Value::Int(x), Value::Int(y))
}

fn on_slice(op: BinaryOp, n: i64, v: &str) -> Result<Value, EvalError> {
    apply_binary_operator(op, Value::Int(n), s(v))
}

#[test]
fn executor_test() {
    let input_to_output: Vec<(&str, &str)> = vec![
        ("I/6", "1337"),
        ("S'%4}).$%8", "\"get index\""),
        ("T", "true"),
        ("F", "false"),
        ("U- I$", "-3"),
        ("U! T", "false"),
        ("U# S4%34", "15818151"),
        ("U$ I4%34", "\"test\""),
        ("B+ I# I$", "5"),
        ("B- I$ I#", "1"),
        ("B* I$ I#", "6"),
        ("B/ U- I( I#", "-3"),
        ("B% U- I( I#", "-1"),
        ("B< I$ I#", "false"),
        ("B> I$ I#", "true"),
        ("B= I$ I#", "false"),
        ("B| T F", "true"),
        ("B& T F", "false"),
        ("B. S4% S34", "\"test\""),
        ("BT I$ S4%34", "\"tes\""),
        ("BD I$ S4%34", "\"t\""),
        ("? B> I# I$ S9%3 S./", "\"no\""),
        ("B$ B$ L# L$ v# B. SB%,,/ S}Q/2,$_ IK", "\"Hello World!\""),
        ("B$ L# B$ L\" B+ v\" v\" B* I$ I# v8", "12"),
        ("B$ L# v# I#", "2"),
    ];
    for (input, expected) in input_to_output.iter() {
        let ast = Box::new(parse_program(input).unwrap());
        let mut executor = Executor::new();
        let actual = executor.fully_evaluate(ast).unwrap();
        let stringified = match actual {
            Value::Bool(val) => serde_json::to_string(&val).unwrap(),
            Value::Str(val) => serde_json::to_string(&val).unwrap(),
            Value::Int(val) => serde_json::to_string(&val).unwrap(),
        };
        assert_eq!(expected, &stringified, "input={}", input);
    }
}

#[test]
fn new_executor_has_no_bindings_and_default_limits() {
    let executor = Executor::new();
    assert!(executor.variables.is_empty());
    assert_eq!(1_000_000, DEFAULT_BUDGET);
    assert_eq!(DEFAULT_BUDGET, executor.budget);
    assert_eq!(DEFAULT_DEPTH, executor.depth);
    let executor = Executor::with_limits(7, 3);
    assert!(executor.variables.is_empty());
    assert_eq!(7, executor.budget);
    assert_eq!(3, executor.depth);
}

#[test]
fn scenario_integer_literal_evaluates_to_1337() {
    assert_eq!(Ok(Value::Int(1337)), run("I/6"));
}

#[test]
fn scenario_identity_applied_to_two_evaluates_to_two() {
    assert_eq!(Ok(Value::Int(2)), run("B$ L# v# I#"));
}

#[test]
fn scenario_take_and_drop() {
    assert_eq!(Ok(s("hel")), apply_binary_operator(BinaryOp::Take, Value::Int(3), s("hello")));
    assert_eq!(Ok(s("lo")), apply_binary_operator(BinaryOp::Drop, Value::Int(3), s("hello")));
    assert_eq!(
        Err(EvalError::IndexOutOfRange),
        apply_binary_operator(BinaryOp::Take, Value::Int(6), s("hello"))
    );
}

#[test]
fn take_and_drop_at_the_bounds() {
    assert_eq!(Ok(s("")), on_slice(BinaryOp::Take, 0, "hello"));
    assert_eq!(Ok(s("hello")), on_slice(BinaryOp::Take, 5, "hello"));
    assert_eq!(Ok(s("hello")), on_slice(BinaryOp::Drop, 0, "hello"));
    assert_eq!(Ok(s("")), on_slice(BinaryOp::Drop, 5, "hello"));
    assert_eq!(
        Err(EvalError::IndexOutOfRange),
        on_slice(BinaryOp::Drop, 6, "hello")
    );
    assert_eq!(
        Err(EvalError::IndexOutOfRange),
        on_slice(BinaryOp::Take, -1, "hello")
    );
    assert_eq!(
        Err(EvalError::IndexOutOfRange),
        on_slice(BinaryOp::Drop, i64::MIN, "hello")
    );
    assert_eq!(
        Err(EvalError::IndexOutOfRange),
        on_slice(BinaryOp::Take, i64::MAX, "")
    );
}

#[test]
fn take_and_drop_count_characters_not_bytes() {
    assert_eq!(Ok(s("\u{e9}t")), on_slice(BinaryOp::Take, 2, "\u{e9}t\u{e9}"));
    assert_eq!(Ok(s("\u{e9}")), on_slice(BinaryOp::Drop, 2, "\u{e9}t\u{e9}"));
    assert_eq!(
        Err(EvalError::IndexOutOfRange),
        on_slice(BinaryOp::Take, 4, "\u{e9}t\u{e9}")
    );
}

#[test]
fn arithmetic_exact_values() {
    assert_eq!(Ok(Value::Int(5)), on_ints(BinaryOp::Add, 2, 3));
    assert_eq!(Ok(Value::Int(-1)), on_ints(BinaryOp::Sub, 2, 3));
    assert_eq!(Ok(Value::Int(-6)), on_ints(BinaryOp::Mult, 2, -3));
    assert_eq!(Ok(Value::Int(3)), on_ints(BinaryOp::Div, 7, 2));
    assert_eq!(Ok(Value::Int(-3)), on_ints(BinaryOp::Div, -7, 2));
    assert_eq!(Ok(Value::Int(-3)), on_ints(BinaryOp::Div, 7, -2));
    assert_eq!(Ok(Value::Int(3)), on_ints(BinaryOp::Div, -7, -2));
    assert_eq!(Ok(Value::Int(1)), on_ints(BinaryOp::Mod, 7, 2));
    assert_eq!(Ok(Value::Int(-1)), on_ints(BinaryOp::Mod, -7, 2));
    assert_eq!(Ok(Value::Int(1)), on_ints(BinaryOp::Mod, 7, -2));
    assert_eq!(Ok(Value::Int(-1)), on_ints(BinaryOp::Mod, -7, -2));
    assert_eq!(Ok(Value::Int(0)), on_ints(BinaryOp::Mod, -8, 2));
    assert_eq!(Ok(Value::Bool(true)), on_ints(BinaryOp::Lt, 2, 3));
    assert_eq!(Ok(Value::Bool(false)), on_ints(BinaryOp::Lt, 3, 3));
    assert_eq!(Ok(Value::Bool(true)), on_ints(BinaryOp::Gt, 3, 2));
    assert_eq!(Ok(Value::Bool(false)), on_ints(BinaryOp::Gt, 3, 3));
}

#[test]
fn division_and_remainder_by_zero_fail() {
    assert_eq!(Err(EvalError::DivisionByZero), on_ints(BinaryOp::Div, 7, 0));
    assert_eq!(Err(EvalError::DivisionByZero), on_ints(BinaryOp::Mod, 7, 0));
    assert_eq!(Err(EvalError::DivisionByZero), on_ints(BinaryOp::Div, 0, 0));
    assert_eq!(Err(EvalError::DivisionByZero), run("B/ I\" I!"));
}

#[test]
fn arithmetic_wraps_at_64_bits() {
    assert_eq!(Ok(Value::Int(i64::MIN)), on_ints(BinaryOp::Add, i64::MAX, 1));
    assert_eq!(Ok(Value::Int(i64::MAX)), on_ints(BinaryOp::Sub, i64::MIN, 1));
    assert_eq!(Ok(Value::Int(-2)), on_ints(BinaryOp::Mult, i64::MAX, 2));
    assert_eq!(Ok(Value::Int(i64::MIN)), on_ints(BinaryOp::Div, i64::MIN, -1));
    assert_eq!(Ok(Value::Int(0)), on_ints(BinaryOp::Mod, i64::MIN, -1));
    assert_eq!(Ok(Value::Int(i64::MIN)), apply_unary_operator(UnaryOp::Neg, Value::Int(i64::MIN)));
}

#[test]
fn unary_operators_exact_values() {
    assert_eq!(Ok(Value::Int(-3)), apply_unary_operator(UnaryOp::Neg, Value::Int(3)));
    assert_eq!(Ok(Value::Int(3)), apply_unary_operator(UnaryOp::Neg, Value::Int(-3)));
    assert_eq!(Ok(Value::Bool(false)), apply_unary_operator(UnaryOp::Not, Value::Bool(true)));
    assert_eq!(Ok(Value::Int(15818151)), apply_unary_operator(UnaryOp::StrToInt, s("test")));
    assert_eq!(Ok(s("test")), apply_unary_operator(UnaryOp::IntToStr, Value::Int(15818151)));
    assert_eq!(Ok(s("a")), apply_unary_operator(UnaryOp::IntToStr, Value::Int(0)));
    assert_eq!(Ok(s("")), apply_unary_operator(UnaryOp::IntToStr, Value::Int(-5)));
    assert_eq!(Ok(Value::Int(0)), apply_unary_operator(UnaryOp::StrToInt, s("")));
}

#[test]
fn string_to_int_fails_on_a_character_outside_the_alphabet() {
    assert_eq!(
        Err(EvalError::InvalidDigit('\t')),
        apply_unary_operator(UnaryOp::StrToInt, s("a\tb"))
    );
    assert_eq!(
        Err(EvalError::InvalidDigit('\u{e9}')),
        apply_unary_operator(UnaryOp::StrToInt, s("\u{e9}"))
    );
}

#[test]
fn unary_operators_reject_other_kinds() {
    let unary_mismatch = |op, expected, actual| EvalError::TypeMismatch {
        operator: Operator::Unary(op),
        expected,
        actual,
    };
    assert_eq!(
        Err(unary_mismatch(UnaryOp::Neg, ValueKind::Int, ValueKind::Bool)),
        apply_unary_operator(UnaryOp::Neg, Value::Bool(true))
    );
    assert_eq!(
        Err(unary_mismatch(UnaryOp::Not, ValueKind::Bool, ValueKind::Int)),
        apply_unary_operator(UnaryOp::Not, Value::Int(1))
    );
    assert_eq!(
        Err(unary_mismatch(UnaryOp::StrToInt, ValueKind::Str, ValueKind::Int)),
        apply_unary_operator(UnaryOp::StrToInt, Value::Int(1))
    );
    assert_eq!(
        Err(unary_mismatch(UnaryOp::IntToStr, ValueKind::Int, ValueKind::Str)),
        apply_unary_operator(UnaryOp::IntToStr, s("x"))
    );
}

#[test]
fn equality_compares_values_of_one_kind() {
    assert_eq!(Ok(Value::Bool(true)), apply_binary_operator(BinaryOp::Eq, Value::Int(3), Value::Int(3)));
    assert_eq!(Ok(Value::Bool(false)), apply_binary_operator(BinaryOp::Eq, Value::Int(3), Value::Int(4)));
    assert_eq!(
        Ok(Value::Bool(true)),
        apply_binary_operator(BinaryOp::Eq, Value::Bool(false), Value::Bool(false))
    );
    assert_eq!(Ok(Value::Bool(true)), apply_binary_operator(BinaryOp::Eq, s("ab"), s("ab")));
    assert_eq!(Ok(Value::Bool(false)), apply_binary_operator(BinaryOp::Eq, s("ab"), s("abc")));
    assert_eq!(
        Err(mismatch(BinaryOp::Eq, ValueKind::Int, ValueKind::Str)),
        apply_binary_operator(BinaryOp::Eq, Value::Int(3), s("3"))
    );
    assert_eq!(
        Err(mismatch(BinaryOp::Eq, ValueKind::Bool, ValueKind::Int)),
        apply_binary_operator(BinaryOp::Eq, Value::Bool(true), Value::Int(1))
    );
}

#[test]
fn boolean_and_string_operators_exact_values() {
    for a in [false, true] {
        for b in [false, true] {
            assert_eq!(
                Ok(Value::Bool(a || b)),
                apply_binary_operator(BinaryOp::Or, Value::Bool(a), Value::Bool(b))
            );
            assert_eq!(
                Ok(Value::Bool(a && b)),
                apply_binary_operator(BinaryOp::And, Value::Bool(a), Value::Bool(b))
            );
        }
    }
    assert_eq!(Ok(s("left right")), apply_binary_operator(BinaryOp::Cat, s("left "), s("right")));
    assert_eq!(Ok(s("")), apply_binary_operator(BinaryOp::Cat, s(""), s("")));
}

#[test]
fn binary_operators_reject_other_kinds() {
    for op in [
        BinaryOp::Add,
        BinaryOp::Sub,
        BinaryOp::Mult,
        BinaryOp::Div,
        BinaryOp::Mod,
        BinaryOp::Lt,
        BinaryOp::Gt,
    ] {
        assert_eq!(
            Err(mismatch(op, ValueKind::Int, ValueKind::Str)),
            apply_binary_operator(op, s("1"), Value::Int(0))
        );
        assert_eq!(
            Err(mismatch(op, ValueKind::Int, ValueKind::Bool)),
            apply_binary_operator(op, Value::Int(1), Value::Bool(true))
        );
        assert_eq!(
            Err(mismatch(op, ValueKind::Int, ValueKind::Bool)),
            apply_binary_operator(op, Value::Bool(false), s("x"))
        );
    }
    for op in [BinaryOp::Or, BinaryOp::And] {
        assert_eq!(
            Err(mismatch(op, ValueKind::Bool, ValueKind::Int)),
            apply_binary_operator(op, Value::Int(1), Value::Bool(true))
        );
        assert_eq!(
            Err(mismatch(op, ValueKind::Bool, ValueKind::Str)),
            apply_binary_operator(op, Value::Bool(true), s("x"))
        );
    }
    assert_eq!(
        Err(mismatch(BinaryOp::Cat, ValueKind::Str, ValueKind::Int)),
        apply_binary_operator(BinaryOp::Cat, s("a"), Value::Int(1))
    );
    for op in [BinaryOp::Take, BinaryOp::Drop] {
        assert_eq!(
            Err(mismatch(op, ValueKind::Int, ValueKind::Str)),
            apply_binary_operator(op, s("a"), s("b"))
        );
        assert_eq!(
            Err(mismatch(op, ValueKind::Str, ValueKind::Int)),
            apply_binary_operator(op, Value::Int(1), Value::Int(2))
        );
        assert_eq!(
            Err(mismatch(op, ValueKind::Int, ValueKind::Bool)),
            apply_binary_operator(op, Value::Bool(true), Value::Int(2))
        );
    }
    assert_eq!(
        Err(EvalError::ApplyNonFunction),
        apply_binary_operator(BinaryOp::Apply, Value::Int(1), Value::Int(2))
    );
}

#[test]
fn type_mismatch_is_reported_by_evaluation() {
    assert_eq!(Err(mismatch(BinaryOp::Add, ValueKind::Int, ValueKind::Bool)), run("B+ I\" T"));
}

#[test]
fn step_leaves_literals_and_functions_alone() {
    let mut executor = Executor::new();
    assert_eq!(Ok(num(5)), executor.step(num(5)));
    assert_eq!(Ok(text("x")), executor.step(text("x")));
    let f = lambda(-1, binary(BinaryOp::Add, var(-1), num(1)));
    assert_eq!(Ok(f.clone()), executor.step(f));
    assert!(executor.variables.is_empty());
}

#[test]
fn step_replaces_a_variable_by_its_binding() {
    let mut executor = Executor::new();
    let bound = binary(BinaryOp::Add, num(1), num(2));
    executor.variables.insert(-4, bound.clone());
    assert_eq!(Ok(bound.clone()), executor.step(var(-4)));
    assert_eq!(Some(&bound), executor.variables.get(&-4));
    assert_eq!(Err(EvalError::UnboundVariable(-5)), executor.step(var(-5)));
    assert_eq!(Err(EvalError::UnboundVariable(7)), run("v("));
}

#[test]
fn step_reduces_the_operand_of_a_unary_operator_first() {
    let mut executor = Executor::new();
    let inner = binary(BinaryOp::Add, num(1), num(2));
    assert_eq!(
        Ok(unary(UnaryOp::Neg, num(3))),
        executor.step(unary(UnaryOp::Neg, inner))
    );
    assert_eq!(Ok(num(-3)), executor.step(unary(UnaryOp::Neg, num(3))));
    assert_eq!(
        Ok(unary(UnaryOp::Neg, unary(UnaryOp::Neg, num(-3)))),
        executor.step(unary(UnaryOp::Neg, unary(UnaryOp::Neg, unary(UnaryOp::Neg, num(3)))))
    );
}

#[test]
fn eval_unary_acts_on_a_literal() {
    let mut executor = Executor::new();
    assert_eq!(Ok(boolean(false)), executor.eval_unary(UnaryOp::Not, Value::Bool(true)));
    assert_eq!(Ok(text("test")), executor.eval_unary(UnaryOp::IntToStr, Value::Int(15818151)));
}

#[test]
fn apply_binds_the_argument_unevaluated_and_returns_the_body() {
    let mut executor = Executor::new();
    let argument = binary(BinaryOp::Div, num(1), num(0));
    let body = binary(BinaryOp::Add, var(-1), num(1));
    let application = binary(BinaryOp::Apply, lambda(-1, body.clone()), argument.clone());
    assert_eq!(Ok(body), executor.step(application));
    assert_eq!(Some(&argument), executor.variables.get(&-1));
    assert_eq!(1, executor.variables.len());
}

#[test]
fn apply_never_evaluates_an_argument_that_is_not_used() {
    // (\x. 5) (1 / 0)
    assert_eq!(Ok(Value::Int(5)), run("B$ L! I& B/ I\" I!"));
}

#[test]
fn apply_of_a_literal_fails() {
    assert_eq!(Err(EvalError::ApplyNonFunction), run("B$ I\" I#"));
    let mut executor = Executor::new();
    assert_eq!(
        Err(EvalError::ApplyNonFunction),
        executor.eval_binary(BinaryOp::Apply, text("f"), num(1))
    );
}

#[test]
fn apply_rebinds_a_binder_on_each_application() {
    let mut executor = Executor::new();
    let f = lambda(-1, var(-1));
    assert_eq!(Ok(var(-1)), executor.eval_binary(BinaryOp::Apply, f.clone(), num(1)));
    assert_eq!(Some(&num(1)), executor.variables.get(&-1));
    assert_eq!(Ok(var(-1)), executor.eval_binary(BinaryOp::Apply, f, num(2)));
    assert_eq!(Some(&num(2)), executor.variables.get(&-1));
}

#[test]
fn apply_of_a_variable_bound_to_a_variable_is_handed_back_partly_reduced() {
    let mut executor = Executor::new();
    executor.variables.insert(-1, var(-2));
    executor.variables.insert(-2, lambda(-3, var(-3)));
    // the function position steps once, to another variable, and stops there
    assert_eq!(
        Ok(binary(BinaryOp::Apply, var(-2), num(9))),
        executor.step(binary(BinaryOp::Apply, var(-1), num(9)))
    );
    assert_eq!(
        Ok(var(-3)),
        executor.step(binary(BinaryOp::Apply, var(-2), num(9)))
    );
    assert_eq!(Ok(Value::Int(9)), executor.fully_evaluate(var(-3)));
}

#[test]
fn strict_operator_evaluates_both_operands_before_acting() {
    // 3 applied through the identity, plus 4
    assert_eq!(Ok(Value::Int(7)), run("B+ B$ L# v# I$ I%"));
    let mut executor = Executor::new();
    let left = binary(BinaryOp::Apply, lambda(-1, var(-1)), num(3));
    assert_eq!(Ok(num(7)), executor.step(binary(BinaryOp::Add, left, num(4))));
    assert_eq!(Some(&num(3)), executor.variables.get(&-1));
}

#[test]
fn strict_operator_reports_the_failure_of_the_left_operand_first() {
    let mut executor = Executor::new();
    let left = binary(BinaryOp::Div, num(1), num(0));
    let right = var(-9);
    assert_eq!(
        Err(EvalError::DivisionByZero),
        executor.eval_binary(BinaryOp::Add, left, right)
    );
    let left = num(1);
    let right = var(-9);
    assert_eq!(
        Err(EvalError::UnboundVariable(-9)),
        executor.eval_binary(BinaryOp::Add, left, right)
    );
}

#[test]
fn conditional_never_evaluates_the_branch_not_taken() {
    assert_eq!(Ok(Value::Int(1)), run("? T I\" B/ I\" I!"));
    assert_eq!(Ok(Value::Int(1)), run("? F B/ I\" I! I\""));
    assert_eq!(Err(EvalError::DivisionByZero), run("? F I\" B/ I\" I!"));
}

#[test]
fn eval_if_hands_back_the_chosen_branch_unreduced() {
    let mut executor = Executor::new();
    let taken = binary(BinaryOp::Add, num(1), num(2));
    let other = binary(BinaryOp::Div, num(1), num(0));
    let guard = binary(BinaryOp::Lt, num(1), num(2));
    assert_eq!(Ok(taken.clone()), executor.eval_if(guard.clone(), taken.clone(), other.clone()));
    assert_eq!(Ok(taken.clone()), executor.eval_if(unary(UnaryOp::Not, guard), other, taken));
    assert_eq!(
        Ok(num(2)),
        executor.step(cond(boolean(false), num(1), num(2)))
    );
}

#[test]
fn conditional_with_a_guard_that_is_not_boolean_fails() {
    assert_eq!(Err(EvalError::NonBooleanCondition), run("? I\" I# I$"));
    assert_eq!(Err(EvalError::NonBooleanCondition), run("? S I# I$"));
    assert_eq!(Err(EvalError::DivisionByZero), run("? B/ I\" I! I# I$"));
}

#[test]
fn renaming_keeps_same_numeral_bindings_apart() {
    // ((\#. \". v" + v#) 3) ((\#. v#) 4)
    let program = "B$ B$ L# L\" B+ v\" v# I$ B$ L# v# I%";
    assert_eq!(Ok(Value::Int(7)), run(program));
}

#[test]
fn without_renaming_same_numeral_bindings_collide() {
    // the same program with every binder left at its written numeral
    let inner = binary(BinaryOp::Apply, lambda(2, var(2)), num(4));
    let outer = lambda(2, lambda(1, binary(BinaryOp::Add, var(1), var(2))));
    let program = binary(BinaryOp::Apply, binary(BinaryOp::Apply, outer, num(3)), inner);
    assert_eq!(Ok(Value::Int(8)), Executor::new().fully_evaluate(program));
}

#[test]
fn renamed_shadowing_binder_does_not_overwrite_the_outer_binding() {
    // (\#. ((\#. v#) 2) + v#) 1
    assert_eq!(Ok(Value::Int(3)), run("B$ L# B+ B$ L# v# I# v# I\""));
}

#[test]
fn infinite_self_application_fails_with_non_termination() {
    // (\x. x x) (\x. x x)
    let program = "B$ L# B$ v# v# L# B$ v# v#";
    assert_eq!(Err(EvalError::NonTermination), run(program));
}

#[test]
fn infinite_self_application_exhausts_a_small_budget_too() {
    let ast = Box::new(parse_program("B$ L# B$ v# v# L# B$ v# v#").unwrap());
    let mut executor = Executor::with_limits(10, 10);
    assert_eq!(Err(EvalError::NonTermination), executor.fully_evaluate(ast));
    assert_eq!(10, executor.budget);
    assert_eq!(10, executor.depth);
}

#[test]
fn budget_counts_the_steps_of_one_evaluation() {
    // - - - 3 takes four steps: three for the operators from the inside out,
    // and the first step is the one that finds the innermost literal
    let program = || unary(UnaryOp::Neg, unary(UnaryOp::Neg, unary(UnaryOp::Neg, num(3))));
    assert_eq!(Ok(Value::Int(-3)), Executor::with_limits(3, 1).fully_evaluate(program()));
    assert_eq!(
        Err(EvalError::NonTermination),
        Executor::with_limits(2, 1).fully_evaluate(program())
    );
    assert_eq!(Ok(Value::Int(3)), Executor::with_limits(1, 1).fully_evaluate(num(3)));
    assert_eq!(
        Err(EvalError::NonTermination),
        Executor::with_limits(0, 1).fully_evaluate(num(3))
    );
}

#[test]
fn larger_limits_do_not_change_an_outcome_that_is_final() {
    let programs = [
        "B+ B$ L# v# I$ I%",
        "? B= I# I# S9%3 B/ I\" I!",
        "B/ I\" B- I# I#",
        "B$ B$ L# L\" B+ v\" v# I$ B$ L# v# I%",
        "BT I% S4%34",
        "v(",
    ];
    for program in programs.iter() {
        let ast = parse_program(program).unwrap();
        let mut small = Executor::with_limits(6, 4);
        let outcome = small.fully_evaluate(Box::new(ast.clone()));
        assert_ne!(Err(EvalError::NonTermination), outcome, "program={}", program);
        for (budget, depth) in [(6, 5), (7, 4), (1_000, 1_000)] {
            let mut large = Executor::with_limits(budget, depth);
            assert_eq!(outcome, large.fully_evaluate(Box::new(ast.clone())), "program={}", program);
            assert_eq!(small.variables, large.variables, "program={}", program);
        }
    }
}

#[test]
fn depth_counts_the_evaluations_entered_one_inside_another() {
    // 1 + (2 + 3): the outer evaluation, the operand's, and the inner operand's
    let program = || binary(BinaryOp::Add, num(1), binary(BinaryOp::Add, num(2), num(3)));
    assert_eq!(Ok(Value::Int(6)), Executor::with_limits(10, 3).fully_evaluate(program()));
    assert_eq!(
        Err(EvalError::NonTermination),
        Executor::with_limits(10, 2).fully_evaluate(program())
    );
    assert_eq!(
        Err(EvalError::NonTermination),
        Executor::with_limits(10, 0).fully_evaluate(num(1))
    );
}

#[test]
fn unbounded_nesting_fails_with_non_termination() {
    // a binder bound to a conditional whose guard is the binder itself
    let mut executor = Executor::with_limits(100, 50);
    executor.variables.insert(-1, cond(var(-1), num(1), num(2)));
    assert_eq!(Err(EvalError::NonTermination), executor.fully_evaluate(var(-1)));
    assert_eq!(50, executor.depth);
}

#[test]
fn default_depth_bounds_unbounded_nesting() {
    let mut executor = Executor::new();
    executor.variables.insert(-1, cond(var(-1), num(1), num(2)));
    assert_eq!(Err(EvalError::NonTermination), executor.fully_evaluate(var(-1)));
    assert_eq!(DEFAULT_DEPTH, executor.depth);
    // nested strict operators, one evaluation inside another for each
    let mut program = num(0);
    for _ in 0..(DEFAULT_DEPTH - 1) / 2 {
        program = binary(BinaryOp::Add, num(1), program);
    }
    assert_eq!(
        Ok(Value::Int(((DEFAULT_DEPTH - 1) / 2) as i64)),
        Executor::new().fully_evaluate(program)
    );
}

#[test]
fn maximally_evaluate_stops_at_a_function_a_literal_or_a_variable() {
    let mut executor = Executor::new();
    let f = lambda(-1, var(-1));
    assert_eq!(Ok(f.clone()), executor.maximally_evaluate(f.clone()));
    assert_eq!(Ok(num(3)), executor.maximally_evaluate(binary(BinaryOp::Add, num(1), num(2))));
    // ((\a. \b. a) 1) reduces to the inner function
    let k = lambda(-2, lambda(-3, var(-2)));
    assert_eq!(
        Ok(lambda(-3, var(-2))),
        executor.maximally_evaluate(binary(BinaryOp::Apply, k, num(1)))
    );
    executor.variables.insert(-7, var(-8));
    assert_eq!(Ok(var(-8)), executor.maximally_evaluate(var(-7)));
    assert_eq!(
        Err(EvalError::UnboundVariable(-8)),
        executor.maximally_evaluate(var(-8))
    );
    assert_eq!(
        Err(EvalError::NonTermination),
        Executor::with_limits(0, 5).maximally_evaluate(num(1))
    );
    assert_eq!(
        Err(EvalError::NonTermination),
        Executor::with_limits(5, 0).maximally_evaluate(num(1))
    );
}

#[test]
fn bindings_made_before_a_failure_stay() {
    let mut executor = Executor::new();
    // (\x. x + (1 / 0)) 5
    let body = binary(BinaryOp::Add, var(-1), binary(BinaryOp::Div, num(1), num(0)));
    let program = binary(BinaryOp::Apply, lambda(-1, body), num(5));
    assert_eq!(Err(EvalError::DivisionByZero), executor.fully_evaluate(program));
    let mut expected = HashMap::new();
    expected.insert(-1_i64, num(5));
    assert_eq!(expected, executor.variables);
}
