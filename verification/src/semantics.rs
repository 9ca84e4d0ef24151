//! The meaning of programs, written as specification functions.
//!
//! Reduction is call-by-name over a single flat environment that maps a
//! binder's identifier to the unevaluated argument it was last applied to.
//! Every function here takes the environment and returns the environment that
//! results, together with the reduced expression or the failure.
//!
//! Two limits bound every evaluation. The *budget* is the number of steps one
//! strict evaluation may take. The *depth* is the number of strict evaluations
//! that may still be entered one inside another; it exists because a step may
//! itself demand a strict evaluation (of a guard, of an operand, of a function
//! position), so that without it a program could nest evaluations without end
//! while never exhausting any single budget.

use vstd::prelude::*;
use vstd::arithmetic::div_mod::lemma_fundamental_div_mod;
use crate::ast::{BinaryOp, ExprView, UnaryOp, ValueView};
use crate::codec::{decode_integer, decode_text, encode_integer, encode_text, wrap_i64};
use crate::error::{EvalError, InvalidDigit, Operator, ValueKind};

verus! {

/// The binding environment: identifier to unevaluated argument.
pub type Env = Map<i64, ExprView>;

/// The quotient of `a` by a non-zero `b`, rounded toward zero. (The built-in
/// quotient rounds so that the remainder is never negative, which for a
/// dividend that is not negative is the same thing.)
pub open spec fn trunc_div(a: int, b: int) -> int {
    if a >= 0 {
        a / b
    } else {
        -((-a) / b)
    }
}

/// The remainder that goes with [`trunc_div`]; it is zero or has the sign of `a`.
pub open spec fn trunc_rem(a: int, b: int) -> int {
    if a >= 0 {
        a % b
    } else {
        -((-a) % b)
    }
}

/// Quotient and remainder recompose the dividend, and the remainder is
/// smaller in magnitude than the divisor and never of the opposite sign to
/// the dividend.
pub proof fn lemma_trunc_div_rem(a: int, b: int)
    requires
        b != 0,
    ensures
        b * trunc_div(a, b) + trunc_rem(a, b) == a,
        a >= 0 ==> 0 <= trunc_rem(a, b),
        a <= 0 ==> trunc_rem(a, b) <= 0,
        b > 0 ==> -b < trunc_rem(a, b) < b,
        b < 0 ==> b < trunc_rem(a, b) < -b,
{
    let m = if a >= 0 { a } else { -a };
    lemma_fundamental_div_mod(m, b);
    assert(0 <= m % b && (b > 0 ==> m % b < b) && (b < 0 ==> m % b < -b)) by (nonlinear_arith)
        requires
            b != 0,
    ;
    assert(b * (-(m / b)) == -(b * (m / b))) by (nonlinear_arith);
    assert(0int % b == 0) by (nonlinear_arith)
        requires
            b != 0,
    ;
}

/// Dividing a number that is not negative never yields a quotient or a
/// remainder larger in magnitude than the number itself.
pub proof fn lemma_quotient_bounded(m: int, b: int)
    requires
        0 <= m,
        b != 0,
    ensures
        -m <= m / b <= m,
        0 <= m % b <= m,
        m > 0 && b != -1 ==> -m < m / b,
{
    lemma_fundamental_div_mod(m, b);
    assert(-m <= m / b <= m && 0 <= m % b <= m) by (nonlinear_arith)
        requires
            0 <= m,
            b != 0,
            m == b * (m / b) + m % b,
    ;
    if m > 0 && b != -1 && m / b == -m {
        assert(m % b == m * (1 + b)) by (nonlinear_arith)
            requires
                m == b * (-m) + m % b,
        ;
        assert(m * (1 + b) < 0 || b >= 0) by (nonlinear_arith)
            requires
                m > 0,
                b != -1,
        ;
        assert(b < 0) by (nonlinear_arith)
            requires
                m > 0,
                b != 0,
                m / b == -m,
                m == b * (m / b) + m % b,
                0 <= m % b <= m,
        ;
    }
}

/// The failure reported when `operator` wanted an operand of kind `expected`
/// and met `actual`.
pub open spec fn mismatch(operator: Operator, expected: ValueKind, actual: ValueView) -> EvalError {
    EvalError::TypeMismatch { operator, expected, actual: actual.kind() }
}

/// What a unary operator makes of a value.
pub open spec fn apply_unary(op: UnaryOp, v: ValueView) -> Result<ValueView, EvalError> {
    let operator = Operator::Unary(op);
    match op {
        UnaryOp::Neg => match v {
            ValueView::Int(i) => Ok(ValueView::Int(wrap_i64(-i))),
            _ => Err(mismatch(operator, ValueKind::Int, v)),
        },
        UnaryOp::Not => match v {
            ValueView::Bool(b) => Ok(ValueView::Bool(!b)),
            _ => Err(mismatch(operator, ValueKind::Bool, v)),
        },
        UnaryOp::StrToInt => match v {
            ValueView::Str(s) => match decode_integer(encode_text(s)) {
                Ok(n) => Ok(ValueView::Int(n)),
                Err(x) => Err(EvalError::InvalidDigit(x.0)),
            },
            _ => Err(mismatch(operator, ValueKind::Str, v)),
        },
        UnaryOp::IntToStr => match v {
            ValueView::Int(i) => Ok(ValueView::Str(decode_text(encode_integer(i)))),
            _ => Err(mismatch(operator, ValueKind::Int, v)),
        },
    }
}

/// The first operand of the two that is not of kind `expected`, reported as a
/// failure of `op`. Meant for operand pairs of which at least one is not.
pub open spec fn first_mismatch(
    op: BinaryOp,
    expected: ValueKind,
    a: ValueView,
    b: ValueView,
) -> EvalError {
    if a.kind() != expected {
        mismatch(Operator::Binary(op), expected, a)
    } else {
        mismatch(Operator::Binary(op), expected, b)
    }
}

/// What an arithmetic or comparison operator makes of two integers.
pub open spec fn apply_int_op(op: BinaryOp, x: int, y: int) -> Result<ValueView, EvalError> {
    match op {
        BinaryOp::Add => Ok(ValueView::Int(wrap_i64(x + y))),
        BinaryOp::Sub => Ok(ValueView::Int(wrap_i64(x - y))),
        BinaryOp::Mult => Ok(ValueView::Int(wrap_i64(x * y))),
        BinaryOp::Div => if y == 0 {
            Err(EvalError::DivisionByZero)
        } else {
            Ok(ValueView::Int(wrap_i64(trunc_div(x, y))))
        },
        BinaryOp::Mod => if y == 0 {
            Err(EvalError::DivisionByZero)
        } else {
            Ok(ValueView::Int(wrap_i64(trunc_rem(x, y))))
        },
        BinaryOp::Lt => Ok(ValueView::Bool(x < y)),
        _ => Ok(ValueView::Bool(x > y)),
    }
}

/// What take and drop make of a count and a string.
pub open spec fn apply_slice_op(op: BinaryOp, n: int, s: Seq<char>) -> Result<
    ValueView,
    EvalError,
> {
    if 0 <= n <= s.len() {
        if op == BinaryOp::Take {
            Ok(ValueView::Str(s.take(n)))
        } else {
            Ok(ValueView::Str(s.skip(n)))
        }
    } else {
        Err(EvalError::IndexOutOfRange)
    }
}

/// What a binary operator makes of two values. Application is not an operator
/// on values: applying one value to another is applying a non-function.
pub open spec fn apply_binary(op: BinaryOp, a: ValueView, b: ValueView) -> Result<
    ValueView,
    EvalError,
> {
    match op {
        BinaryOp::Add | BinaryOp::Sub | BinaryOp::Mult | BinaryOp::Div | BinaryOp::Mod
        | BinaryOp::Lt | BinaryOp::Gt => match (a, b) {
            (ValueView::Int(x), ValueView::Int(y)) => apply_int_op(op, x, y),
            _ => Err(first_mismatch(op, ValueKind::Int, a, b)),
        },
        BinaryOp::Eq => match (a, b) {
            (ValueView::Int(x), ValueView::Int(y)) => Ok(ValueView::Bool(x == y)),
            (ValueView::Bool(x), ValueView::Bool(y)) => Ok(ValueView::Bool(x == y)),
            (ValueView::Str(x), ValueView::Str(y)) => Ok(ValueView::Bool(x == y)),
            _ => Err(mismatch(Operator::Binary(op), a.kind(), b)),
        },
        BinaryOp::Or => match (a, b) {
            (ValueView::Bool(x), ValueView::Bool(y)) => Ok(ValueView::Bool(x || y)),
            _ => Err(first_mismatch(op, ValueKind::Bool, a, b)),
        },
        BinaryOp::And => match (a, b) {
            (ValueView::Bool(x), ValueView::Bool(y)) => Ok(ValueView::Bool(x && y)),
            _ => Err(first_mismatch(op, ValueKind::Bool, a, b)),
        },
        BinaryOp::Cat => match (a, b) {
            (ValueView::Str(x), ValueView::Str(y)) => Ok(ValueView::Str(x + y)),
            _ => Err(first_mismatch(op, ValueKind::Str, a, b)),
        },
        BinaryOp::Take | BinaryOp::Drop => match (a, b) {
            (ValueView::Int(n), ValueView::Str(s)) => apply_slice_op(op, n, s),
            (ValueView::Int(_), _) => Err(mismatch(Operator::Binary(op), ValueKind::Str, b)),
            _ => Err(mismatch(Operator::Binary(op), ValueKind::Int, a)),
        },
        BinaryOp::Apply => Err(EvalError::ApplyNonFunction),
    }
}

/// Whether an expression is in weak head normal form: a literal, a function
/// or a variable.
pub open spec fn is_whnf(e: ExprView) -> bool {
    e is Value || e is Lambda || e is Variable
}

/// Wraps a reduced operand back into its unary operator.
pub open spec fn rewrap_unary(op: UnaryOp, r: Result<ExprView, EvalError>) -> Result<
    ExprView,
    EvalError,
> {
    match r {
        Ok(e) => Ok(ExprView::Unary(op, Box::new(e))),
        Err(x) => Err(x),
    }
}

/// Turns the outcome of an operator on values into the outcome of a step.
pub open spec fn as_literal(r: Result<ValueView, EvalError>) -> Result<ExprView, EvalError> {
    match r {
        Ok(v) => Ok(ExprView::Value(v)),
        Err(x) => Err(x),
    }
}

/// One reduction of `e`.
///
/// * A literal or a function is returned as it is.
/// * A variable is replaced by the expression it is bound to.
/// * A unary operator acts if its operand is a literal; if not, the operand
///   takes one step.
/// * A conditional evaluates its guard strictly and becomes the chosen branch,
///   which is not reduced; the other branch is dropped unread.
/// * An application reduces its function position to weak head normal form.
///   If that is a function, its binder is bound to the unevaluated argument
///   and the application becomes the function's body.
/// * Any other binary operator evaluates its left operand strictly, then its
///   right operand, then acts on the two values.
pub open spec fn step(env: Env, e: ExprView, budget: nat, depth: nat) -> (Env, Result<
    ExprView,
    EvalError,
>)
    decreases depth, 1nat, e,
{
    match e {
        ExprView::Value(_) => (env, Ok(e)),
        ExprView::Lambda(_, _) => (env, Ok(e)),
        ExprView::Variable(id) => if env.contains_key(id) {
            (env, Ok(env[id]))
        } else {
            (env, Err(EvalError::UnboundVariable(id)))
        },
        ExprView::Unary(op, operand) => match *operand {
            ExprView::Value(v) => (env, as_literal(apply_unary(op, v))),
            _ => {
                let (env1, r) = step(env, *operand, budget, depth);
                (env1, rewrap_unary(op, r))
            },
        },
        ExprView::If(condition, if_true, if_false) => step_if(
            env,
            *condition,
            *if_true,
            *if_false,
            budget,
            depth,
        ),
        ExprView::Binary(op, first, second) => step_binary(
            env,
            op,
            *first,
            *second,
            budget,
            depth,
        ),
    }
}

/// One reduction of a conditional.
pub open spec fn step_if(
    env: Env,
    condition: ExprView,
    if_true: ExprView,
    if_false: ExprView,
    budget: nat,
    depth: nat,
) -> (Env, Result<ExprView, EvalError>)
    decreases depth, 1nat, condition,
{
    let (env1, guard) = evaluate(env, condition, budget, depth);
    match guard {
        Ok(ValueView::Bool(b)) => (
            env1,
            Ok(
                if b {
                    if_true
                } else {
                    if_false
                },
            ),
        ),
        Ok(_) => (env1, Err(EvalError::NonBooleanCondition)),
        Err(x) => (env1, Err(x)),
    }
}

/// One reduction of a binary operator.
pub open spec fn step_binary(
    env: Env,
    op: BinaryOp,
    first: ExprView,
    second: ExprView,
    budget: nat,
    depth: nat,
) -> (Env, Result<ExprView, EvalError>)
    decreases depth, 1nat, first,
{
    if op == BinaryOp::Apply {
        let (env1, function) = evaluate_head(env, first, budget, depth);
        match function {
            Ok(ExprView::Lambda(binder, body)) => (env1.insert(binder, second), Ok(*body)),
            Ok(ExprView::Value(_)) => (env1, Err(EvalError::ApplyNonFunction)),
            Ok(other) => (env1, Ok(ExprView::Binary(op, Box::new(other), Box::new(second)))),
            Err(x) => (env1, Err(x)),
        }
    } else {
        let (env1, left) = evaluate(env, first, budget, depth);
        match left {
            Err(x) => (env1, Err(x)),
            Ok(a) => {
                let (env2, right) = evaluate(env1, second, budget, depth);
                match right {
                    Err(x) => (env2, Err(x)),
                    Ok(b) => (env2, as_literal(apply_binary(op, a, b))),
                }
            },
        }
    }
}

/// Strict evaluation: steps until the expression is a literal. Fails with
/// `NonTermination` if no nesting is left or `budget` steps do not suffice.
pub open spec fn evaluate(env: Env, e: ExprView, budget: nat, depth: nat) -> (Env, Result<
    ValueView,
    EvalError,
>)
    decreases depth, 0nat, e,
{
    if depth == 0 {
        (env, Err(EvalError::NonTermination))
    } else {
        run(env, e, budget, budget, (depth - 1) as nat)
    }
}

/// Evaluation to weak head normal form: steps at least once, and on until the
/// expression is a literal, a function or a variable. Fails with
/// `NonTermination` if no nesting is left or `budget` steps do not suffice.
pub open spec fn evaluate_head(env: Env, e: ExprView, budget: nat, depth: nat) -> (Env, Result<
    ExprView,
    EvalError,
>)
    decreases depth, 0nat, e,
{
    if depth == 0 {
        (env, Err(EvalError::NonTermination))
    } else {
        run_head(env, e, budget, budget, (depth - 1) as nat)
    }
}

/// At most `left` steps toward a literal, each taken with `depth` nestings left.
pub open spec fn run(env: Env, e: ExprView, left: nat, budget: nat, depth: nat) -> (Env, Result<
    ValueView,
    EvalError,
>)
    decreases depth, 2nat + left, e,
{
    if left == 0 {
        (env, Err(EvalError::NonTermination))
    } else {
        let (env1, r) = step(env, e, budget, depth);
        match r {
            Err(x) => (env1, Err(x)),
            Ok(ExprView::Value(v)) => (env1, Ok(v)),
            Ok(next) => run(env1, next, (left - 1) as nat, budget, depth),
        }
    }
}

/// At most `left` steps toward weak head normal form, each taken with `depth`
/// nestings left.
pub open spec fn run_head(env: Env, e: ExprView, left: nat, budget: nat, depth: nat) -> (Env, Result<
    ExprView,
    EvalError,
>)
    decreases depth, 2nat + left, e,
{
    if left == 0 {
        (env, Err(EvalError::NonTermination))
    } else {
        let (env1, r) = step(env, e, budget, depth);
        match r {
            Err(x) => (env1, Err(x)),
            Ok(next) => if is_whnf(next) {
                (env1, Ok(next))
            } else {
                run_head(env1, next, (left - 1) as nat, budget, depth)
            },
        }
    }
}

/// A conditional is lazy in its branches. Once the guard evaluates to a
/// boolean, one step turns the conditional into the branch the guard selects,
/// unreduced, in the environment the guard left behind. The branch not taken
/// plays no part: replacing it by any other expression changes nothing, so a
/// failure it would raise is never raised.
pub proof fn lemma_conditional_is_lazy(
    env: Env,
    condition: ExprView,
    if_true: ExprView,
    if_false: ExprView,
    other: ExprView,
    budget: nat,
    depth: nat,
)
    ensures
        evaluate(env, condition, budget, depth).1 == Ok::<ValueView, EvalError>(
            ValueView::Bool(true),
        ) ==> {
            &&& step(
                env,
                ExprView::If(Box::new(condition), Box::new(if_true), Box::new(if_false)),
                budget,
                depth,
            ) == (evaluate(env, condition, budget, depth).0, Ok::<ExprView, EvalError>(if_true))
            &&& step(
                env,
                ExprView::If(Box::new(condition), Box::new(if_true), Box::new(other)),
                budget,
                depth,
            ) == (evaluate(env, condition, budget, depth).0, Ok::<ExprView, EvalError>(if_true))
        },
        evaluate(env, condition, budget, depth).1 == Ok::<ValueView, EvalError>(
            ValueView::Bool(false),
        ) ==> {
            &&& step(
                env,
                ExprView::If(Box::new(condition), Box::new(if_true), Box::new(if_false)),
                budget,
                depth,
            ) == (evaluate(env, condition, budget, depth).0, Ok::<ExprView, EvalError>(if_false))
            &&& step(
                env,
                ExprView::If(Box::new(condition), Box::new(other), Box::new(if_false)),
                budget,
                depth,
            ) == (evaluate(env, condition, budget, depth).0, Ok::<ExprView, EvalError>(if_false))
        },
{
    assert(step(
        env,
        ExprView::If(Box::new(condition), Box::new(if_true), Box::new(if_false)),
        budget,
        depth,
    ) == step_if(env, condition, if_true, if_false, budget, depth));
    assert(step(
        env,
        ExprView::If(Box::new(condition), Box::new(if_true), Box::new(other)),
        budget,
        depth,
    ) == step_if(env, condition, if_true, other, budget, depth));
    assert(step(
        env,
        ExprView::If(Box::new(condition), Box::new(other), Box::new(if_false)),
        budget,
        depth,
    ) == step_if(env, condition, other, if_false, budget, depth));
}

/// Every binary operator but application is strict in both operands. One step
/// evaluates the left operand to a literal, then the right operand in the
/// environment the left one left behind, and only then lets the operator act
/// on the two values. If either evaluation fails, the step fails in the same
/// way and the operator does not act.
pub proof fn lemma_operator_is_strict(
    env: Env,
    op: BinaryOp,
    first: ExprView,
    second: ExprView,
    budget: nat,
    depth: nat,
)
    requires
        op != BinaryOp::Apply,
    ensures
        ({
            let (env1, left) = evaluate(env, first, budget, depth);
            let (env2, right) = evaluate(env1, second, budget, depth);
            let stepped = step(
                env,
                ExprView::Binary(op, Box::new(first), Box::new(second)),
                budget,
                depth,
            );
            &&& left matches Err(x) ==> stepped == (env1, Err::<ExprView, EvalError>(x))
            &&& left is Ok ==> (right matches Err(x) ==> stepped == (
                env2,
                Err::<ExprView, EvalError>(x),
            ))
            &&& left matches Ok(a) ==> (right matches Ok(b) ==> stepped == (
                env2,
                as_literal(apply_binary(op, a, b)),
            ))
        }),
{
    assert(step(
        env,
        ExprView::Binary(op, Box::new(first), Box::new(second)),
        budget,
        depth,
    ) == step_binary(env, op, first, second, budget, depth));
}

/// Application is lazy in its argument: when the function position reduces
/// to a function, one step binds the argument as it stands and becomes the
/// function's body. Nothing of the argument is reduced, so the outcome of the
/// step is the same whatever the argument would evaluate to.
pub proof fn lemma_application_binds_unevaluated(
    env: Env,
    function: ExprView,
    argument: ExprView,
    budget: nat,
    depth: nat,
)
    ensures
        evaluate_head(env, function, budget, depth).1 matches Ok(ExprView::Lambda(binder, body))
            ==> step(
            env,
            ExprView::Binary(BinaryOp::Apply, Box::new(function), Box::new(argument)),
            budget,
            depth,
        ) == (
            evaluate_head(env, function, budget, depth).0.insert(binder, argument),
            Ok::<ExprView, EvalError>(*body),
        ),
{
    assert(step(
        env,
        ExprView::Binary(BinaryOp::Apply, Box::new(function), Box::new(argument)),
        budget,
        depth,
    ) == step_binary(env, BinaryOp::Apply, function, argument, budget, depth));
}

/// Whether every identifier bound in `earlier` is still bound in `later`.
pub open spec fn keeps_bindings(later: Env, earlier: Env) -> bool {
    forall|id: i64| earlier.contains_key(id) ==> later.contains_key(id)
}

/// A step never removes a binding: whatever was bound before is bound after,
/// whether the step succeeds or fails.
pub proof fn lemma_step_keeps_bindings(env: Env, e: ExprView, budget: nat, depth: nat)
    ensures
        keeps_bindings(step(env, e, budget, depth).0, env),
    decreases depth, 1nat, e,
{
    match e {
        ExprView::Unary(op, operand) => {
            if !(*operand is Value) {
                lemma_step_keeps_bindings(env, *operand, budget, depth);
            }
        },
        ExprView::If(condition, if_true, if_false) => {
            assert(step(env, e, budget, depth) == step_if(
                env,
                *condition,
                *if_true,
                *if_false,
                budget,
                depth,
            ));
            lemma_evaluate_keeps_bindings(env, *condition, budget, depth);
        },
        ExprView::Binary(op, first, second) => {
            assert(step(env, e, budget, depth) == step_binary(
                env,
                op,
                *first,
                *second,
                budget,
                depth,
            ));
            if op == BinaryOp::Apply {
                lemma_evaluate_head_keeps_bindings(env, *first, budget, depth);
            } else {
                lemma_evaluate_keeps_bindings(env, *first, budget, depth);
                let (env1, left) = evaluate(env, *first, budget, depth);
                if left is Ok {
                    lemma_evaluate_keeps_bindings(env1, *second, budget, depth);
                }
            }
        },
        _ => {},
    }
}

/// A strict evaluation never removes a binding.
pub proof fn lemma_evaluate_keeps_bindings(env: Env, e: ExprView, budget: nat, depth: nat)
    ensures
        keeps_bindings(evaluate(env, e, budget, depth).0, env),
    decreases depth, 0nat, e,
{
    if depth > 0 {
        lemma_run_keeps_bindings(env, e, budget, budget, (depth - 1) as nat);
    }
}

/// An evaluation to weak head normal form never removes a binding.
pub proof fn lemma_evaluate_head_keeps_bindings(env: Env, e: ExprView, budget: nat, depth: nat)
    ensures
        keeps_bindings(evaluate_head(env, e, budget, depth).0, env),
    decreases depth, 0nat, e,
{
    if depth > 0 {
        lemma_run_head_keeps_bindings(env, e, budget, budget, (depth - 1) as nat);
    }
}

/// A run of steps toward a literal never removes a binding.
pub proof fn lemma_run_keeps_bindings(env: Env, e: ExprView, left: nat, budget: nat, depth: nat)
    ensures
        keeps_bindings(run(env, e, left, budget, depth).0, env),
    decreases depth, 2nat + left, e,
{
    if left > 0 {
        lemma_step_keeps_bindings(env, e, budget, depth);
        let (env1, r) = step(env, e, budget, depth);
        if r is Ok && !(r->Ok_0 is Value) {
            lemma_run_keeps_bindings(env1, r->Ok_0, (left - 1) as nat, budget, depth);
        }
    }
}

/// A run of steps toward weak head normal form never removes a binding.
pub proof fn lemma_run_head_keeps_bindings(
    env: Env,
    e: ExprView,
    left: nat,
    budget: nat,
    depth: nat,
)
    ensures
        keeps_bindings(run_head(env, e, left, budget, depth).0, env),
    decreases depth, 2nat + left, e,
{
    if left > 0 {
        lemma_step_keeps_bindings(env, e, budget, depth);
        let (env1, r) = step(env, e, budget, depth);
        if r is Ok && !is_whnf(r->Ok_0) {
            lemma_run_head_keeps_bindings(env1, r->Ok_0, (left - 1) as nat, budget, depth);
        }
    }
}

/// Whether an outcome is final: anything but the report that a limit ran out.
pub open spec fn is_final<T>(r: Result<T, EvalError>) -> bool {
    r != Err::<T, EvalError>(EvalError::NonTermination)
}

/// The limits are resources, not meaning. A step that ends in anything but
/// `NonTermination` ends in the same way, and leaves the same environment,
/// under any larger budget and depth.
pub proof fn lemma_step_under_larger_limits(
    env: Env,
    e: ExprView,
    budget: nat,
    depth: nat,
    more_budget: nat,
    more_depth: nat,
)
    requires
        budget <= more_budget,
        depth <= more_depth,
        is_final(step(env, e, budget, depth).1),
    ensures
        step(env, e, more_budget, more_depth) == step(env, e, budget, depth),
    decreases depth, 1nat, e,
{
    match e {
        ExprView::Unary(op, operand) => {
            if !(*operand is Value) {
                lemma_step_under_larger_limits(
                    env,
                    *operand,
                    budget,
                    depth,
                    more_budget,
                    more_depth,
                );
            }
        },
        ExprView::If(condition, if_true, if_false) => {
            assert(step(env, e, budget, depth) == step_if(
                env,
                *condition,
                *if_true,
                *if_false,
                budget,
                depth,
            ));
            assert(step(env, e, more_budget, more_depth) == step_if(
                env,
                *condition,
                *if_true,
                *if_false,
                more_budget,
                more_depth,
            ));
            lemma_evaluate_under_larger_limits(
                env,
                *condition,
                budget,
                depth,
                more_budget,
                more_depth,
            );
        },
        ExprView::Binary(op, first, second) => {
            assert(step(env, e, budget, depth) == step_binary(
                env,
                op,
                *first,
                *second,
                budget,
                depth,
            ));
            assert(step(env, e, more_budget, more_depth) == step_binary(
                env,
                op,
                *first,
                *second,
                more_budget,
                more_depth,
            ));
            if op == BinaryOp::Apply {
                lemma_evaluate_head_under_larger_limits(
                    env,
                    *first,
                    budget,
                    depth,
                    more_budget,
                    more_depth,
                );
            } else {
                lemma_evaluate_under_larger_limits(
                    env,
                    *first,
                    budget,
                    depth,
                    more_budget,
                    more_depth,
                );
                let (env1, left) = evaluate(env, *first, budget, depth);
                if left is Ok {
                    lemma_evaluate_under_larger_limits(
                        env1,
                        *second,
                        budget,
                        depth,
                        more_budget,
                        more_depth,
                    );
                }
            }
        },
        _ => {},
    }
}

/// A strict evaluation that ends in anything but `NonTermination` ends in the
/// same way under any larger budget and depth.
pub proof fn lemma_evaluate_under_larger_limits(
    env: Env,
    e: ExprView,
    budget: nat,
    depth: nat,
    more_budget: nat,
    more_depth: nat,
)
    requires
        budget <= more_budget,
        depth <= more_depth,
        is_final(evaluate(env, e, budget, depth).1),
    ensures
        evaluate(env, e, more_budget, more_depth) == evaluate(env, e, budget, depth),
    decreases depth, 0nat, e,
{
    lemma_run_under_larger_limits(
        env,
        e,
        budget,
        budget,
        (depth - 1) as nat,
        more_budget,
        more_budget,
        (more_depth - 1) as nat,
    );
}

/// An evaluation to weak head normal form that ends in anything but
/// `NonTermination` ends in the same way under any larger budget and depth.
pub proof fn lemma_evaluate_head_under_larger_limits(
    env: Env,
    e: ExprView,
    budget: nat,
    depth: nat,
    more_budget: nat,
    more_depth: nat,
)
    requires
        budget <= more_budget,
        depth <= more_depth,
        is_final(evaluate_head(env, e, budget, depth).1),
    ensures
        evaluate_head(env, e, more_budget, more_depth) == evaluate_head(env, e, budget, depth),
    decreases depth, 0nat, e,
{
    lemma_run_head_under_larger_limits(
        env,
        e,
        budget,
        budget,
        (depth - 1) as nat,
        more_budget,
        more_budget,
        (more_depth - 1) as nat,
    );
}

/// A run toward a literal that ends in anything but `NonTermination` ends in
/// the same way when more steps are allowed and the limits are larger.
pub proof fn lemma_run_under_larger_limits(
    env: Env,
    e: ExprView,
    left: nat,
    budget: nat,
    depth: nat,
    more_left: nat,
    more_budget: nat,
    more_depth: nat,
)
    requires
        left <= more_left,
        budget <= more_budget,
        depth <= more_depth,
        is_final(run(env, e, left, budget, depth).1),
    ensures
        run(env, e, more_left, more_budget, more_depth) == run(env, e, left, budget, depth),
    decreases depth, 2nat + left, e,
{
    lemma_step_under_larger_limits(env, e, budget, depth, more_budget, more_depth);
    let (env1, r) = step(env, e, budget, depth);
    if r is Ok && !(r->Ok_0 is Value) {
        lemma_run_under_larger_limits(
            env1,
            r->Ok_0,
            (left - 1) as nat,
            budget,
            depth,
            (more_left - 1) as nat,
            more_budget,
            more_depth,
        );
    }
}

/// A run toward weak head normal form that ends in anything but
/// `NonTermination` ends in the same way when more steps are allowed and the
/// limits are larger.
pub proof fn lemma_run_head_under_larger_limits(
    env: Env,
    e: ExprView,
    left: nat,
    budget: nat,
    depth: nat,
    more_left: nat,
    more_budget: nat,
    more_depth: nat,
)
    requires
        left <= more_left,
        budget <= more_budget,
        depth <= more_depth,
        is_final(run_head(env, e, left, budget, depth).1),
    ensures
        run_head(env, e, more_left, more_budget, more_depth) == run_head(
            env,
            e,
            left,
            budget,
            depth,
        ),
    decreases depth, 2nat + left, e,
{
    lemma_step_under_larger_limits(env, e, budget, depth, more_budget, more_depth);
    let (env1, r) = step(env, e, budget, depth);
    if r is Ok && !is_whnf(r->Ok_0) {
        lemma_run_head_under_larger_limits(
            env1,
            r->Ok_0,
            (left - 1) as nat,
            budget,
            depth,
            (more_left - 1) as nat,
            more_budget,
            more_depth,
        );
    }
}

} // verus!
