//! The evaluator: an implementation of the reduction defined in
//! [`crate::semantics`], over an environment held in a hash map.

use vstd::prelude::*;
use vstd::arithmetic::div_mod::*;
use std::collections::HashMap;
use crate::ast::{Binary, BinaryOp, Expr, ExprView, If, Lambda, Unary, UnaryOp, Value, ValueView, Variable};
use crate::codec::{lemma_wrap_in_range, wrap_i64};
use crate::error::{EvalError, Operator, ValueKind};
use crate::semantics::{
    apply_binary, apply_int_op, apply_slice_op, apply_unary, as_literal, evaluate, evaluate_head,
    first_mismatch, lemma_quotient_bounded, run, run_head, step, step_binary,
    step_if, trunc_div, trunc_rem, Env,
};

verus! {

/// The number of steps one strict evaluation may take unless told otherwise.
pub const DEFAULT_BUDGET: u64 = 1_000_000;

/// The number of strict evaluations that may be nested unless told otherwise.
pub const DEFAULT_DEPTH: u64 = 1_000;

/// The mathematical content of the outcome of a step.
pub open spec fn expr_result(r: Result<Box<Expr>, EvalError>) -> Result<ExprView, EvalError> {
    match r {
        Ok(e) => Ok(e@),
        Err(x) => Err(x),
    }
}

/// The mathematical content of the outcome of a strict evaluation.
pub open spec fn value_result(r: Result<Value, EvalError>) -> Result<ValueView, EvalError> {
    match r {
        Ok(v) => Ok(v@),
        Err(x) => Err(x),
    }
}

/// Native wrapping addition is addition reduced to 64 bits.
pub proof fn lemma_wrapping_add(x: i64, y: i64)
    ensures
        x.wrapping_add(y) as int == wrap_i64(x + y),
{
    let v = x + y;
    if v > i64::MAX {
        lemma_small_mod(v as nat, 0x1_0000_0000_0000_0000);
    } else if v < i64::MIN {
        lemma_small_mod((v + 0x1_0000_0000_0000_0000) as nat, 0x1_0000_0000_0000_0000);
        lemma_mod_add_multiples_vanish(v, 0x1_0000_0000_0000_0000);
    } else {
        lemma_wrap_in_range(v);
    }
}

/// Native wrapping subtraction is subtraction reduced to 64 bits.
pub proof fn lemma_wrapping_sub(x: i64, y: i64)
    ensures
        x.wrapping_sub(y) as int == wrap_i64(x - y),
{
    let v = x - y;
    if v > i64::MAX {
        lemma_small_mod(v as nat, 0x1_0000_0000_0000_0000);
    } else if v < i64::MIN {
        lemma_small_mod((v + 0x1_0000_0000_0000_0000) as nat, 0x1_0000_0000_0000_0000);
        lemma_mod_add_multiples_vanish(v, 0x1_0000_0000_0000_0000);
    } else {
        lemma_wrap_in_range(v);
    }
}

/// Native wrapping multiplication is multiplication reduced to 64 bits.
pub proof fn lemma_wrapping_mul(x: i64, y: i64)
    ensures
        x.wrapping_mul(y) as int == wrap_i64(x * y),
{
    lemma_mod_bound(x * y, 0x1_0000_0000_0000_0000);
}

/// The failure of `op` on two operands of which at least one is not of kind
/// `expected`.
fn operand_mismatch(op: BinaryOp, expected: ValueKind, a: &Value, b: &Value) -> (r: EvalError)
    ensures
        r == first_mismatch(op, expected, a@, b@),
{
    let actual = if a.kind() != expected {
        a.kind()
    } else {
        b.kind()
    };
    EvalError::TypeMismatch { operator: Operator::Binary(op), expected, actual }
}

/// Applies an arithmetic or comparison operator to two integers.
fn apply_int_operator(op: BinaryOp, x: i64, y: i64) -> (r: Result<Value, EvalError>)
    requires
        op == BinaryOp::Add || op == BinaryOp::Sub || op == BinaryOp::Mult || op == BinaryOp::Div
            || op == BinaryOp::Mod || op == BinaryOp::Lt || op == BinaryOp::Gt,
    ensures
        value_result(r) == apply_int_op(op, x as int, y as int),
{
    match op {
        BinaryOp::Add => {
            proof {
                lemma_wrapping_add(x, y);
            }
            Ok(Value::Int(x.wrapping_add(y)))
        },
        BinaryOp::Sub => {
            proof {
                lemma_wrapping_sub(x, y);
            }
            Ok(Value::Int(x.wrapping_sub(y)))
        },
        BinaryOp::Mult => {
            proof {
                lemma_wrapping_mul(x, y);
            }
            Ok(Value::Int(x.wrapping_mul(y)))
        },
        BinaryOp::Div => {
            if y == 0 {
                Err(EvalError::DivisionByZero)
            } else if x == i64::MIN && y == -1 {
                proof {
                    lemma_small_mod(0x8000_0000_0000_0000, 0x1_0000_0000_0000_0000);
                    assert(0x8000_0000_0000_0000int / (-1int) == -0x8000_0000_0000_0000int)
                        by (nonlinear_arith);
                    assert(trunc_div(x as int, y as int) == 0x8000_0000_0000_0000);
                    assert(wrap_i64(0x8000_0000_0000_0000) == i64::MIN);
                }
                Ok(Value::Int(i64::MIN))
            } else {
                let q: i64 = x / y;
                proof {
                    lemma_quotient_bounded(if x >= 0 { x as int } else { -x }, y as int);
                    assert(q as int == trunc_div(x as int, y as int));
                    lemma_wrap_in_range(q as int);
                }
                Ok(Value::Int(q))
            }
        },
        BinaryOp::Mod => {
            if y == 0 {
                Err(EvalError::DivisionByZero)
            } else if x == i64::MIN && y == -1 {
                proof {
                    lemma_wrap_in_range(0);
                    assert(0x8000_0000_0000_0000int % (-1int) == 0) by (nonlinear_arith);
                    assert(trunc_rem(x as int, y as int) == 0);
                }
                Ok(Value::Int(0))
            } else {
                let m: i64 = x % y;
                proof {
                    lemma_quotient_bounded(if x >= 0 { x as int } else { -x }, y as int);
                    assert(m as int == trunc_rem(x as int, y as int));
                    lemma_wrap_in_range(m as int);
                }
                Ok(Value::Int(m))
            }
        },
        BinaryOp::Lt => Ok(Value::Bool(x < y)),
        _ => Ok(Value::Bool(x > y)),
    }
}

/// Applies take or drop to a count and a string.
fn apply_slice_operator(op: BinaryOp, n: i64, s: String) -> (r: Result<Value, EvalError>)
    requires
        op == BinaryOp::Take || op == BinaryOp::Drop,
    ensures
        value_result(r) == apply_slice_op(op, n as int, s@),
{
    let len: usize = s.as_str().unicode_len();
    if n < 0 || n as u64 > len as u64 {
        Err(EvalError::IndexOutOfRange)
    } else {
        let k: usize = n as usize;
        if op == BinaryOp::Take {
            Ok(Value::Str(s.as_str().substring_char(0, k).to_owned()))
        } else {
            Ok(Value::Str(s.as_str().substring_char(k, len).to_owned()))
        }
    }
}

/// Applies a binary operator to two values.
pub fn apply_binary_operator(op: BinaryOp, first: Value, second: Value) -> (r: Result<
    Value,
    EvalError,
>)
    ensures
        value_result(r) == apply_binary(op, first@, second@),
{
    match op {
        BinaryOp::Add | BinaryOp::Sub | BinaryOp::Mult | BinaryOp::Div | BinaryOp::Mod
        | BinaryOp::Lt | BinaryOp::Gt => match (first, second) {
            (Value::Int(one), Value::Int(two)) => apply_int_operator(op, one, two),
            (a, b) => Err(operand_mismatch(op, ValueKind::Int, &a, &b)),
        },
        BinaryOp::Eq => match (first, second) {
            (Value::Int(one), Value::Int(two)) => Ok(Value::Bool(one == two)),
            (Value::Bool(one), Value::Bool(two)) => Ok(Value::Bool(one == two)),
            (Value::Str(one), Value::Str(two)) => Ok(Value::Bool(one == two)),
            (a, b) => Err(
                EvalError::TypeMismatch {
                    operator: Operator::Binary(op),
                    expected: a.kind(),
                    actual: b.kind(),
                },
            ),
        },
        BinaryOp::Or => match (first, second) {
            (Value::Bool(one), Value::Bool(two)) => Ok(Value::Bool(one || two)),
            (a, b) => Err(operand_mismatch(op, ValueKind::Bool, &a, &b)),
        },
        BinaryOp::And => match (first, second) {
            (Value::Bool(one), Value::Bool(two)) => Ok(Value::Bool(one && two)),
            (a, b) => Err(operand_mismatch(op, ValueKind::Bool, &a, &b)),
        },
        BinaryOp::Cat => match (first, second) {
            (Value::Str(one), Value::Str(two)) => {
                let mut joined = one;
                joined.append(two.as_str());
                Ok(Value::Str(joined))
            },
            (a, b) => Err(operand_mismatch(op, ValueKind::Str, &a, &b)),
        },
        BinaryOp::Take | BinaryOp::Drop => match (first, second) {
            (Value::Int(one), Value::Str(two)) => apply_slice_operator(op, one, two),
            (Value::Int(_), b) => Err(
                EvalError::TypeMismatch {
                    operator: Operator::Binary(op),
                    expected: ValueKind::Str,
                    actual: b.kind(),
                },
            ),
            (a, _) => Err(
                EvalError::TypeMismatch {
                    operator: Operator::Binary(op),
                    expected: ValueKind::Int,
                    actual: a.kind(),
                },
            ),
        },
        BinaryOp::Apply => Err(EvalError::ApplyNonFunction),
    }
}

/// Applies a unary operator to a value.
pub fn apply_unary_operator(op: UnaryOp, val: Value) -> (r: Result<Value, EvalError>)
    ensures
        value_result(r) == apply_unary(op, val@),
{
    match op {
        UnaryOp::Neg => match val {
            Value::Int(i) => {
                proof {
                    lemma_wrapping_sub(0, i);
                }
                Ok(Value::Int(0i64.wrapping_sub(i)))
            },
            other => Err(
                EvalError::TypeMismatch {
                    operator: Operator::Unary(op),
                    expected: ValueKind::Int,
                    actual: other.kind(),
                },
            ),
        },
        UnaryOp::Not => match val {
            Value::Bool(b) => Ok(Value::Bool(!b)),
            other => Err(
                EvalError::TypeMismatch {
                    operator: Operator::Unary(op),
                    expected: ValueKind::Bool,
                    actual: other.kind(),
                },
            ),
        },
        UnaryOp::StrToInt => match val {
            Value::Str(s) => {
                let wire = Value::encode_string(s.as_str());
                match Value::decode_integer_body(wire.as_str()) {
                    Ok(n) => Ok(Value::Int(n)),
                    Err(x) => Err(EvalError::InvalidDigit(x.0)),
                }
            },
            other => Err(
                EvalError::TypeMismatch {
                    operator: Operator::Unary(op),
                    expected: ValueKind::Str,
                    actual: other.kind(),
                },
            ),
        },
        UnaryOp::IntToStr => match val {
            Value::Int(i) => {
                let wire = Value::encode_integer_body(i);
                Ok(Value::decode_string(wire.as_str()))
            },
            other => Err(
                EvalError::TypeMismatch {
                    operator: Operator::Unary(op),
                    expected: ValueKind::Int,
                    actual: other.kind(),
                },
            ),
        },
    }
}

/// Boxes the outcome of an operator on values as the outcome of a step.
fn literal_outcome(r: Result<Value, EvalError>) -> (out: Result<Box<Expr>, EvalError>)
    ensures
        expr_result(out) == as_literal(value_result(r)),
{
    match r {
        Ok(v) => Ok(Box::new(Expr::Value(v))),
        Err(x) => Err(x),
    }
}

/// The evaluator's state: the bindings made so far and the two limits.
pub struct Executor {
    /// Binder identifier to the unevaluated argument last bound to it.
    pub variables: HashMap<i64, Box<Expr>>,
    /// How many steps one strict evaluation may take.
    pub budget: u64,
    /// How many strict evaluations may still be entered one inside another.
    pub depth: u64,
}

impl Executor {
    /// The environment as a mathematical map from identifier to expression.
    pub open spec fn env(&self) -> Env {
        Map::new(|k: i64| self.variables@.contains_key(k), |k: i64| self.variables@[k]@)
    }

    /// An evaluator with no bindings and the default limits.
    pub fn new() -> (r: Executor)
        ensures
            r.env() == Map::<i64, ExprView>::empty(),
            r.budget == DEFAULT_BUDGET,
            r.depth == DEFAULT_DEPTH,
    {
        let r = Executor { variables: HashMap::new(), budget: DEFAULT_BUDGET, depth: DEFAULT_DEPTH };
        assert(r.env() =~= Map::<i64, ExprView>::empty());
        r
    }

    /// An evaluator with no bindings and the given limits.
    pub fn with_limits(budget: u64, depth: u64) -> (r: Executor)
        ensures
            r.env() == Map::<i64, ExprView>::empty(),
            r.budget == budget,
            r.depth == depth,
    {
        let r = Executor { variables: HashMap::new(), budget, depth };
        assert(r.env() =~= Map::<i64, ExprView>::empty());
        r
    }

    /// Performs one reduction of `pgm`.
    pub fn step(&mut self, pgm: Box<Expr>) -> (r: Result<Box<Expr>, EvalError>)
        ensures
            (final(self).env(), expr_result(r)) == step(
                old(self).env(),
                pgm@,
                old(self).budget as nat,
                old(self).depth as nat,
            ),
            final(self).budget == old(self).budget,
            final(self).depth == old(self).depth,
        decreases old(self).depth, 1nat, pgm,
    {
        proof {
            reveal_with_fuel(Expr::model, 2);
        }
        match *pgm {
            Expr::Value(val) => Ok(Box::new(Expr::Value(val))),
            Expr::Unary(Unary { op, val: expr }) => match *expr {
                Expr::Value(val) => self.eval_unary(op, val),
                other => match self.step(Box::new(other)) {
                    Ok(reduced) => Ok(Box::new(Expr::Unary(Unary { op, val: reduced }))),
                    Err(x) => Err(x),
                },
            },
            Expr::Binary(Binary { op, first, second }) => self.eval_binary(op, first, second),
            Expr::Lambda(lambda) => Ok(Box::new(Expr::Lambda(lambda))),
            Expr::If(If { condition, if_true, if_false }) => self.eval_if(
                condition,
                if_true,
                if_false,
            ),
            Expr::Variable(Variable(id)) => match self.variables.get(&id) {
                Some(bound) => Ok(Box::new(bound.duplicate())),
                None => Err(EvalError::UnboundVariable(id)),
            },
        }
    }

    /// Performs one reduction of the binary operator `op` on `first` and `second`.
    pub fn eval_binary(&mut self, op: BinaryOp, first: Box<Expr>, second: Box<Expr>) -> (r: Result<
        Box<Expr>,
        EvalError,
    >)
        ensures
            (final(self).env(), expr_result(r)) == step_binary(
                old(self).env(),
                op,
                first@,
                second@,
                old(self).budget as nat,
                old(self).depth as nat,
            ),
            final(self).budget == old(self).budget,
            final(self).depth == old(self).depth,
        decreases old(self).depth, 1nat, first,
    {
        match op {
            BinaryOp::Apply => match self.maximally_evaluate(first) {
                Err(x) => Err(x),
                Ok(function) => match *function {
                    Expr::Lambda(Lambda { body, arg }) => {
                        let ghost before = self.env();
                        self.variables.insert(body, second);
                        assert(self.env() =~= before.insert(body, second@));
                        Ok(arg)
                    },
                    Expr::Value(_) => Err(EvalError::ApplyNonFunction),
                    other => Ok(
                        Box::new(Expr::Binary(Binary { op, first: Box::new(other), second })),
                    ),
                },
            },
            _ => match self.fully_evaluate(first) {
                Err(x) => Err(x),
                Ok(left) => match self.fully_evaluate(second) {
                    Err(x) => Err(x),
                    Ok(right) => literal_outcome(apply_binary_operator(op, left, right)),
                },
            },
        }
    }

    /// Reduces `expression` to weak head normal form: steps at least once, and
    /// on until the result is a literal, a function or a variable.
    pub fn maximally_evaluate(&mut self, expression: Box<Expr>) -> (r: Result<Box<Expr>, EvalError>)
        ensures
            (final(self).env(), expr_result(r)) == evaluate_head(
                old(self).env(),
                expression@,
                old(self).budget as nat,
                old(self).depth as nat,
            ),
            final(self).budget == old(self).budget,
            final(self).depth == old(self).depth,
        decreases old(self).depth, 0nat, expression,
    {
        if self.depth == 0 {
            return Err(EvalError::NonTermination);
        }
        self.depth = self.depth - 1;
        let mut next = expression;
        let mut left: u64 = self.budget;
        while left > 0
            invariant
                self.budget == old(self).budget,
                self.depth == old(self).depth - 1,
                run_head(
                    self.env(),
                    next@,
                    left as nat,
                    self.budget as nat,
                    self.depth as nat,
                ) == evaluate_head(
                    old(self).env(),
                    expression@,
                    old(self).budget as nat,
                    old(self).depth as nat,
                ),
            decreases left,
        {
            match self.step(next) {
                Err(x) => {
                    self.depth = self.depth + 1;
                    return Err(x);
                },
                Ok(reduced) => {
                    let done = match &*reduced {
                        Expr::Value(_) => true,
                        Expr::Lambda(_) => true,
                        Expr::Variable(_) => true,
                        _ => false,
                    };
                    if done {
                        self.depth = self.depth + 1;
                        return Ok(reduced);
                    }
                    next = reduced;
                },
            }
            left = left - 1;
        }
        self.depth = self.depth + 1;
        Err(EvalError::NonTermination)
    }

    /// Reduces `expression` to a literal and returns its value.
    pub fn fully_evaluate(&mut self, expression: Box<Expr>) -> (r: Result<Value, EvalError>)
        ensures
            (final(self).env(), value_result(r)) == evaluate(
                old(self).env(),
                expression@,
                old(self).budget as nat,
                old(self).depth as nat,
            ),
            final(self).budget == old(self).budget,
            final(self).depth == old(self).depth,
        decreases old(self).depth, 0nat, expression,
    {
        if self.depth == 0 {
            return Err(EvalError::NonTermination);
        }
        self.depth = self.depth - 1;
        let mut next = expression;
        let mut left: u64 = self.budget;
        while left > 0
            invariant
                self.budget == old(self).budget,
                self.depth == old(self).depth - 1,
                run(
                    self.env(),
                    next@,
                    left as nat,
                    self.budget as nat,
                    self.depth as nat,
                ) == evaluate(
                    old(self).env(),
                    expression@,
                    old(self).budget as nat,
                    old(self).depth as nat,
                ),
            decreases left,
        {
            match self.step(next) {
                Err(x) => {
                    self.depth = self.depth + 1;
                    return Err(x);
                },
                Ok(reduced) => match *reduced {
                    Expr::Value(val) => {
                        self.depth = self.depth + 1;
                        return Ok(val);
                    },
                    other => {
                        next = Box::new(other);
                    },
                },
            }
            left = left - 1;
        }
        self.depth = self.depth + 1;
        Err(EvalError::NonTermination)
    }

    /// Performs the reduction of the unary operator `op` on the literal `val`.
    pub fn eval_unary(&mut self, op: UnaryOp, val: Value) -> (r: Result<Box<Expr>, EvalError>)
        ensures
            expr_result(r) == as_literal(apply_unary(op, val@)),
            *final(self) == *old(self),
    {
        literal_outcome(apply_unary_operator(op, val))
    }

    /// Performs one reduction of a conditional: evaluates the guard strictly
    /// and hands back the chosen branch, unreduced.
    pub fn eval_if(&mut self, condition: Box<Expr>, if_true: Box<Expr>, if_false: Box<Expr>) -> (r:
        Result<Box<Expr>, EvalError>)
        ensures
            (final(self).env(), expr_result(r)) == step_if(
                old(self).env(),
                condition@,
                if_true@,
                if_false@,
                old(self).budget as nat,
                old(self).depth as nat,
            ),
            final(self).budget == old(self).budget,
            final(self).depth == old(self).depth,
        decreases old(self).depth, 1nat, condition,
    {
        match self.fully_evaluate(condition) {
            Ok(Value::Bool(val)) => {
                if val {
                    Ok(if_true)
                } else {
                    Ok(if_false)
                }
            },
            Ok(_) => Err(EvalError::NonBooleanCondition),
            Err(x) => Err(x),
        }
    }
}

} // verus!
