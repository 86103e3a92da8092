//! Evaluation of expression trees.
//!
//! Evaluation works on binary32 bit patterns.  Rounding arithmetic is done
//! directly; each transcendental operation is instead looked up in the
//! caller-supplied answer list `math`, consumed left to right.  When the
//! list runs out at such an operation, evaluation stops and reports the
//! [`MathCall`] it needs; the caller computes it, appends the answer and
//! retries.  Evaluation is deterministic, so the replay consumes the same
//! answers in the same order every time.

use vstd::prelude::*;
use crate::eval_error::{EvalError, EvalErrorModel};
use crate::expr::{bindings_model, dcount, lemma_dcount_subst_num, spec_subst, Expr, ExprModel};
use crate::numeric::{
    abs_f32, add_bits, add_f32, div_bits, div_f32, is_zero_f32, le_zero_f32, mul_bits, mul_f32,
    spec_abs_f32, spec_is_zero_f32, spec_le_zero_f32, sub_bits, sub_f32, MathCall, DX_BITS,
    ONE_BITS, TWO_BITS, ZERO_BITS,
};
use crate::text::str_eq;

verus! {

/// Why an evaluation step stopped short of a value.
pub ghost enum StopModel {
    /// A typed evaluation error.
    Fail(EvalErrorModel),
    /// The answer list ran out at this transcendental call.
    Call(MathCall),
}

/// The outcome of evaluating an expression.
#[derive(Debug, Clone, PartialEq)]
pub enum EvalOutcome {
    /// The value, as a binary32 bit pattern.
    Done(u32),
    /// Evaluation failed with a typed error.
    Fail(EvalError),
    /// The answer list ran out: the caller computes this call, appends the
    /// answer to the list and retries.
    Pending(MathCall),
}

/// Internal stop: error or missing answer.
pub(crate) enum EvalStop {
    Fail(EvalError),
    Call(MathCall),
}

/// The model of an internal stop.
pub(crate) open spec fn stop_model(s: EvalStop) -> StopModel {
    match s {
        EvalStop::Fail(e) => StopModel::Fail(e@),
        EvalStop::Call(c) => StopModel::Call(c),
    }
}

/// One evaluation step yields a value and the next answer position, or stops.
pub ghost struct StepModel {
    pub value: u32,
    pub next: int,
}

/// Consume the next answer for `call`, or stop and report the call.
pub open spec fn spec_consume(call: MathCall, math: Seq<u32>, pos: int) -> Result<
    StepModel,
    StopModel,
> {
    if pos < math.len() {
        Ok(StepModel { value: math[pos], next: pos + 1 })
    } else {
        Err(StopModel::Call(call))
    }
}

/// Whether the node is one of the six binary operators.
pub open spec fn is_binop(e: ExprModel) -> bool {
    match e {
        ExprModel::Add(_, _) => true,
        ExprModel::Sub(_, _) => true,
        ExprModel::Mul(_, _) => true,
        ExprModel::Div(_, _) => true,
        ExprModel::Pow(_, _) => true,
        ExprModel::Log(_, _) => true,
        _ => false,
    }
}

/// Whether the node is one of the five unary operators.
pub open spec fn is_unop(e: ExprModel) -> bool {
    match e {
        ExprModel::Sin(_) => true,
        ExprModel::Cos(_) => true,
        ExprModel::Tan(_) => true,
        ExprModel::Cot(_) => true,
        ExprModel::Abs(_) => true,
        _ => false,
    }
}

/// The numeric semantics of the binary operator at the root of `e`, applied
/// to already-evaluated operands: sums, differences and products round
/// directly; division by a value that compares equal to zero is an error; a
/// zero base with a non-positive exponent is an error; a non-positive
/// logarithm base or argument is an error.  Powers and logarithms otherwise
/// consume the next supplied answer.
pub open spec fn spec_bin_op(
    e: ExprModel,
    lhs: u32,
    rhs: u32,
    math: Seq<u32>,
    pos: int,
) -> Result<StepModel, StopModel> {
    match e {
        ExprModel::Add(_, _) => Ok(StepModel { value: add_bits(lhs, rhs), next: pos }),
        ExprModel::Sub(_, _) => Ok(StepModel { value: sub_bits(lhs, rhs), next: pos }),
        ExprModel::Mul(_, _) => Ok(StepModel { value: mul_bits(lhs, rhs), next: pos }),
        ExprModel::Div(_, _) => if spec_is_zero_f32(rhs) {
            Err(StopModel::Fail(EvalErrorModel::DivisionByZero))
        } else {
            Ok(StepModel { value: div_bits(lhs, rhs), next: pos })
        },
        ExprModel::Pow(_, _) => if spec_is_zero_f32(lhs) && spec_le_zero_f32(rhs) {
            Err(StopModel::Fail(EvalErrorModel::InvalidExponentiation))
        } else {
            spec_consume(MathCall::Pow(lhs, rhs), math, pos)
        },
        ExprModel::Log(_, _) => if spec_le_zero_f32(lhs) || spec_le_zero_f32(rhs) {
            Err(StopModel::Fail(EvalErrorModel::InvalidLogarithm))
        } else {
            spec_consume(MathCall::Log(lhs, rhs), math, pos)
        },
        _ => vstd::pervasive::arbitrary(),
    }
}

/// The numeric semantics of the unary operator at the root of `e`: the
/// absolute value clears the sign bit directly; sine, cosine and tangent
/// consume the next supplied answer; the cotangent takes the supplied
/// tangent, fails if it compares equal to zero, and otherwise divides one
/// by it.
pub open spec fn spec_un_op(e: ExprModel, inner: u32, math: Seq<u32>, pos: int) -> Result<
    StepModel,
    StopModel,
> {
    match e {
        ExprModel::Abs(_) => Ok(StepModel { value: spec_abs_f32(inner), next: pos }),
        ExprModel::Sin(_) => spec_consume(MathCall::Sin(inner), math, pos),
        ExprModel::Cos(_) => spec_consume(MathCall::Cos(inner), math, pos),
        ExprModel::Tan(_) => spec_consume(MathCall::Tan(inner), math, pos),
        ExprModel::Cot(_) => match spec_consume(MathCall::Tan(inner), math, pos) {
            Ok(s) => if spec_is_zero_f32(s.value) {
                Err(StopModel::Fail(EvalErrorModel::DivisionByZero))
            } else {
                Ok(StepModel { value: div_bits(ONE_BITS, s.value), next: s.next })
            },
            Err(st) => Err(st),
        },
        _ => vstd::pervasive::arbitrary(),
    }
}

/// Evaluation with no variables: any variable leaf is an error.  A
/// derivative node with a delayed substitution differentiates at the value
/// of that substitution; one without is taken to be constant and evaluates
/// to zero.
pub open spec fn spec_eval_const(e: ExprModel, math: Seq<u32>, pos: int) -> Result<
    StepModel,
    StopModel,
>
    decreases dcount(e), e, 0int,
{
    match e {
        ExprModel::Num(b) => Ok(StepModel { value: b, next: pos }),
        ExprModel::Var(s) => Err(StopModel::Fail(EvalErrorModel::VariableNotDefined(s))),
        ExprModel::Derivative(inner, var, sub) => match sub {
            Some(s) => match spec_eval_const(*s, math, pos) {
                Ok(sv) => spec_approx_derivative(*inner, var, sv.value, DX_BITS, math, sv.next),
                Err(st) => Err(st),
            },
            None => Ok(StepModel { value: ZERO_BITS, next: pos }),
        },
        ExprModel::Sin(i) | ExprModel::Cos(i) | ExprModel::Tan(i) | ExprModel::Cot(i)
            | ExprModel::Abs(i) => match spec_eval_const(*i, math, pos) {
            Ok(iv) => spec_un_op(e, iv.value, math, iv.next),
            Err(st) => Err(st),
        },
        ExprModel::Add(l, r) | ExprModel::Sub(l, r) | ExprModel::Mul(l, r) | ExprModel::Div(l, r)
            | ExprModel::Pow(l, r) | ExprModel::Log(l, r) => match spec_eval_const(
            *l,
            math,
            pos,
        ) {
            Ok(lv) => match spec_eval_const(*r, math, lv.next) {
                Ok(rv) => spec_bin_op(e, lv.value, rv.value, math, rv.next),
                Err(st) => Err(st),
            },
            Err(st) => Err(st),
        },
    }
}

/// Evaluation with a single named binding.  A derivative node first
/// substitutes the binding into its inner expression when the binding is not
/// the variable of differentiation, then differentiates: at the value of its
/// delayed substitution if one is recorded, at the binding's value if the
/// binding is the variable of differentiation, and otherwise fails.
pub open spec fn spec_eval_with_var(
    e: ExprModel,
    var: Seq<char>,
    value: u32,
    math: Seq<u32>,
    pos: int,
) -> Result<StepModel, StopModel>
    decreases dcount(e), e, 0int,
{
    match e {
        ExprModel::Num(b) => Ok(StepModel { value: b, next: pos }),
        ExprModel::Var(s) => if s == var {
            Ok(StepModel { value, next: pos })
        } else {
            Err(StopModel::Fail(EvalErrorModel::VariableNotDefined(s)))
        },
        ExprModel::Derivative(inner, d_var, sub) => {
            proof {
                lemma_dcount_subst_num(*inner, var, value);
            }
            let at = if d_var != var {
                spec_subst(*inner, var, ExprModel::Num(value))
            } else {
                *inner
            };
            match sub {
                Some(s) => match spec_eval_with_var(*s, var, value, math, pos) {
                    Ok(sv) => spec_approx_derivative(at, d_var, sv.value, DX_BITS, math, sv.next),
                    Err(st) => Err(st),
                },
                None => if d_var == var {
                    spec_approx_derivative(at, d_var, value, DX_BITS, math, pos)
                } else {
                    Err(StopModel::Fail(EvalErrorModel::VariableNotDefined(d_var)))
                },
            }
        },
        ExprModel::Sin(i) | ExprModel::Cos(i) | ExprModel::Tan(i) | ExprModel::Cot(i)
            | ExprModel::Abs(i) => match spec_eval_with_var(*i, var, value, math, pos) {
            Ok(iv) => spec_un_op(e, iv.value, math, iv.next),
            Err(st) => Err(st),
        },
        ExprModel::Add(l, r) | ExprModel::Sub(l, r) | ExprModel::Mul(l, r) | ExprModel::Div(l, r)
            | ExprModel::Pow(l, r) | ExprModel::Log(l, r) => match spec_eval_with_var(
            *l,
            var,
            value,
            math,
            pos,
        ) {
            Ok(lv) => match spec_eval_with_var(*r, var, value, math, lv.next) {
                Ok(rv) => spec_bin_op(e, lv.value, rv.value, math, rv.next),
                Err(st) => Err(st),
            },
            Err(st) => Err(st),
        },
    }
}

/// The central-difference approximation of the derivative of `e` with
/// respect to `var` at `value` with step `dx`: the expression is evaluated
/// at `value - dx` and then at `value + dx`, and the difference of the two
/// results is divided by twice the step.
pub open spec fn spec_approx_derivative(
    e: ExprModel,
    var: Seq<char>,
    value: u32,
    dx: u32,
    math: Seq<u32>,
    pos: int,
) -> Result<StepModel, StopModel>
    decreases dcount(e), e, 1int,
{
    match spec_eval_with_var(e, var, sub_bits(value, dx), math, pos) {
        Ok(f1) => match spec_eval_with_var(e, var, add_bits(value, dx), math, f1.next) {
            Ok(f2) => Ok(
                StepModel {
                    value: div_bits(sub_bits(f2.value, f1.value), mul_bits(TWO_BITS, dx)),
                    next: f2.next,
                },
            ),
            Err(st) => Err(st),
        },
        Err(st) => Err(st),
    }
}

/// Whether an exec evaluation step returned exactly what the model says,
/// with the next position within the answer list and no earlier than where
/// it started.
pub(crate) open spec fn step_matches(
    s: Result<StepModel, StopModel>,
    r: Result<(u32, usize), EvalStop>,
    math: Seq<u32>,
    pos: int,
) -> bool {
    match r {
        Ok((v, p)) => s == Ok::<StepModel, StopModel>(StepModel { value: v, next: p as int })
            && pos <= p <= math.len(),
        Err(st) => s == Err::<StepModel, StopModel>(stop_model(st)),
    }
}

/// Whether a public evaluation outcome matches the model's result.
pub open spec fn outcome_matches(s: Result<StepModel, StopModel>, r: EvalOutcome) -> bool {
    match r {
        EvalOutcome::Done(v) => s matches Ok(st) && st.value == v,
        EvalOutcome::Fail(e) => s == Err::<StepModel, StopModel>(StopModel::Fail(e@)),
        EvalOutcome::Pending(c) => s == Err::<StepModel, StopModel>(StopModel::Call(c)),
    }
}

impl Expr {
    /// The binary-operator semantics of this node applied to operand values,
    /// assuming this node is one of the six binary operators.
    fn bin_op_unchecked(&self, lhs: u32, rhs: u32, math: &[u32], pos: usize) -> (r: Result<
        (u32, usize),
        EvalStop,
    >)
        requires
            is_binop(self@),
            pos <= math@.len(),
        ensures
            step_matches(spec_bin_op(self@, lhs, rhs, math@, pos as int), r, math@, pos as int),
    {
        match self {
            Expr::Add(_, _) => Ok((add_f32(lhs, rhs), pos)),
            Expr::Sub(_, _) => Ok((sub_f32(lhs, rhs), pos)),
            Expr::Mul(_, _) => Ok((mul_f32(lhs, rhs), pos)),
            Expr::Div(_, _) => if is_zero_f32(rhs) {
                Err(EvalStop::Fail(EvalError::DivisionByZero))
            } else {
                Ok((div_f32(lhs, rhs), pos))
            },
            Expr::Pow(_, _) => if is_zero_f32(lhs) && le_zero_f32(rhs) {
                Err(EvalStop::Fail(EvalError::InvalidExponentiation))
            } else if pos < math.len() {
                Ok((math[pos], pos + 1))
            } else {
                Err(EvalStop::Call(MathCall::Pow(lhs, rhs)))
            },
            Expr::Log(_, _) => if le_zero_f32(lhs) || le_zero_f32(rhs) {
                Err(EvalStop::Fail(EvalError::InvalidLogarithm))
            } else if pos < math.len() {
                Ok((math[pos], pos + 1))
            } else {
                Err(EvalStop::Call(MathCall::Log(lhs, rhs)))
            },
            _ => vstd::pervasive::unreached(),
        }
    }

    /// The unary-operator semantics of this node applied to an operand
    /// value, assuming this node is one of the five unary operators.
    fn un_op_unchecked(&self, inner: u32, math: &[u32], pos: usize) -> (r: Result<
        (u32, usize),
        EvalStop,
    >)
        requires
            is_unop(self@),
            pos <= math@.len(),
        ensures
            step_matches(spec_un_op(self@, inner, math@, pos as int), r, math@, pos as int),
    {
        match self {
            Expr::Abs(_) => Ok((abs_f32(inner), pos)),
            Expr::Sin(_) => if pos < math.len() {
                Ok((math[pos], pos + 1))
            } else {
                Err(EvalStop::Call(MathCall::Sin(inner)))
            },
            Expr::Cos(_) => if pos < math.len() {
                Ok((math[pos], pos + 1))
            } else {
                Err(EvalStop::Call(MathCall::Cos(inner)))
            },
            Expr::Tan(_) => if pos < math.len() {
                Ok((math[pos], pos + 1))
            } else {
                Err(EvalStop::Call(MathCall::Tan(inner)))
            },
            Expr::Cot(_) => if pos < math.len() {
                let t = math[pos];
                if is_zero_f32(t) {
                    Err(EvalStop::Fail(EvalError::DivisionByZero))
                } else {
                    Ok((div_f32(ONE_BITS, t), pos + 1))
                }
            } else {
                Err(EvalStop::Call(MathCall::Tan(inner)))
            },
            _ => vstd::pervasive::unreached(),
        }
    }

    /// Constant evaluation from answer position `pos`.
    pub(crate) fn eval_const_at(&self, math: &[u32], pos: usize) -> (r: Result<(u32, usize), EvalStop>)
        requires
            pos <= math@.len(),
        ensures
            step_matches(spec_eval_const(self@, math@, pos as int), r, math@, pos as int),
        decreases dcount(self@), self, 0int,
    {
        match self {
            Expr::Num(b) => Ok((*b, pos)),
            Expr::Var(s) => Err(EvalStop::Fail(EvalError::VariableNotDefined(s.clone()))),
            Expr::Derivative(inner, var, sub) => match sub {
                Some(s) => match s.eval_const_at(math, pos) {
                    Ok((sv, p)) => inner.approx_derivative_at(var.as_str(), sv, DX_BITS, math, p),
                    Err(st) => Err(st),
                },
                None => Ok((ZERO_BITS, pos)),
            },
            Expr::Sin(i) | Expr::Cos(i) | Expr::Tan(i) | Expr::Cot(i) | Expr::Abs(i) => match i
                .eval_const_at(math, pos) {
                Ok((iv, p)) => self.un_op_unchecked(iv, math, p),
                Err(st) => Err(st),
            },
            Expr::Add(l, r) | Expr::Sub(l, r) | Expr::Mul(l, r) | Expr::Div(l, r)
                | Expr::Pow(l, r) | Expr::Log(l, r) => match l.eval_const_at(math, pos) {
                Ok((lv, p)) => match r.eval_const_at(math, p) {
                    Ok((rv, p2)) => self.bin_op_unchecked(lv, rv, math, p2),
                    Err(st) => Err(st),
                },
                Err(st) => Err(st),
            },
        }
    }

    /// Single-binding evaluation from answer position `pos`.
    fn eval_with_var_at(&self, var: &str, value: u32, math: &[u32], pos: usize) -> (r: Result<
        (u32, usize),
        EvalStop,
    >)
        requires
            pos <= math@.len(),
        ensures
            step_matches(
                spec_eval_with_var(self@, var@, value, math@, pos as int),
                r,
                math@,
                pos as int,
            ),
        decreases dcount(self@), self, 0int,
    {
        match self {
            Expr::Num(b) => Ok((*b, pos)),
            Expr::Var(s) => if str_eq(s.as_str(), var) {
                Ok((value, pos))
            } else {
                Err(EvalStop::Fail(EvalError::VariableNotDefined(s.clone())))
            },
            Expr::Derivative(inner, d_var, sub) => {
                let at = if !str_eq(d_var.as_str(), var) {
                    inner.substituted(var, &Expr::Num(value))
                } else {
                    (**inner).clone()
                };
                proof {
                    lemma_dcount_subst_num(inner@, var@, value);
                }
                match sub {
                    Some(s) => match s.eval_with_var_at(var, value, math, pos) {
                        Ok((sv, p)) => at.approx_derivative_at(d_var.as_str(), sv, DX_BITS, math, p),
                        Err(st) => Err(st),
                    },
                    None => if str_eq(d_var.as_str(), var) {
                        at.approx_derivative_at(d_var.as_str(), value, DX_BITS, math, pos)
                    } else {
                        Err(EvalStop::Fail(EvalError::VariableNotDefined(d_var.clone())))
                    },
                }
            },
            Expr::Sin(i) | Expr::Cos(i) | Expr::Tan(i) | Expr::Cot(i) | Expr::Abs(i) => match i
                .eval_with_var_at(var, value, math, pos) {
                Ok((iv, p)) => self.un_op_unchecked(iv, math, p),
                Err(st) => Err(st),
            },
            Expr::Add(l, r) | Expr::Sub(l, r) | Expr::Mul(l, r) | Expr::Div(l, r)
                | Expr::Pow(l, r) | Expr::Log(l, r) => match l.eval_with_var_at(
                var,
                value,
                math,
                pos,
            ) {
                Ok((lv, p)) => match r.eval_with_var_at(var, value, math, p) {
                    Ok((rv, p2)) => self.bin_op_unchecked(lv, rv, math, p2),
                    Err(st) => Err(st),
                },
                Err(st) => Err(st),
            },
        }
    }

    /// Central-difference differentiation from answer position `pos`.
    fn approx_derivative_at(&self, var: &str, value: u32, dx: u32, math: &[u32], pos: usize) -> (r:
        Result<(u32, usize), EvalStop>)
        requires
            pos <= math@.len(),
        ensures
            step_matches(
                spec_approx_derivative(self@, var@, value, dx, math@, pos as int),
                r,
                math@,
                pos as int,
            ),
        decreases dcount(self@), self, 1int,
    {
        match self.eval_with_var_at(var, sub_f32(value, dx), math, pos) {
            Ok((f1, p)) => match self.eval_with_var_at(var, add_f32(value, dx), math, p) {
                Ok((f2, p2)) => Ok((div_f32(sub_f32(f2, f1), mul_f32(TWO_BITS, dx)), p2)),
                Err(st) => Err(st),
            },
            Err(st) => Err(st),
        }
    }

    /// Evaluate the expression as a constant.
    ///
    /// Any variable leaf fails with
    /// [`EvalError::VariableNotDefined`].  A derivative node with a delayed
    /// substitution is differentiated at the substitution's value; one
    /// without evaluates to zero.  `math` is the answer list for
    /// transcendental calls.
    pub fn eval_const(&self, math: &[u32]) -> (r: EvalOutcome)
        ensures
            outcome_matches(spec_eval_const(self@, math@, 0), r),
    {
        match self.eval_const_at(math, 0) {
            Ok((v, _)) => EvalOutcome::Done(v),
            Err(EvalStop::Fail(e)) => EvalOutcome::Fail(e),
            Err(EvalStop::Call(c)) => EvalOutcome::Pending(c),
        }
    }

    /// Evaluate the expression with the given value for the variable.
    ///
    /// Any other variable fails with [`EvalError::VariableNotDefined`].  If
    /// the expression contains a derivative, a value for the derivative
    /// variable is required even when the derivative is constant.  `math` is
    /// the answer list for transcendental calls.
    pub fn eval_with_var(&self, var: &str, value: u32, math: &[u32]) -> (r: EvalOutcome)
        ensures
            outcome_matches(spec_eval_with_var(self@, var@, value, math@, 0), r),
    {
        match self.eval_with_var_at(var, value, math, 0) {
            Ok((v, _)) => EvalOutcome::Done(v),
            Err(EvalStop::Fail(e)) => EvalOutcome::Fail(e),
            Err(EvalStop::Call(c)) => EvalOutcome::Pending(c),
        }
    }

    /// Approximate the derivative of the expression with respect to `var`
    /// at `value`, with step `dx`: the central difference
    /// `(f(value + dx) - f(value - dx)) / (2 dx)`, every operation in
    /// binary32.  `math` is the answer list for transcendental calls.
    pub fn approx_derivative(&self, var: &str, value: u32, dx: u32, math: &[u32]) -> (r:
        EvalOutcome)
        ensures
            outcome_matches(spec_approx_derivative(self@, var@, value, dx, math@, 0), r),
    {
        match self.approx_derivative_at(var, value, dx, math, 0) {
            Ok((v, _)) => EvalOutcome::Done(v),
            Err(EvalStop::Fail(e)) => EvalOutcome::Fail(e),
            Err(EvalStop::Call(c)) => EvalOutcome::Pending(c),
        }
    }
}


/// The value of the first binding named `name` at or after index `i`.
pub open spec fn spec_lookup_at(bs: Seq<(Seq<char>, u32)>, name: Seq<char>, i: int) -> Option<u32>
    decreases bs.len() - i,
{
    if i < 0 || i >= bs.len() {
        None
    } else if bs[i].0 == name {
        Some(bs[i].1)
    } else {
        spec_lookup_at(bs, name, i + 1)
    }
}

/// The value of the last binding named `name` before index `i`.
pub open spec fn spec_last_before(bs: Seq<(Seq<char>, u32)>, name: Seq<char>, i: int) -> Option<
    u32,
>
    decreases i,
{
    if i <= 0 || i > bs.len() {
        None
    } else if bs[i - 1].0 == name {
        Some(bs[i - 1].1)
    } else {
        spec_last_before(bs, name, i - 1)
    }
}

/// Substitution of every binding from index `i` on, in order, skipping the
/// bindings named `skip`.
pub open spec fn spec_subst_skip(
    e: ExprModel,
    bs: Seq<(Seq<char>, u32)>,
    skip: Seq<char>,
    i: int,
) -> ExprModel
    decreases bs.len() - i,
{
    if i < 0 || i >= bs.len() {
        e
    } else {
        spec_subst_skip(
            if bs[i].0 == skip {
                e
            } else {
                spec_subst(e, bs[i].0, ExprModel::Num(bs[i].1))
            },
            bs,
            skip,
            i + 1,
        )
    }
}

/// Binding substitution never changes how many derivative nodes a tree holds.
pub proof fn lemma_dcount_subst_skip(e: ExprModel, bs: Seq<(Seq<char>, u32)>, skip: Seq<char>, i: int)
    ensures
        dcount(spec_subst_skip(e, bs, skip, i)) == dcount(e),
    decreases bs.len() - i,
{
    if 0 <= i < bs.len() {
        if bs[i].0 == skip {
            lemma_dcount_subst_skip(e, bs, skip, i + 1);
        } else {
            lemma_dcount_subst_num(e, bs[i].0, bs[i].1);
            lemma_dcount_subst_skip(spec_subst(e, bs[i].0, ExprModel::Num(bs[i].1)), bs, skip, i + 1);
        }
    }
}

/// Evaluation with a list of named bindings, looked up first match first.
/// A derivative node substitutes every binding other than its own variable
/// into its inner expression, evaluates its delayed substitution under the
/// full binding list if one is recorded — otherwise takes the last binding
/// of its own variable — and differentiates at that value.
pub open spec fn spec_eval_with(
    e: ExprModel,
    bs: Seq<(Seq<char>, u32)>,
    math: Seq<u32>,
    pos: int,
) -> Result<StepModel, StopModel>
    decreases dcount(e), e,
{
    match e {
        ExprModel::Num(b) => Ok(StepModel { value: b, next: pos }),
        ExprModel::Var(s) => match spec_lookup_at(bs, s, 0) {
            Some(v) => Ok(StepModel { value: v, next: pos }),
            None => Err(StopModel::Fail(EvalErrorModel::VariableNotDefined(s))),
        },
        ExprModel::Derivative(inner, d_var, sub) => {
            proof {
                lemma_dcount_subst_skip(*inner, bs, d_var, 0);
            }
            let at = spec_subst_skip(*inner, bs, d_var, 0);
            match sub {
                Some(s) => match spec_eval_with(*s, bs, math, pos) {
                    Ok(sv) => spec_approx_derivative(at, d_var, sv.value, DX_BITS, math, sv.next),
                    Err(st) => Err(st),
                },
                None => match spec_last_before(bs, d_var, bs.len() as int) {
                    Some(v) => spec_approx_derivative(at, d_var, v, DX_BITS, math, pos),
                    None => Err(StopModel::Fail(EvalErrorModel::VariableNotDefined(d_var))),
                },
            }
        },
        ExprModel::Sin(i) | ExprModel::Cos(i) | ExprModel::Tan(i) | ExprModel::Cot(i)
            | ExprModel::Abs(i) => match spec_eval_with(*i, bs, math, pos) {
            Ok(iv) => spec_un_op(e, iv.value, math, iv.next),
            Err(st) => Err(st),
        },
        ExprModel::Add(l, r) | ExprModel::Sub(l, r) | ExprModel::Mul(l, r) | ExprModel::Div(l, r)
            | ExprModel::Pow(l, r) | ExprModel::Log(l, r) => match spec_eval_with(
            *l,
            bs,
            math,
            pos,
        ) {
            Ok(lv) => match spec_eval_with(*r, bs, math, lv.next) {
                Ok(rv) => spec_bin_op(e, lv.value, rv.value, math, rv.next),
                Err(st) => Err(st),
            },
            Err(st) => Err(st),
        },
    }
}

/// The first binding of `name` in `values`, front to back.
fn lookup_first(values: &[(&str, u32)], name: &str) -> (r: Option<u32>)
    ensures
        r == spec_lookup_at(bindings_model(values@), name@, 0),
{
    let ghost bs = bindings_model(values@);
    let mut i: usize = 0;
    while i < values.len()
        invariant
            i <= values@.len(),
            bs == bindings_model(values@),
            spec_lookup_at(bs, name@, 0) == spec_lookup_at(bs, name@, i as int),
        decreases values@.len() - i,
    {
        let (n, v) = values[i];
        if str_eq(n, name) {
            return Some(v);
        }
        i += 1;
    }
    None
}

impl Expr {
    /// Multi-binding evaluation from answer position `pos`.
    fn eval_with_at(&self, values: &[(&str, u32)], math: &[u32], pos: usize) -> (r: Result<
        (u32, usize),
        EvalStop,
    >)
        requires
            pos <= math@.len(),
        ensures
            step_matches(
                spec_eval_with(self@, bindings_model(values@), math@, pos as int),
                r,
                math@,
                pos as int,
            ),
        decreases dcount(self@), self, 0int,
    {
        let ghost bs = bindings_model(values@);
        match self {
            Expr::Num(b) => Ok((*b, pos)),
            Expr::Var(s) => match lookup_first(values, s.as_str()) {
                Some(v) => Ok((v, pos)),
                None => Err(EvalStop::Fail(EvalError::VariableNotDefined(s.clone()))),
            },
            Expr::Derivative(inner, d_var, sub) => {
                let mut at = (**inner).clone();
                let mut d_val: Option<u32> = None;
                let mut i: usize = 0;
                while i < values.len()
                    invariant
                        i <= values@.len(),
                        bs == bindings_model(values@),
                        spec_subst_skip(inner@, bs, d_var@, 0) == spec_subst_skip(
                            at@,
                            bs,
                            d_var@,
                            i as int,
                        ),
                        d_val == spec_last_before(bs, d_var@, i as int),
                    decreases values@.len() - i,
                {
                    let (n, v) = values[i];
                    if str_eq(n, d_var.as_str()) {
                        d_val = Some(v);
                    } else {
                        at.substitute(n, &Expr::Num(v));
                    }
                    i += 1;
                }
                proof {
                    assert(spec_subst_skip(at@, bs, d_var@, i as int) == at@);
                    lemma_dcount_subst_skip(inner@, bs, d_var@, 0);
                }
                match sub {
                    Some(s) => match s.eval_with_at(values, math, pos) {
                        Ok((sv, p)) => at.approx_derivative_at(d_var.as_str(), sv, DX_BITS, math, p),
                        Err(st) => Err(st),
                    },
                    None => match d_val {
                        Some(v) => at.approx_derivative_at(d_var.as_str(), v, DX_BITS, math, pos),
                        None => Err(EvalStop::Fail(EvalError::VariableNotDefined(d_var.clone()))),
                    },
                }
            },
            Expr::Sin(i) | Expr::Cos(i) | Expr::Tan(i) | Expr::Cot(i) | Expr::Abs(i) => match i
                .eval_with_at(values, math, pos) {
                Ok((iv, p)) => self.un_op_unchecked(iv, math, p),
                Err(st) => Err(st),
            },
            Expr::Add(l, r) | Expr::Sub(l, r) | Expr::Mul(l, r) | Expr::Div(l, r)
                | Expr::Pow(l, r) | Expr::Log(l, r) => match l.eval_with_at(values, math, pos) {
                Ok((lv, p)) => match r.eval_with_at(values, math, p) {
                    Ok((rv, p2)) => self.bin_op_unchecked(lv, rv, math, p2),
                    Err(st) => Err(st),
                },
                Err(st) => Err(st),
            },
        }
    }

    /// Evaluate the expression with the given values for the variables.
    ///
    /// Lookup is linear in the number of bindings, first match first; the
    /// list is not meant to be large.  A value is required for a variable
    /// used by a derivative even when the derivative is constant.  `math`
    /// is the answer list for transcendental calls.
    pub fn eval_with(&self, values: &[(&str, u32)], math: &[u32]) -> (r: EvalOutcome)
        ensures
            outcome_matches(spec_eval_with(self@, bindings_model(values@), math@, 0), r),
    {
        match self.eval_with_at(values, math, 0) {
            Ok((v, _)) => EvalOutcome::Done(v),
            Err(EvalStop::Fail(e)) => EvalOutcome::Fail(e),
            Err(EvalStop::Call(c)) => EvalOutcome::Pending(c),
        }
    }
}

} // verus!
