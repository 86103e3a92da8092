//! General properties of parsing, substitution and evaluation, stated and
//! proved over the models.

use vstd::prelude::*;
use crate::eval::{
    spec_approx_derivative, spec_bin_op, spec_eval_const, spec_eval_with, spec_eval_with_var,
    spec_lookup_at, spec_un_op, StepModel, StopModel,
};
use crate::eval_error::EvalErrorModel;
use crate::parse_error::ParseErrorModel;
use crate::expr::{spec_subst, spec_subst_nums, ExprModel};
use crate::numeric::{DX_BITS, NEG_ONE_BITS};
use crate::parser::{
    spec_fold, spec_parse, spec_parse_args, spec_parse_atom, spec_parse_power, spec_parse_product,
    spec_parse_sum, spec_power_rest, spec_product_rest, spec_sum_rest, spec_args_rest, spec_atom_core,
    spec_to_binop, spec_to_func, spec_wrap_binop, spec_wrap_func, ArgsStep, PStep, PStop,
};
use crate::token::TokenModel;

verus! {

broadcast use vstd::string::group_string_axioms;

/// Whether the tree holds a variable leaf anywhere.
pub open spec fn has_var(e: ExprModel) -> bool
    decreases e,
{
    match e {
        ExprModel::Num(_) => false,
        ExprModel::Var(_) => true,
        ExprModel::Add(l, r) => has_var(*l) || has_var(*r),
        ExprModel::Sub(l, r) => has_var(*l) || has_var(*r),
        ExprModel::Mul(l, r) => has_var(*l) || has_var(*r),
        ExprModel::Div(l, r) => has_var(*l) || has_var(*r),
        ExprModel::Pow(l, r) => has_var(*l) || has_var(*r),
        ExprModel::Log(l, r) => has_var(*l) || has_var(*r),
        ExprModel::Sin(i) => has_var(*i),
        ExprModel::Cos(i) => has_var(*i),
        ExprModel::Tan(i) => has_var(*i),
        ExprModel::Cot(i) => has_var(*i),
        ExprModel::Abs(i) => has_var(*i),
        ExprModel::Derivative(inner, _, sub) => has_var(*inner) || match sub {
            Some(s) => has_var(*s),
            None => false,
        },
    }
}

/// Whether the tree is free of derivative nodes.
pub open spec fn no_deriv(e: ExprModel) -> bool
    decreases e,
{
    match e {
        ExprModel::Num(_) => true,
        ExprModel::Var(_) => true,
        ExprModel::Add(l, r) => no_deriv(*l) && no_deriv(*r),
        ExprModel::Sub(l, r) => no_deriv(*l) && no_deriv(*r),
        ExprModel::Mul(l, r) => no_deriv(*l) && no_deriv(*r),
        ExprModel::Div(l, r) => no_deriv(*l) && no_deriv(*r),
        ExprModel::Pow(l, r) => no_deriv(*l) && no_deriv(*r),
        ExprModel::Log(l, r) => no_deriv(*l) && no_deriv(*r),
        ExprModel::Sin(i) => no_deriv(*i),
        ExprModel::Cos(i) => no_deriv(*i),
        ExprModel::Tan(i) => no_deriv(*i),
        ExprModel::Cot(i) => no_deriv(*i),
        ExprModel::Abs(i) => no_deriv(*i),
        ExprModel::Derivative(_, _, _) => false,
    }
}

/// Whether the tree is constant: free of variable leaves and derivative
/// nodes.  This is exactly the constness that the parser tracks for its
/// folding decisions.
pub open spec fn is_const_tree(e: ExprModel) -> bool
    decreases e,
{
    match e {
        ExprModel::Num(_) => true,
        ExprModel::Var(_) => false,
        ExprModel::Add(l, r) => is_const_tree(*l) && is_const_tree(*r),
        ExprModel::Sub(l, r) => is_const_tree(*l) && is_const_tree(*r),
        ExprModel::Mul(l, r) => is_const_tree(*l) && is_const_tree(*r),
        ExprModel::Div(l, r) => is_const_tree(*l) && is_const_tree(*r),
        ExprModel::Pow(l, r) => is_const_tree(*l) && is_const_tree(*r),
        ExprModel::Log(l, r) => is_const_tree(*l) && is_const_tree(*r),
        ExprModel::Sin(i) => is_const_tree(*i),
        ExprModel::Cos(i) => is_const_tree(*i),
        ExprModel::Tan(i) => is_const_tree(*i),
        ExprModel::Cot(i) => is_const_tree(*i),
        ExprModel::Abs(i) => is_const_tree(*i),
        ExprModel::Derivative(_, _, _) => false,
    }
}

/// Whether the tree holds no evaluable-but-unevaluated constant
/// sub-expression: every constant operator node has already been replaced
/// by its numeric result.  Trees built by parsing with constant folding
/// enabled have this shape.
pub open spec fn folded(e: ExprModel) -> bool
    decreases e,
{
    match e {
        ExprModel::Num(_) => true,
        ExprModel::Var(_) => true,
        ExprModel::Add(l, r) => !is_const_tree(e) && folded(*l) && folded(*r),
        ExprModel::Sub(l, r) => !is_const_tree(e) && folded(*l) && folded(*r),
        ExprModel::Mul(l, r) => !is_const_tree(e) && folded(*l) && folded(*r),
        ExprModel::Div(l, r) => !is_const_tree(e) && folded(*l) && folded(*r),
        ExprModel::Pow(l, r) => !is_const_tree(e) && folded(*l) && folded(*r),
        ExprModel::Log(l, r) => !is_const_tree(e) && folded(*l) && folded(*r),
        ExprModel::Sin(i) => !is_const_tree(e) && folded(*i),
        ExprModel::Cos(i) => !is_const_tree(e) && folded(*i),
        ExprModel::Tan(i) => !is_const_tree(e) && folded(*i),
        ExprModel::Cot(i) => !is_const_tree(e) && folded(*i),
        ExprModel::Abs(i) => !is_const_tree(e) && folded(*i),
        ExprModel::Derivative(inner, _, sub) => folded(*inner) && match sub {
            Some(s) => folded(*s),
            None => true,
        },
    }
}

/// The name of the variable that evaluation meets first: the leftmost
/// variable leaf in evaluation order.
pub open spec fn first_var(e: ExprModel) -> Seq<char>
    decreases e,
{
    match e {
        ExprModel::Var(s) => s,
        ExprModel::Add(l, r) => if has_var(*l) {
            first_var(*l)
        } else {
            first_var(*r)
        },
        ExprModel::Sub(l, r) => if has_var(*l) {
            first_var(*l)
        } else {
            first_var(*r)
        },
        ExprModel::Mul(l, r) => if has_var(*l) {
            first_var(*l)
        } else {
            first_var(*r)
        },
        ExprModel::Div(l, r) => if has_var(*l) {
            first_var(*l)
        } else {
            first_var(*r)
        },
        ExprModel::Pow(l, r) => if has_var(*l) {
            first_var(*l)
        } else {
            first_var(*r)
        },
        ExprModel::Log(l, r) => if has_var(*l) {
            first_var(*l)
        } else {
            first_var(*r)
        },
        ExprModel::Sin(i) => first_var(*i),
        ExprModel::Cos(i) => first_var(*i),
        ExprModel::Tan(i) => first_var(*i),
        ExprModel::Cot(i) => first_var(*i),
        ExprModel::Abs(i) => first_var(*i),
        _ => vstd::pervasive::arbitrary(),
    }
}

/// On a derivative-free tree, being constant is exactly being free of
/// variables.
pub proof fn lemma_const_iff_no_var(e: ExprModel)
    requires
        no_deriv(e),
    ensures
        is_const_tree(e) <==> !has_var(e),
    decreases e,
{
    match e {
        ExprModel::Num(_) => {},
        ExprModel::Var(_) => {},
        ExprModel::Add(l, r) => {
            lemma_const_iff_no_var(*l);
            lemma_const_iff_no_var(*r);
        },
        ExprModel::Sub(l, r) => {
            lemma_const_iff_no_var(*l);
            lemma_const_iff_no_var(*r);
        },
        ExprModel::Mul(l, r) => {
            lemma_const_iff_no_var(*l);
            lemma_const_iff_no_var(*r);
        },
        ExprModel::Div(l, r) => {
            lemma_const_iff_no_var(*l);
            lemma_const_iff_no_var(*r);
        },
        ExprModel::Pow(l, r) => {
            lemma_const_iff_no_var(*l);
            lemma_const_iff_no_var(*r);
        },
        ExprModel::Log(l, r) => {
            lemma_const_iff_no_var(*l);
            lemma_const_iff_no_var(*r);
        },
        ExprModel::Sin(i) => {
            lemma_const_iff_no_var(*i);
        },
        ExprModel::Cos(i) => {
            lemma_const_iff_no_var(*i);
        },
        ExprModel::Tan(i) => {
            lemma_const_iff_no_var(*i);
        },
        ExprModel::Cot(i) => {
            lemma_const_iff_no_var(*i);
        },
        ExprModel::Abs(i) => {
            lemma_const_iff_no_var(*i);
        },
        ExprModel::Derivative(_, _, _) => {},
    }
}

/// A derivative-free, folded tree that is free of variables is a single
/// numeric leaf: anything larger would be an unevaluated constant
/// sub-expression.
pub proof fn lemma_folded_const_is_num(e: ExprModel)
    requires
        no_deriv(e),
        folded(e),
        !has_var(e),
    ensures
        e is Num,
{
    lemma_const_iff_no_var(e);
}

/// Evaluating a derivative node with respect to its own variable gives
/// exactly the central-difference approximation of its inner expression at
/// the supplied value, with the default step.
pub proof fn lemma_derivative_matches_direct(
    e: ExprModel,
    var: Seq<char>,
    value: u32,
    math: Seq<u32>,
    pos: int,
)
    ensures
        spec_eval_with_var(
            ExprModel::Derivative(Box::new(e), var, None),
            var,
            value,
            math,
            pos,
        ) == spec_approx_derivative(e, var, value, DX_BITS, math, pos),
{
}

/// Substituting a number for a variable and then evaluating the tree as a
/// constant is the same as evaluating the original tree with that variable
/// bound to the number — on derivative-free trees, for every answer list
/// and every position in it.
pub proof fn lemma_subst_then_eval_const(
    e: ExprModel,
    var: Seq<char>,
    value: u32,
    math: Seq<u32>,
    pos: int,
)
    requires
        no_deriv(e),
    ensures
        spec_eval_const(spec_subst(e, var, ExprModel::Num(value)), math, pos) == spec_eval_with_var(
            e,
            var,
            value,
            math,
            pos,
        ),
    decreases e, 1int,
{
    match e {
        ExprModel::Num(_) => {},
        ExprModel::Var(_) => {},
        ExprModel::Add(l, r) => {
            lemma_subst_binop(e, *l, *r, var, value, math, pos);
        },
        ExprModel::Sub(l, r) => {
            lemma_subst_binop(e, *l, *r, var, value, math, pos);
        },
        ExprModel::Mul(l, r) => {
            lemma_subst_binop(e, *l, *r, var, value, math, pos);
        },
        ExprModel::Div(l, r) => {
            lemma_subst_binop(e, *l, *r, var, value, math, pos);
        },
        ExprModel::Pow(l, r) => {
            lemma_subst_binop(e, *l, *r, var, value, math, pos);
        },
        ExprModel::Log(l, r) => {
            lemma_subst_binop(e, *l, *r, var, value, math, pos);
        },
        ExprModel::Sin(i) => {
            lemma_subst_unop(e, *i, var, value, math, pos);
        },
        ExprModel::Cos(i) => {
            lemma_subst_unop(e, *i, var, value, math, pos);
        },
        ExprModel::Tan(i) => {
            lemma_subst_unop(e, *i, var, value, math, pos);
        },
        ExprModel::Cot(i) => {
            lemma_subst_unop(e, *i, var, value, math, pos);
        },
        ExprModel::Abs(i) => {
            lemma_subst_unop(e, *i, var, value, math, pos);
        },
        ExprModel::Derivative(_, _, _) => {},
    }
}

/// The binary-operator case of the substitution law: both operands agree by
/// induction, positions and all, and the operator semantics look only at
/// the node's variant, which substitution preserves.
proof fn lemma_subst_binop(
    e: ExprModel,
    l: ExprModel,
    r: ExprModel,
    var: Seq<char>,
    value: u32,
    math: Seq<u32>,
    pos: int,
)
    requires
        no_deriv(l),
        no_deriv(r),
        e == ExprModel::Add(Box::new(l), Box::new(r)) || e == ExprModel::Sub(
            Box::new(l),
            Box::new(r),
        ) || e == ExprModel::Mul(Box::new(l), Box::new(r)) || e == ExprModel::Div(
            Box::new(l),
            Box::new(r),
        ) || e == ExprModel::Pow(Box::new(l), Box::new(r)) || e == ExprModel::Log(
            Box::new(l),
            Box::new(r),
        ),
    ensures
        spec_eval_const(spec_subst(e, var, ExprModel::Num(value)), math, pos) == spec_eval_with_var(
            e,
            var,
            value,
            math,
            pos,
        ),
    decreases e, 0int,
{
    lemma_subst_then_eval_const(l, var, value, math, pos);
    let lv = spec_eval_with_var(l, var, value, math, pos);
    if lv is Ok {
        lemma_subst_then_eval_const(r, var, value, math, lv->Ok_0.next);
    }
}

/// The unary-operator case of the substitution law.
proof fn lemma_subst_unop(
    e: ExprModel,
    i: ExprModel,
    var: Seq<char>,
    value: u32,
    math: Seq<u32>,
    pos: int,
)
    requires
        no_deriv(i),
        e == ExprModel::Sin(Box::new(i)) || e == ExprModel::Cos(Box::new(i)) || e == ExprModel::Tan(
            Box::new(i),
        ) || e == ExprModel::Cot(Box::new(i)) || e == ExprModel::Abs(Box::new(i)),
    ensures
        spec_eval_const(spec_subst(e, var, ExprModel::Num(value)), math, pos) == spec_eval_with_var(
            e,
            var,
            value,
            math,
            pos,
        ),
    decreases e, 0int,
{
    lemma_subst_then_eval_const(i, var, value, math, pos);
}

/// Constant evaluation of a folded, derivative-free tree that still holds a
/// variable always fails with `VariableNotDefined`, naming the first
/// variable in evaluation order — never with a numeric error, since every
/// fully constant sub-expression has already been folded to a leaf.
pub proof fn lemma_eval_const_free_variable(e: ExprModel, math: Seq<u32>, pos: int)
    requires
        no_deriv(e),
        folded(e),
        has_var(e),
    ensures
        spec_eval_const(e, math, pos) == Err::<StepModel, StopModel>(
            StopModel::Fail(EvalErrorModel::VariableNotDefined(first_var(e))),
        ),
    decreases e, 1int,
{
    match e {
        ExprModel::Num(_) => {},
        ExprModel::Var(_) => {},
        ExprModel::Add(l, r) => {
            lemma_eval_binop_free_variable(e, *l, *r, math, pos);
        },
        ExprModel::Sub(l, r) => {
            lemma_eval_binop_free_variable(e, *l, *r, math, pos);
        },
        ExprModel::Mul(l, r) => {
            lemma_eval_binop_free_variable(e, *l, *r, math, pos);
        },
        ExprModel::Div(l, r) => {
            lemma_eval_binop_free_variable(e, *l, *r, math, pos);
        },
        ExprModel::Pow(l, r) => {
            lemma_eval_binop_free_variable(e, *l, *r, math, pos);
        },
        ExprModel::Log(l, r) => {
            lemma_eval_binop_free_variable(e, *l, *r, math, pos);
        },
        ExprModel::Sin(i) => {
            lemma_eval_const_free_variable(*i, math, pos);
        },
        ExprModel::Cos(i) => {
            lemma_eval_const_free_variable(*i, math, pos);
        },
        ExprModel::Tan(i) => {
            lemma_eval_const_free_variable(*i, math, pos);
        },
        ExprModel::Cot(i) => {
            lemma_eval_const_free_variable(*i, math, pos);
        },
        ExprModel::Abs(i) => {
            lemma_eval_const_free_variable(*i, math, pos);
        },
        ExprModel::Derivative(_, _, _) => {},
    }
}

/// The binary-operator case of the free-variable law: a variable-free
/// operand of a folded tree is a numeric leaf, so evaluation reaches the
/// first operand that holds a variable and fails there.
proof fn lemma_eval_binop_free_variable(
    e: ExprModel,
    l: ExprModel,
    r: ExprModel,
    math: Seq<u32>,
    pos: int,
)
    requires
        no_deriv(l),
        no_deriv(r),
        folded(l),
        folded(r),
        has_var(l) || has_var(r),
        e == ExprModel::Add(Box::new(l), Box::new(r)) || e == ExprModel::Sub(
            Box::new(l),
            Box::new(r),
        ) || e == ExprModel::Mul(Box::new(l), Box::new(r)) || e == ExprModel::Div(
            Box::new(l),
            Box::new(r),
        ) || e == ExprModel::Pow(Box::new(l), Box::new(r)) || e == ExprModel::Log(
            Box::new(l),
            Box::new(r),
        ),
    ensures
        spec_eval_const(e, math, pos) == Err::<StepModel, StopModel>(
            StopModel::Fail(EvalErrorModel::VariableNotDefined(if has_var(l) {
                first_var(l)
            } else {
                first_var(r)
            })),
        ),
    decreases e, 0int,
{
    if has_var(l) {
        lemma_eval_const_free_variable(l, math, pos);
    } else {
        lemma_folded_const_is_num(l);
        let lv = spec_eval_const(l, math, pos);
        assert(lv is Ok && lv->Ok_0.next == pos);
        lemma_eval_const_free_variable(r, math, pos);
    }
}


/// What parsing with constant folding enabled guarantees of a produced
/// step: the constness flag is exactly structural constness, the tree is
/// folded, and a constant result is a single numeric leaf.
pub open spec fn folds_ok(r: Result<PStep, PStop>) -> bool {
    match r {
        Ok(st) => st.is_const == is_const_tree(st.expr) && folded(st.expr) && (st.is_const
            ==> st.expr is Num),
        Err(_) => true,
    }
}

/// The guarantee for an argument list: the joint constness flag is exactly
/// the structural constness of every argument, and every argument is
/// folded.
pub open spec fn args_invariant(args: Seq<ExprModel>, all_const: bool) -> bool {
    (all_const <==> (forall|k: int| 0 <= k < args.len() ==> is_const_tree(#[trigger] args[k])))
        && (forall|k: int| 0 <= k < args.len() ==> folded(#[trigger] args[k]))
}

/// The same guarantee for a parsed argument list, argument by argument.
pub open spec fn args_fold_ok(r: Result<ArgsStep, PStop>) -> bool {
    match r {
        Ok(ast) => args_invariant(ast.args, ast.is_const),
        Err(_) => true,
    }
}

/// Folding a node whose constness flag is accurate keeps the guarantee:
/// a constant node folds to a numeric leaf, a non-constant node stays as
/// it is.
proof fn lemma_fold_folds(node: ExprModel, do_fold: bool, math: Seq<u32>, mpos: int)
    requires
        do_fold == is_const_tree(node),
        folded(node) || do_fold,
    ensures
        match spec_fold(node, do_fold, math, mpos) {
            Ok((e2, _)) => is_const_tree(e2) == do_fold && folded(e2) && (do_fold ==> e2 is Num),
            Err(_) => true,
        },
{
}

/// The guarantee for a binary node built from guaranteed operands.
proof fn lemma_to_binop_folds(
    op: TokenModel,
    lhs: ExprModel,
    rhs: ExprModel,
    both: bool,
    math: Seq<u32>,
    mpos: int,
)
    requires
        both == (is_const_tree(lhs) && is_const_tree(rhs)),
        folded(lhs),
        folded(rhs),
    ensures
        match spec_to_binop(op, lhs, rhs, both, math, mpos) {
            Ok((e2, _)) => is_const_tree(e2) == both && folded(e2) && (both ==> e2 is Num),
            Err(_) => true,
        },
{
    match spec_wrap_binop(op, lhs, rhs) {
        Ok(node) => {
            assert(is_const_tree(node) == both);
            assert(!both ==> folded(node));
            lemma_fold_folds(node, both, math, mpos);
        },
        Err(_) => {},
    }
}

/// The guarantee carried through a parsed sum.
proof fn lemma_sum_folds(ts: Seq<TokenModel>, i: int, math: Seq<u32>, mpos: int)
    requires
        0 <= i <= ts.len(),
    ensures
        folds_ok(spec_parse_sum(ts, i, true, math, mpos)),
    decreases ts.len() - i, 4int,
{
    lemma_product_folds(ts, i, math, mpos);
    match spec_parse_product(ts, i, true, math, mpos) {
        Ok(st) => {
            if i < st.next <= ts.len() {
                lemma_sum_rest_folds(ts, st.expr, st.is_const, st.next, math, st.mpos);
            }
        },
        Err(_) => {},
    }
}

/// The guarantee carried through the rest of a sum.
#[verifier::rlimit(100)]
proof fn lemma_sum_rest_folds(
    ts: Seq<TokenModel>,
    lhs: ExprModel,
    lhs_const: bool,
    i: int,
    math: Seq<u32>,
    mpos: int,
)
    requires
        lhs_const == is_const_tree(lhs),
        folded(lhs),
        lhs_const ==> lhs is Num,
        0 <= i <= ts.len(),
    ensures
        folds_ok(spec_sum_rest(ts, lhs, lhs_const, i, true, math, mpos)),
    decreases ts.len() - i, 4int,
{
    if 0 <= i < ts.len() && (ts[i] is Plus || ts[i] is Minus) {
        lemma_product_folds(ts, i + 1, math, mpos);
        match spec_parse_product(ts, i + 1, true, math, mpos) {
            Ok(st) => {
                let both = lhs_const && st.is_const;
                lemma_to_binop_folds(ts[i], lhs, st.expr, both, math, st.mpos);
                match spec_to_binop(ts[i], lhs, st.expr, both, math, st.mpos) {
                    Ok((e2, mp2)) => {
                        if i < st.next <= ts.len() {
                            lemma_sum_rest_folds(ts, e2, both, st.next, math, mp2);
                        }
                    },
                    Err(_) => {},
                }
            },
            Err(_) => {},
        }
    }
}

/// The guarantee carried through a parsed product.
proof fn lemma_product_folds(ts: Seq<TokenModel>, i: int, math: Seq<u32>, mpos: int)
    requires
        0 <= i <= ts.len(),
    ensures
        folds_ok(spec_parse_product(ts, i, true, math, mpos)),
    decreases ts.len() - i, 3int,
{
    lemma_power_folds(ts, i, math, mpos);
    match spec_parse_power(ts, i, true, math, mpos) {
        Ok(st) => {
            if i < st.next <= ts.len() {
                lemma_product_rest_folds(ts, st.expr, st.is_const, st.next, math, st.mpos);
            }
        },
        Err(_) => {},
    }
}

/// The guarantee carried through the rest of a product.
#[verifier::rlimit(100)]
proof fn lemma_product_rest_folds(
    ts: Seq<TokenModel>,
    lhs: ExprModel,
    lhs_const: bool,
    i: int,
    math: Seq<u32>,
    mpos: int,
)
    requires
        lhs_const == is_const_tree(lhs),
        folded(lhs),
        lhs_const ==> lhs is Num,
        0 <= i <= ts.len(),
    ensures
        folds_ok(spec_product_rest(ts, lhs, lhs_const, i, true, math, mpos)),
    decreases ts.len() - i, 3int,
{
    if 0 <= i < ts.len() && (ts[i] is Star || ts[i] is Slash) {
        lemma_power_folds(ts, i + 1, math, mpos);
        match spec_parse_power(ts, i + 1, true, math, mpos) {
            Ok(st) => {
                let both = lhs_const && st.is_const;
                lemma_to_binop_folds(ts[i], lhs, st.expr, both, math, st.mpos);
                match spec_to_binop(ts[i], lhs, st.expr, both, math, st.mpos) {
                    Ok((e2, mp2)) => {
                        if i < st.next <= ts.len() {
                            lemma_product_rest_folds(ts, e2, both, st.next, math, mp2);
                        }
                    },
                    Err(_) => {},
                }
            },
            Err(_) => {},
        }
    }
}

/// The guarantee carried through a parsed power.
proof fn lemma_power_folds(ts: Seq<TokenModel>, i: int, math: Seq<u32>, mpos: int)
    requires
        0 <= i <= ts.len(),
    ensures
        folds_ok(spec_parse_power(ts, i, true, math, mpos)),
    decreases ts.len() - i, 2int,
{
    lemma_atom_folds(ts, i, math, mpos);
    match spec_parse_atom(ts, i, true, math, mpos) {
        Ok(st) => {
            if i < st.next <= ts.len() {
                lemma_power_rest_folds(ts, st.expr, st.is_const, st.next, math, st.mpos);
            }
        },
        Err(_) => {},
    }
}

/// The guarantee carried through the rest of a power.
#[verifier::rlimit(100)]
proof fn lemma_power_rest_folds(
    ts: Seq<TokenModel>,
    lhs: ExprModel,
    lhs_const: bool,
    i: int,
    math: Seq<u32>,
    mpos: int,
)
    requires
        lhs_const == is_const_tree(lhs),
        folded(lhs),
        lhs_const ==> lhs is Num,
        0 <= i <= ts.len(),
    ensures
        folds_ok(spec_power_rest(ts, lhs, lhs_const, i, true, math, mpos)),
    decreases ts.len() - i, 2int,
{
    if 0 <= i < ts.len() && ts[i] is Caret {
        lemma_atom_folds(ts, i + 1, math, mpos);
        match spec_parse_atom(ts, i + 1, true, math, mpos) {
            Ok(st) => {
                let both = lhs_const && st.is_const;
                lemma_to_binop_folds(ts[i], lhs, st.expr, both, math, st.mpos);
                match spec_to_binop(ts[i], lhs, st.expr, both, math, st.mpos) {
                    Ok((e2, mp2)) => {
                        if i < st.next <= ts.len() {
                            lemma_power_rest_folds(ts, e2, both, st.next, math, mp2);
                        }
                    },
                    Err(_) => {},
                }
            },
            Err(_) => {},
        }
    }
}

/// The guarantee for a built function call whose arguments carry it.
#[verifier::rlimit(100)]
proof fn lemma_to_func_folds(
    name: Seq<char>,
    args: Seq<ExprModel>,
    all_const: bool,
    math: Seq<u32>,
    mpos: int,
)
    requires
        args_invariant(args, all_const),
    ensures
        match spec_to_func(name, args, all_const, math, mpos) {
            Ok((f, _)) => is_const_tree(f) == all_const && folded(f) && (all_const ==> f is Num),
            Err(_) => true,
        },
{
    if args.len() == 1 {
        assert(all_const <==> is_const_tree(args[0])) by {
            if is_const_tree(args[0]) {
                assert forall|k: int| 0 <= k < args.len() implies is_const_tree(
                    #[trigger] args[k],
                ) by {
                    assert(args[k] == args[0]);
                }
            }
        }
        assert(folded(args[0]));
    }
    if args.len() == 2 {
        assert(all_const <==> (is_const_tree(args[0]) && is_const_tree(args[1]))) by {
            if is_const_tree(args[0]) && is_const_tree(args[1]) {
                assert forall|k: int| 0 <= k < args.len() implies is_const_tree(
                    #[trigger] args[k],
                ) by {
                    assert(args[k] == args[0] || args[k] == args[1]);
                }
            }
        }
        assert(folded(args[0]));
        assert(folded(args[1]));
    }
    assert(is_const_tree(ExprModel::Num(crate::numeric::E_BITS)));
    assert(folded(ExprModel::Num(crate::numeric::E_BITS)));
    assert(is_const_tree(ExprModel::Num(crate::numeric::TEN_BITS)));
    assert(folded(ExprModel::Num(crate::numeric::TEN_BITS)));
    match spec_wrap_func(name, args) {
        Ok(node) => {
            assert(is_const_tree(node) == all_const && (!all_const ==> folded(node)));
            lemma_fold_folds(node, all_const, math, mpos);
        },
        Err(_) => {},
    }
}

/// The guarantee carried through a parsed atom.
#[verifier::rlimit(100)]
proof fn lemma_atom_folds(ts: Seq<TokenModel>, i: int, math: Seq<u32>, mpos: int)
    requires
        0 <= i <= ts.len(),
    ensures
        folds_ok(spec_parse_atom(ts, i, true, math, mpos)),
    decreases ts.len() - i, 1int,
{
    crate::parser::lemma_sign_end(ts, i);
    let sc = crate::parser::sign_end(ts, i);
    if sc < ts.len() {
        lemma_atom_core_folds(ts, sc, math, mpos);
        match spec_atom_core(ts, sc, true, math, mpos) {
            Ok(st) => {
                if crate::parser::sign_negative(ts, i) {
                    let node = ExprModel::Mul(
                        Box::new(ExprModel::Num(NEG_ONE_BITS)),
                        Box::new(st.expr),
                    );
                    assert(is_const_tree(ExprModel::Num(NEG_ONE_BITS)));
                    assert(folded(ExprModel::Num(NEG_ONE_BITS)));
                    assert(is_const_tree(node) == st.is_const);
                    assert(!st.is_const ==> folded(node));
                    lemma_fold_folds(node, st.is_const, math, st.mpos);
                }
            },
            Err(_) => {},
        }
    }
}

/// The guarantee carried through the core of an atom.
#[verifier::rlimit(100)]
proof fn lemma_atom_core_folds(ts: Seq<TokenModel>, sc: int, math: Seq<u32>, mpos: int)
    requires
        0 <= sc < ts.len(),
    ensures
        folds_ok(spec_atom_core(ts, sc, true, math, mpos)),
    decreases ts.len() - sc, 0int,
{
    match ts[sc] {
        TokenModel::LParen => {
            lemma_sum_folds(ts, sc + 1, math, mpos);
        },
        TokenModel::Ident(name) => {
            if sc + 1 < ts.len() && ts[sc + 1] is LParen {
                lemma_args_folds(ts, sc + 2, math, mpos);
                match spec_parse_args(ts, sc + 2, true, math, mpos) {
                    Ok(ast) => {
                        if ast.next < ts.len() && ts[ast.next] is RParen {
                            lemma_to_func_folds(name, ast.args, ast.is_const, math, ast.mpos);
                        }
                    },
                    Err(_) => {},
                }
            }
        },
        _ => {},
    }
}

/// The guarantee carried through a parsed argument list.
proof fn lemma_args_folds(ts: Seq<TokenModel>, i: int, math: Seq<u32>, mpos: int)
    requires
        0 <= i <= ts.len(),
    ensures
        args_fold_ok(spec_parse_args(ts, i, true, math, mpos)),
    decreases ts.len() - i, 5int,
{
    lemma_sum_folds(ts, i, math, mpos);
    match spec_parse_sum(ts, i, true, math, mpos) {
        Ok(st) => {
            if i < st.next <= ts.len() {
                let acc = seq![st.expr];
                assert(acc[0] == st.expr);
                assert(args_invariant(acc, st.is_const)) by {
                    assert forall|k: int| 0 <= k < acc.len() implies (is_const_tree(
                        #[trigger] acc[k],
                    ) == st.is_const) && folded(acc[k]) by {
                        assert(acc[k] == st.expr);
                    }
                }
                lemma_args_rest_folds(ts, acc, st.is_const, st.next, math, st.mpos);
            }
        },
        Err(_) => {},
    }
}

/// The guarantee carried through the rest of an argument list.
#[verifier::rlimit(100)]
proof fn lemma_args_rest_folds(
    ts: Seq<TokenModel>,
    acc: Seq<ExprModel>,
    all_const: bool,
    i: int,
    math: Seq<u32>,
    mpos: int,
)
    requires
        args_invariant(acc, all_const),
        0 <= i <= ts.len(),
    ensures
        args_fold_ok(spec_args_rest(ts, acc, all_const, i, true, math, mpos)),
    decreases ts.len() - i, 5int,
{
    if 0 <= i < ts.len() && ts[i] is Comma {
        lemma_sum_folds(ts, i + 1, math, mpos);
        match spec_parse_sum(ts, i + 1, true, math, mpos) {
            Ok(st) => {
                if i < st.next <= ts.len() {
                    let acc2 = acc.push(st.expr);
                    assert(args_invariant(acc2, all_const && st.is_const)) by {
                        assert forall|k: int| 0 <= k < acc2.len() implies folded(
                            #[trigger] acc2[k],
                        ) by {
                            if k < acc.len() {
                                assert(acc2[k] == acc[k]);
                            } else {
                                assert(acc2[k] == st.expr);
                            }
                        }
                        if all_const && st.is_const {
                            assert forall|k: int| 0 <= k < acc2.len() implies is_const_tree(
                                #[trigger] acc2[k],
                            ) by {
                                if k < acc.len() {
                                    assert(acc2[k] == acc[k]);
                                } else {
                                    assert(acc2[k] == st.expr);
                                }
                            }
                        } else if !all_const {
                            let k0 = choose|k: int|
                                0 <= k < acc.len() && !is_const_tree(#[trigger] acc[k]);
                            assert(acc2[k0] == acc[k0]);
                            assert(!is_const_tree(acc2[k0]));
                        } else {
                            assert(acc2[acc.len() as int] == st.expr);
                            assert(!is_const_tree(acc2[acc.len() as int]));
                        }
                    }
                    lemma_args_rest_folds(ts, acc2, all_const && st.is_const, st.next, math, st.mpos);
                }
            },
            Err(_) => {},
        }
    }
}

/// Parsing with constant folding enabled never leaves an unevaluated
/// constant sub-expression in its result, and a fully constant input
/// parses to a single numeric leaf.
pub proof fn lemma_parse_folded(ts: Seq<TokenModel>, math: Seq<u32>)
    ensures
        match spec_parse(ts, true, math) {
            Ok(e) => folded(e) && (is_const_tree(e) ==> e is Num),
            Err(_) => true,
        },
{
    lemma_sum_folds(ts, 0, math, 0);
}


/// What parsing without folding guarantees of a produced step: the
/// constness flag is exactly structural constness.
pub open spec fn raw_flag_ok(r: Result<PStep, PStop>) -> bool {
    match r {
        Ok(st) => st.is_const == is_const_tree(st.expr),
        Err(_) => true,
    }
}

/// The joint constness flag of an argument list is exactly the structural
/// constness of every argument.
pub open spec fn args_const_invariant(args: Seq<ExprModel>, all_const: bool) -> bool {
    all_const <==> (forall|k: int| 0 <= k < args.len() ==> is_const_tree(#[trigger] args[k]))
}

/// The flag guarantee for an argument list parsed without folding.
pub open spec fn raw_args_flag_ok(r: Result<ArgsStep, PStop>) -> bool {
    match r {
        Ok(ast) => args_const_invariant(ast.args, ast.is_const),
        Err(_) => true,
    }
}

/// The flag guarantee for a binary node built without folding.
proof fn lemma_raw_to_binop(
    op: TokenModel,
    lhs: ExprModel,
    rhs: ExprModel,
    math: Seq<u32>,
    mpos: int,
)
    ensures
        match spec_to_binop(op, lhs, rhs, false, math, mpos) {
            Ok((e2, _)) => is_const_tree(e2) == (is_const_tree(lhs) && is_const_tree(rhs)),
            Err(_) => true,
        },
{
}

/// The flag guarantee for a function call built without folding.
#[verifier::rlimit(100)]
proof fn lemma_raw_to_func(
    name: Seq<char>,
    args: Seq<ExprModel>,
    all_const: bool,
    math: Seq<u32>,
    mpos: int,
)
    requires
        args_const_invariant(args, all_const),
    ensures
        match spec_to_func(name, args, false, math, mpos) {
            Ok((f, _)) => is_const_tree(f) == all_const,
            Err(_) => true,
        },
{
    if args.len() == 1 {
        assert(all_const <==> is_const_tree(args[0])) by {
            if is_const_tree(args[0]) {
                assert forall|k: int| 0 <= k < args.len() implies is_const_tree(
                    #[trigger] args[k],
                ) by {
                    assert(args[k] == args[0]);
                }
            }
        }
    }
    if args.len() == 2 {
        assert(all_const <==> (is_const_tree(args[0]) && is_const_tree(args[1]))) by {
            if is_const_tree(args[0]) && is_const_tree(args[1]) {
                assert forall|k: int| 0 <= k < args.len() implies is_const_tree(
                    #[trigger] args[k],
                ) by {
                    assert(args[k] == args[0] || args[k] == args[1]);
                }
            }
        }
    }
    assert(is_const_tree(ExprModel::Num(crate::numeric::E_BITS)));
    assert(is_const_tree(ExprModel::Num(crate::numeric::TEN_BITS)));
}

/// The flag guarantee carried through a sum parsed without folding.
proof fn lemma_raw_sum(ts: Seq<TokenModel>, i: int, math: Seq<u32>, mpos: int)
    requires
        0 <= i <= ts.len(),
    ensures
        raw_flag_ok(spec_parse_sum(ts, i, false, math, mpos)),
    decreases ts.len() - i, 4int,
{
    lemma_raw_product(ts, i, math, mpos);
    match spec_parse_product(ts, i, false, math, mpos) {
        Ok(st) => {
            if i < st.next <= ts.len() {
                lemma_raw_sum_rest(ts, st.expr, st.is_const, st.next, math, st.mpos);
            }
        },
        Err(_) => {},
    }
}

/// The flag guarantee carried through the rest of a sum parsed without
/// folding.
proof fn lemma_raw_sum_rest(
    ts: Seq<TokenModel>,
    lhs: ExprModel,
    lhs_const: bool,
    i: int,
    math: Seq<u32>,
    mpos: int,
)
    requires
        lhs_const == is_const_tree(lhs),
        0 <= i <= ts.len(),
    ensures
        raw_flag_ok(spec_sum_rest(ts, lhs, lhs_const, i, false, math, mpos)),
    decreases ts.len() - i, 4int,
{
    if 0 <= i < ts.len() && (ts[i] is Plus || ts[i] is Minus) {
        lemma_raw_product(ts, i + 1, math, mpos);
        match spec_parse_product(ts, i + 1, false, math, mpos) {
            Ok(st) => {
                let both = lhs_const && st.is_const;
                lemma_raw_to_binop(ts[i], lhs, st.expr, math, st.mpos);
                match spec_to_binop(ts[i], lhs, st.expr, false, math, st.mpos) {
                    Ok((e2, mp2)) => {
                        if i < st.next <= ts.len() {
                            lemma_raw_sum_rest(ts, e2, both, st.next, math, mp2);
                        }
                    },
                    Err(_) => {},
                }
            },
            Err(_) => {},
        }
    }
}

/// The flag guarantee carried through a product parsed without folding.
proof fn lemma_raw_product(ts: Seq<TokenModel>, i: int, math: Seq<u32>, mpos: int)
    requires
        0 <= i <= ts.len(),
    ensures
        raw_flag_ok(spec_parse_product(ts, i, false, math, mpos)),
    decreases ts.len() - i, 3int,
{
    lemma_raw_power(ts, i, math, mpos);
    match spec_parse_power(ts, i, false, math, mpos) {
        Ok(st) => {
            if i < st.next <= ts.len() {
                lemma_raw_product_rest(ts, st.expr, st.is_const, st.next, math, st.mpos);
            }
        },
        Err(_) => {},
    }
}

/// The flag guarantee carried through the rest of a product parsed without
/// folding.
proof fn lemma_raw_product_rest(
    ts: Seq<TokenModel>,
    lhs: ExprModel,
    lhs_const: bool,
    i: int,
    math: Seq<u32>,
    mpos: int,
)
    requires
        lhs_const == is_const_tree(lhs),
        0 <= i <= ts.len(),
    ensures
        raw_flag_ok(spec_product_rest(ts, lhs, lhs_const, i, false, math, mpos)),
    decreases ts.len() - i, 3int,
{
    if 0 <= i < ts.len() && (ts[i] is Star || ts[i] is Slash) {
        lemma_raw_power(ts, i + 1, math, mpos);
        match spec_parse_power(ts, i + 1, false, math, mpos) {
            Ok(st) => {
                let both = lhs_const && st.is_const;
                lemma_raw_to_binop(ts[i], lhs, st.expr, math, st.mpos);
                match spec_to_binop(ts[i], lhs, st.expr, false, math, st.mpos) {
                    Ok((e2, mp2)) => {
                        if i < st.next <= ts.len() {
                            lemma_raw_product_rest(ts, e2, both, st.next, math, mp2);
                        }
                    },
                    Err(_) => {},
                }
            },
            Err(_) => {},
        }
    }
}

/// The flag guarantee carried through a power parsed without folding.
proof fn lemma_raw_power(ts: Seq<TokenModel>, i: int, math: Seq<u32>, mpos: int)
    requires
        0 <= i <= ts.len(),
    ensures
        raw_flag_ok(spec_parse_power(ts, i, false, math, mpos)),
    decreases ts.len() - i, 2int,
{
    lemma_raw_atom(ts, i, math, mpos);
    match spec_parse_atom(ts, i, false, math, mpos) {
        Ok(st) => {
            if i < st.next <= ts.len() {
                lemma_raw_power_rest(ts, st.expr, st.is_const, st.next, math, st.mpos);
            }
        },
        Err(_) => {},
    }
}

/// The flag guarantee carried through the rest of a power parsed without
/// folding.
proof fn lemma_raw_power_rest(
    ts: Seq<TokenModel>,
    lhs: ExprModel,
    lhs_const: bool,
    i: int,
    math: Seq<u32>,
    mpos: int,
)
    requires
        lhs_const == is_const_tree(lhs),
        0 <= i <= ts.len(),
    ensures
        raw_flag_ok(spec_power_rest(ts, lhs, lhs_const, i, false, math, mpos)),
    decreases ts.len() - i, 2int,
{
    if 0 <= i < ts.len() && ts[i] is Caret {
        lemma_raw_atom(ts, i + 1, math, mpos);
        match spec_parse_atom(ts, i + 1, false, math, mpos) {
            Ok(st) => {
                let both = lhs_const && st.is_const;
                lemma_raw_to_binop(ts[i], lhs, st.expr, math, st.mpos);
                match spec_to_binop(ts[i], lhs, st.expr, false, math, st.mpos) {
                    Ok((e2, mp2)) => {
                        if i < st.next <= ts.len() {
                            lemma_raw_power_rest(ts, e2, both, st.next, math, mp2);
                        }
                    },
                    Err(_) => {},
                }
            },
            Err(_) => {},
        }
    }
}

/// The flag guarantee carried through an atom parsed without folding.
#[verifier::rlimit(100)]
proof fn lemma_raw_atom(ts: Seq<TokenModel>, i: int, math: Seq<u32>, mpos: int)
    requires
        0 <= i <= ts.len(),
    ensures
        raw_flag_ok(spec_parse_atom(ts, i, false, math, mpos)),
    decreases ts.len() - i, 1int,
{
    crate::parser::lemma_sign_end(ts, i);
    let sc = crate::parser::sign_end(ts, i);
    if sc < ts.len() {
        lemma_raw_atom_core(ts, sc, math, mpos);
        match spec_atom_core(ts, sc, false, math, mpos) {
            Ok(st) => {
                if crate::parser::sign_negative(ts, i) {
                    let node = ExprModel::Mul(
                        Box::new(ExprModel::Num(NEG_ONE_BITS)),
                        Box::new(st.expr),
                    );
                    assert(is_const_tree(ExprModel::Num(NEG_ONE_BITS)));
                    assert(is_const_tree(node) == st.is_const);
                }
            },
            Err(_) => {},
        }
    }
}

/// The flag guarantee carried through the core of an atom parsed without
/// folding.
#[verifier::rlimit(100)]
proof fn lemma_raw_atom_core(ts: Seq<TokenModel>, sc: int, math: Seq<u32>, mpos: int)
    requires
        0 <= sc < ts.len(),
    ensures
        raw_flag_ok(spec_atom_core(ts, sc, false, math, mpos)),
    decreases ts.len() - sc, 0int,
{
    match ts[sc] {
        TokenModel::LParen => {
            lemma_raw_sum(ts, sc + 1, math, mpos);
        },
        TokenModel::Ident(name) => {
            if sc + 1 < ts.len() && ts[sc + 1] is LParen {
                lemma_raw_args(ts, sc + 2, math, mpos);
                match spec_parse_args(ts, sc + 2, false, math, mpos) {
                    Ok(ast) => {
                        if ast.next < ts.len() && ts[ast.next] is RParen {
                            lemma_raw_to_func(name, ast.args, ast.is_const, math, ast.mpos);
                        }
                    },
                    Err(_) => {},
                }
            }
        },
        _ => {},
    }
}

/// The flag guarantee carried through an argument list parsed without
/// folding.
proof fn lemma_raw_args(ts: Seq<TokenModel>, i: int, math: Seq<u32>, mpos: int)
    requires
        0 <= i <= ts.len(),
    ensures
        raw_args_flag_ok(spec_parse_args(ts, i, false, math, mpos)),
    decreases ts.len() - i, 5int,
{
    lemma_raw_sum(ts, i, math, mpos);
    match spec_parse_sum(ts, i, false, math, mpos) {
        Ok(st) => {
            if i < st.next <= ts.len() {
                let acc = seq![st.expr];
                assert(acc[0] == st.expr);
                assert(args_const_invariant(acc, st.is_const)) by {
                    if is_const_tree(st.expr) {
                        assert forall|k: int| 0 <= k < acc.len() implies is_const_tree(
                            #[trigger] acc[k],
                        ) by {
                            assert(acc[k] == st.expr);
                        }
                    }
                }
                lemma_raw_args_rest(ts, acc, st.is_const, st.next, math, st.mpos);
            }
        },
        Err(_) => {},
    }
}

/// The flag guarantee carried through the rest of an argument list parsed
/// without folding.
#[verifier::rlimit(100)]
proof fn lemma_raw_args_rest(
    ts: Seq<TokenModel>,
    acc: Seq<ExprModel>,
    all_const: bool,
    i: int,
    math: Seq<u32>,
    mpos: int,
)
    requires
        args_const_invariant(acc, all_const),
        0 <= i <= ts.len(),
    ensures
        raw_args_flag_ok(spec_args_rest(ts, acc, all_const, i, false, math, mpos)),
    decreases ts.len() - i, 5int,
{
    if 0 <= i < ts.len() && ts[i] is Comma {
        lemma_raw_sum(ts, i + 1, math, mpos);
        match spec_parse_sum(ts, i + 1, false, math, mpos) {
            Ok(st) => {
                if i < st.next <= ts.len() {
                    let acc2 = acc.push(st.expr);
                    assert(args_const_invariant(acc2, all_const && st.is_const)) by {
                        if all_const && st.is_const {
                            assert forall|k: int| 0 <= k < acc2.len() implies is_const_tree(
                                #[trigger] acc2[k],
                            ) by {
                                if k < acc.len() {
                                    assert(acc2[k] == acc[k]);
                                } else {
                                    assert(acc2[k] == st.expr);
                                }
                            }
                        } else if !all_const {
                            let k0 = choose|k: int|
                                0 <= k < acc.len() && !is_const_tree(#[trigger] acc[k]);
                            assert(acc2[k0] == acc[k0]);
                            assert(!is_const_tree(acc2[k0]));
                        } else {
                            assert(acc2[acc.len() as int] == st.expr);
                            assert(!is_const_tree(acc2[acc.len() as int]));
                        }
                    }
                    lemma_raw_args_rest(ts, acc2, all_const && st.is_const, st.next, math, st.mpos);
                }
            },
            Err(_) => {},
        }
    }
}


/// The fold of a raw parse tree: every maximal constant subtree is
/// replaced by its constant evaluation, in evaluation order, consuming
/// transcendental answers exactly as that evaluation does.  This is what
/// parsing with constant folding builds, stated as one pass over the tree
/// that parsing without folding builds.
pub open spec fn pfold(e: ExprModel, math: Seq<u32>, mpos: int) -> Result<
    (ExprModel, int),
    StopModel,
>
    decreases e,
{
    if is_const_tree(e) {
        match spec_eval_const(e, math, mpos) {
            Ok(st) => Ok((ExprModel::Num(st.value), st.next)),
            Err(s) => Err(s),
        }
    } else {
        match e {
            ExprModel::Num(b) => Ok((ExprModel::Num(b), mpos)),
            ExprModel::Var(s) => Ok((ExprModel::Var(s), mpos)),
            ExprModel::Add(l, r) => match pfold(*l, math, mpos) {
                Ok((lf, mp1)) => match pfold(*r, math, mp1) {
                    Ok((rf, mp2)) => Ok((ExprModel::Add(Box::new(lf), Box::new(rf)), mp2)),
                    Err(s) => Err(s),
                },
                Err(s) => Err(s),
            },
            ExprModel::Sub(l, r) => match pfold(*l, math, mpos) {
                Ok((lf, mp1)) => match pfold(*r, math, mp1) {
                    Ok((rf, mp2)) => Ok((ExprModel::Sub(Box::new(lf), Box::new(rf)), mp2)),
                    Err(s) => Err(s),
                },
                Err(s) => Err(s),
            },
            ExprModel::Mul(l, r) => match pfold(*l, math, mpos) {
                Ok((lf, mp1)) => match pfold(*r, math, mp1) {
                    Ok((rf, mp2)) => Ok((ExprModel::Mul(Box::new(lf), Box::new(rf)), mp2)),
                    Err(s) => Err(s),
                },
                Err(s) => Err(s),
            },
            ExprModel::Div(l, r) => match pfold(*l, math, mpos) {
                Ok((lf, mp1)) => match pfold(*r, math, mp1) {
                    Ok((rf, mp2)) => Ok((ExprModel::Div(Box::new(lf), Box::new(rf)), mp2)),
                    Err(s) => Err(s),
                },
                Err(s) => Err(s),
            },
            ExprModel::Pow(l, r) => match pfold(*l, math, mpos) {
                Ok((lf, mp1)) => match pfold(*r, math, mp1) {
                    Ok((rf, mp2)) => Ok((ExprModel::Pow(Box::new(lf), Box::new(rf)), mp2)),
                    Err(s) => Err(s),
                },
                Err(s) => Err(s),
            },
            ExprModel::Log(l, r) => match pfold(*l, math, mpos) {
                Ok((lf, mp1)) => match pfold(*r, math, mp1) {
                    Ok((rf, mp2)) => Ok((ExprModel::Log(Box::new(lf), Box::new(rf)), mp2)),
                    Err(s) => Err(s),
                },
                Err(s) => Err(s),
            },
            ExprModel::Sin(i) => match pfold(*i, math, mpos) {
                Ok((f, mp)) => Ok((ExprModel::Sin(Box::new(f)), mp)),
                Err(s) => Err(s),
            },
            ExprModel::Cos(i) => match pfold(*i, math, mpos) {
                Ok((f, mp)) => Ok((ExprModel::Cos(Box::new(f)), mp)),
                Err(s) => Err(s),
            },
            ExprModel::Tan(i) => match pfold(*i, math, mpos) {
                Ok((f, mp)) => Ok((ExprModel::Tan(Box::new(f)), mp)),
                Err(s) => Err(s),
            },
            ExprModel::Cot(i) => match pfold(*i, math, mpos) {
                Ok((f, mp)) => Ok((ExprModel::Cot(Box::new(f)), mp)),
                Err(s) => Err(s),
            },
            ExprModel::Abs(i) => match pfold(*i, math, mpos) {
                Ok((f, mp)) => Ok((ExprModel::Abs(Box::new(f)), mp)),
                Err(s) => Err(s),
            },
            ExprModel::Derivative(inner, v, sub) => match pfold(*inner, math, mpos) {
                Ok((inf, mp1)) => match sub {
                    Some(sb) => match pfold(*sb, math, mp1) {
                        Ok((sf, mp2)) => Ok(
                            (ExprModel::Derivative(Box::new(inf), v, Some(Box::new(sf))), mp2),
                        ),
                        Err(s) => Err(s),
                    },
                    None => Ok((ExprModel::Derivative(Box::new(inf), v, None), mp1)),
                },
                Err(s) => Err(s),
            },
        }
    }
}

/// The fold of an argument list, left to right.
pub open spec fn pfold_args(args: Seq<ExprModel>, math: Seq<u32>, mpos: int) -> Result<
    (Seq<ExprModel>, int),
    StopModel,
>
    decreases args.len(),
{
    if args.len() == 0 {
        Ok((Seq::empty(), mpos))
    } else {
        match pfold(args[0], math, mpos) {
            Ok((a0, mp)) => match pfold_args(args.subrange(1, args.len() as int), math, mp) {
                Ok((rest, mp2)) => Ok((seq![a0] + rest, mp2)),
                Err(s) => Err(s),
            },
            Err(s) => Err(s),
        }
    }
}

/// An evaluation stop surfaced by constant folding, as the parser reports
/// it.
pub open spec fn stop_to_pstop(s: StopModel) -> PStop {
    match s {
        StopModel::Fail(ev) => PStop::Fail(ParseErrorModel::EvalError(ev)),
        StopModel::Call(c) => PStop::Call(c),
    }
}

/// What a folding parse returns for a step whose unfolded parse returned
/// the tree `ef`: the fold of `ef`, with the same constness flag and token
/// position, or the fold's stop.
pub open spec fn fold_outcome(
    ef: ExprModel,
    c: bool,
    next: int,
    math: Seq<u32>,
    mpos: int,
) -> Result<PStep, PStop> {
    match pfold(ef, math, mpos) {
        Ok((et, mp)) => Ok(PStep { expr: et, is_const: c, next, mpos: mp }),
        Err(s) => Err(stop_to_pstop(s)),
    }
}

/// The same, for an argument list.
pub open spec fn args_fold_outcome(
    argsf: Seq<ExprModel>,
    c: bool,
    next: int,
    math: Seq<u32>,
    mpos: int,
) -> Result<ArgsStep, PStop> {
    match pfold_args(argsf, math, mpos) {
        Ok((at, mp)) => Ok(ArgsStep { args: at, is_const: c, next, mpos: mp }),
        Err(s) => Err(stop_to_pstop(s)),
    }
}

/// Folding an argument list extended by one argument folds the list and
/// then the argument.
proof fn lemma_pfold_args_push(args: Seq<ExprModel>, x: ExprModel, math: Seq<u32>, mpos: int)
    ensures
        pfold_args(args.push(x), math, mpos) == (match pfold_args(args, math, mpos) {
            Ok((at, mp)) => match pfold(x, math, mp) {
                Ok((xt, mp2)) => Ok::<(Seq<ExprModel>, int), StopModel>((at.push(xt), mp2)),
                Err(s) => Err(s),
            },
            Err(s) => Err(s),
        }),
    decreases args.len(),
{
    let p = args.push(x);
    if args.len() == 0 {
        assert(p[0] == x);
        assert(p.len() == 1);
        assert(p.subrange(1, p.len() as int) =~= Seq::<ExprModel>::empty());
        assert(pfold_args(Seq::<ExprModel>::empty(), math, mpos) == Ok::<
            (Seq<ExprModel>, int),
            StopModel,
        >((Seq::empty(), mpos)));
        match pfold(x, math, mpos) {
            Ok((xt, mp2)) => {
                assert(pfold_args(p.subrange(1, p.len() as int), math, mp2) == Ok::<
                    (Seq<ExprModel>, int),
                    StopModel,
                >((Seq::empty(), mp2)));
                assert(pfold_args(p, math, mpos) == Ok::<(Seq<ExprModel>, int), StopModel>(
                    (seq![xt] + Seq::<ExprModel>::empty(), mp2),
                ));
                assert(seq![xt] + Seq::<ExprModel>::empty() =~= Seq::<ExprModel>::empty().push(xt));
            },
            Err(_) => {},
        }
    } else {
        assert(p[0] == args[0]);
        assert(p.subrange(1, p.len() as int) =~= args.subrange(1, args.len() as int).push(x));
        match pfold(args[0], math, mpos) {
            Ok((a0, mp)) => {
                lemma_pfold_args_push(args.subrange(1, args.len() as int), x, math, mp);
                match pfold_args(args.subrange(1, args.len() as int), math, mp) {
                    Ok((rest, mp2)) => {
                        match pfold(x, math, mp2) {
                            Ok((xt, mp3)) => {
                                assert(seq![a0] + rest.push(xt) =~= (seq![a0] + rest).push(xt));
                            },
                            Err(_) => {},
                        }
                    },
                    Err(_) => {},
                }
            },
            Err(_) => {},
        }
    }
}


/// Folding a binary node whose operands' folds are known: a constant node
/// folds to the constant evaluation of the node, evaluated operands first;
/// any other node folds to the node over its folded operands.
proof fn lemma_to_binop_rel(
    op: TokenModel,
    lhs_f: ExprModel,
    rhs_f: ExprModel,
    lhs_t: ExprModel,
    rhs_t: ExprModel,
    math: Seq<u32>,
    mpos0: int,
    mpt: int,
    mp2: int,
)
    requires
        op is Plus || op is Minus || op is Star || op is Slash || op is Caret,
        pfold(lhs_f, math, mpos0) == Ok::<(ExprModel, int), StopModel>((lhs_t, mpt)),
        pfold(rhs_f, math, mpt) == Ok::<(ExprModel, int), StopModel>((rhs_t, mp2)),
    ensures
        match spec_wrap_binop(op, lhs_f, rhs_f) {
            Ok(node_f) => spec_to_binop(
                op,
                lhs_t,
                rhs_t,
                is_const_tree(lhs_f) && is_const_tree(rhs_f),
                math,
                mp2,
            ) == (match pfold(node_f, math, mpos0) {
                Ok((nt, mp3)) => Ok::<(ExprModel, int), PStop>((nt, mp3)),
                Err(s) => Err(stop_to_pstop(s)),
            }),
            Err(_) => true,
        },
{
    let node_f = spec_wrap_binop(op, lhs_f, rhs_f)->Ok_0;
    let both = is_const_tree(lhs_f) && is_const_tree(rhs_f);
    assert(is_const_tree(node_f) == both);
    if both {
        let lv = spec_eval_const(lhs_f, math, mpos0);
        let rv = spec_eval_const(rhs_f, math, mpt);
        assert(lv is Ok && lhs_t == ExprModel::Num(lv->Ok_0.value) && mpt == lv->Ok_0.next);
        assert(rv is Ok && rhs_t == ExprModel::Num(rv->Ok_0.value) && mp2 == rv->Ok_0.next);
        let vl = lv->Ok_0.value;
        let vr = rv->Ok_0.value;
        assert(spec_eval_const(node_f, math, mpos0) == spec_bin_op(node_f, vl, vr, math, mp2));
        let node_t = spec_wrap_binop(op, lhs_t, rhs_t)->Ok_0;
        assert(spec_eval_const(ExprModel::Num(vl), math, mp2) == Ok::<StepModel, StopModel>(
            StepModel { value: vl, next: mp2 },
        ));
        assert(spec_eval_const(ExprModel::Num(vr), math, mp2) == Ok::<StepModel, StopModel>(
            StepModel { value: vr, next: mp2 },
        ));
        assert(spec_eval_const(node_t, math, mp2) == spec_bin_op(node_t, vl, vr, math, mp2));
        assert(spec_bin_op(node_t, vl, vr, math, mp2) == spec_bin_op(node_f, vl, vr, math, mp2));
    } else {
        assert(pfold(node_f, math, mpos0) == Ok::<(ExprModel, int), StopModel>(
            (spec_wrap_binop(op, lhs_t, rhs_t)->Ok_0, mp2),
        ));
    }
}

/// A binary node's fold stops exactly where its left operand's fold stops.
proof fn lemma_pfold_binop_lhs_err(
    op: TokenModel,
    lhs_f: ExprModel,
    rhs_f: ExprModel,
    math: Seq<u32>,
    mpos0: int,
    s: StopModel,
)
    requires
        op is Plus || op is Minus || op is Star || op is Slash || op is Caret,
        pfold(lhs_f, math, mpos0) == Err::<(ExprModel, int), StopModel>(s),
    ensures
        match spec_wrap_binop(op, lhs_f, rhs_f) {
            Ok(node_f) => pfold(node_f, math, mpos0) == Err::<(ExprModel, int), StopModel>(s),
            Err(_) => true,
        },
{
    let node_f = spec_wrap_binop(op, lhs_f, rhs_f)->Ok_0;
    if is_const_tree(node_f) {
        assert(is_const_tree(lhs_f));
        assert(spec_eval_const(lhs_f, math, mpos0) == Err::<StepModel, StopModel>(s));
    }
}

/// A binary node's fold stops exactly where its right operand's fold
/// stops, once the left operand's fold went through.
proof fn lemma_pfold_binop_rhs_err(
    op: TokenModel,
    lhs_f: ExprModel,
    rhs_f: ExprModel,
    lhs_t: ExprModel,
    math: Seq<u32>,
    mpos0: int,
    mpt: int,
    s: StopModel,
)
    requires
        op is Plus || op is Minus || op is Star || op is Slash || op is Caret,
        pfold(lhs_f, math, mpos0) == Ok::<(ExprModel, int), StopModel>((lhs_t, mpt)),
        pfold(rhs_f, math, mpt) == Err::<(ExprModel, int), StopModel>(s),
    ensures
        match spec_wrap_binop(op, lhs_f, rhs_f) {
            Ok(node_f) => pfold(node_f, math, mpos0) == Err::<(ExprModel, int), StopModel>(s),
            Err(_) => true,
        },
{
    let node_f = spec_wrap_binop(op, lhs_f, rhs_f)->Ok_0;
    if is_const_tree(node_f) {
        let lv = spec_eval_const(lhs_f, math, mpos0);
        assert(lv is Ok && mpt == lv->Ok_0.next);
        assert(is_const_tree(rhs_f));
        assert(spec_eval_const(rhs_f, math, mpt) == Err::<StepModel, StopModel>(s));
    }
}

/// Parsing a sum with folding is folding the sum parsed without folding.
proof fn lemma_rel_sum(ts: Seq<TokenModel>, i: int, math: Seq<u32>, mposr: int, mpost: int)
    requires
        0 <= i <= ts.len(),
    ensures
        match spec_parse_sum(ts, i, false, math, mposr) {
            Ok(stf) => spec_parse_sum(ts, i, true, math, mpost) == fold_outcome(
                stf.expr,
                stf.is_const,
                stf.next,
                math,
                mpost,
            ),
            Err(_) => true,
        },
    decreases ts.len() - i, 4int,
{
    lemma_raw_product(ts, i, math, mposr);
    lemma_rel_product(ts, i, math, mposr, mpost);
    match spec_parse_product(ts, i, false, math, mposr) {
        Ok(stp) => {
            if i < stp.next <= ts.len() {
                lemma_rel_sum_rest(
                    ts,
                    stp.expr,
                    stp.is_const,
                    stp.next,
                    math,
                    stp.mpos,
                    mpost,
                );
            }
        },
        Err(_) => {},
    }
}

/// The rest of a sum, with and without folding, related through the fold
/// of the left operand.
#[verifier::rlimit(100)]
proof fn lemma_rel_sum_rest(
    ts: Seq<TokenModel>,
    lhs_f: ExprModel,
    lc: bool,
    i: int,
    math: Seq<u32>,
    mposr: int,
    mpos0: int,
)
    requires
        0 <= i <= ts.len(),
        lc == is_const_tree(lhs_f),
    ensures
        match spec_sum_rest(ts, lhs_f, lc, i, false, math, mposr) {
            Ok(stf) => match pfold(lhs_f, math, mpos0) {
                Ok((lhs_t, mpt)) => spec_sum_rest(ts, lhs_t, lc, i, true, math, mpt)
                    == fold_outcome(stf.expr, stf.is_const, stf.next, math, mpos0),
                Err(s) => pfold(stf.expr, math, mpos0) == Err::<(ExprModel, int), StopModel>(s),
            },
            Err(_) => true,
        },
    decreases ts.len() - i, 4int,
{
    if 0 <= i < ts.len() && (ts[i] is Plus || ts[i] is Minus) {
        lemma_raw_product(ts, i + 1, math, mposr);
        match spec_parse_product(ts, i + 1, false, math, mposr) {
            Ok(strr) => {
                let rhs_f = strr.expr;
                let rc = strr.is_const;
                let node_f = spec_wrap_binop(ts[i], lhs_f, rhs_f)->Ok_0;
                assert(is_const_tree(node_f) == (lc && rc));
                if i < strr.next <= ts.len() {
                    lemma_rel_sum_rest(ts, node_f, lc && rc, strr.next, math, strr.mpos, mpos0);
                    match pfold(lhs_f, math, mpos0) {
                        Ok((lhs_t, mpt)) => {
                            lemma_rel_product(ts, i + 1, math, mposr, mpt);
                            match pfold(rhs_f, math, mpt) {
                                Ok((rhs_t, mp2)) => {
                                    lemma_to_binop_rel(
                                        ts[i],
                                        lhs_f,
                                        rhs_f,
                                        lhs_t,
                                        rhs_t,
                                        math,
                                        mpos0,
                                        mpt,
                                        mp2,
                                    );
                                },
                                Err(s2) => {
                                    lemma_pfold_binop_rhs_err(
                                        ts[i],
                                        lhs_f,
                                        rhs_f,
                                        lhs_t,
                                        math,
                                        mpos0,
                                        mpt,
                                        s2,
                                    );
                                },
                            }
                        },
                        Err(s) => {
                            lemma_pfold_binop_lhs_err(ts[i], lhs_f, rhs_f, math, mpos0, s);
                        },
                    }
                }
            },
            Err(_) => {},
        }
    }
}

/// Parsing a product with folding is folding the product parsed without
/// folding.
proof fn lemma_rel_product(ts: Seq<TokenModel>, i: int, math: Seq<u32>, mposr: int, mpost: int)
    requires
        0 <= i <= ts.len(),
    ensures
        match spec_parse_product(ts, i, false, math, mposr) {
            Ok(stf) => spec_parse_product(ts, i, true, math, mpost) == fold_outcome(
                stf.expr,
                stf.is_const,
                stf.next,
                math,
                mpost,
            ),
            Err(_) => true,
        },
    decreases ts.len() - i, 3int,
{
    lemma_raw_power(ts, i, math, mposr);
    lemma_rel_power(ts, i, math, mposr, mpost);
    match spec_parse_power(ts, i, false, math, mposr) {
        Ok(stp) => {
            if i < stp.next <= ts.len() {
                lemma_rel_product_rest(
                    ts,
                    stp.expr,
                    stp.is_const,
                    stp.next,
                    math,
                    stp.mpos,
                    mpost,
                );
            }
        },
        Err(_) => {},
    }
}

/// The rest of a product, with and without folding, related through the
/// fold of the left operand.
#[verifier::rlimit(100)]
proof fn lemma_rel_product_rest(
    ts: Seq<TokenModel>,
    lhs_f: ExprModel,
    lc: bool,
    i: int,
    math: Seq<u32>,
    mposr: int,
    mpos0: int,
)
    requires
        0 <= i <= ts.len(),
        lc == is_const_tree(lhs_f),
    ensures
        match spec_product_rest(ts, lhs_f, lc, i, false, math, mposr) {
            Ok(stf) => match pfold(lhs_f, math, mpos0) {
                Ok((lhs_t, mpt)) => spec_product_rest(ts, lhs_t, lc, i, true, math, mpt)
                    == fold_outcome(stf.expr, stf.is_const, stf.next, math, mpos0),
                Err(s) => pfold(stf.expr, math, mpos0) == Err::<(ExprModel, int), StopModel>(s),
            },
            Err(_) => true,
        },
    decreases ts.len() - i, 3int,
{
    if 0 <= i < ts.len() && (ts[i] is Star || ts[i] is Slash) {
        lemma_raw_power(ts, i + 1, math, mposr);
        match spec_parse_power(ts, i + 1, false, math, mposr) {
            Ok(strr) => {
                let rhs_f = strr.expr;
                let rc = strr.is_const;
                let node_f = spec_wrap_binop(ts[i], lhs_f, rhs_f)->Ok_0;
                assert(is_const_tree(node_f) == (lc && rc));
                if i < strr.next <= ts.len() {
                    lemma_rel_product_rest(ts, node_f, lc && rc, strr.next, math, strr.mpos, mpos0);
                    match pfold(lhs_f, math, mpos0) {
                        Ok((lhs_t, mpt)) => {
                            lemma_rel_power(ts, i + 1, math, mposr, mpt);
                            match pfold(rhs_f, math, mpt) {
                                Ok((rhs_t, mp2)) => {
                                    lemma_to_binop_rel(
                                        ts[i],
                                        lhs_f,
                                        rhs_f,
                                        lhs_t,
                                        rhs_t,
                                        math,
                                        mpos0,
                                        mpt,
                                        mp2,
                                    );
                                },
                                Err(s2) => {
                                    lemma_pfold_binop_rhs_err(
                                        ts[i],
                                        lhs_f,
                                        rhs_f,
                                        lhs_t,
                                        math,
                                        mpos0,
                                        mpt,
                                        s2,
                                    );
                                },
                            }
                        },
                        Err(s) => {
                            lemma_pfold_binop_lhs_err(ts[i], lhs_f, rhs_f, math, mpos0, s);
                        },
                    }
                }
            },
            Err(_) => {},
        }
    }
}

/// Parsing a power with folding is folding the power parsed without
/// folding.
proof fn lemma_rel_power(ts: Seq<TokenModel>, i: int, math: Seq<u32>, mposr: int, mpost: int)
    requires
        0 <= i <= ts.len(),
    ensures
        match spec_parse_power(ts, i, false, math, mposr) {
            Ok(stf) => spec_parse_power(ts, i, true, math, mpost) == fold_outcome(
                stf.expr,
                stf.is_const,
                stf.next,
                math,
                mpost,
            ),
            Err(_) => true,
        },
    decreases ts.len() - i, 2int,
{
    lemma_raw_atom(ts, i, math, mposr);
    lemma_rel_atom(ts, i, math, mposr, mpost);
    match spec_parse_atom(ts, i, false, math, mposr) {
        Ok(stp) => {
            if i < stp.next <= ts.len() {
                lemma_rel_power_rest(
                    ts,
                    stp.expr,
                    stp.is_const,
                    stp.next,
                    math,
                    stp.mpos,
                    mpost,
                );
            }
        },
        Err(_) => {},
    }
}

/// The rest of a power, with and without folding, related through the fold
/// of the left operand.
#[verifier::rlimit(100)]
proof fn lemma_rel_power_rest(
    ts: Seq<TokenModel>,
    lhs_f: ExprModel,
    lc: bool,
    i: int,
    math: Seq<u32>,
    mposr: int,
    mpos0: int,
)
    requires
        0 <= i <= ts.len(),
        lc == is_const_tree(lhs_f),
    ensures
        match spec_power_rest(ts, lhs_f, lc, i, false, math, mposr) {
            Ok(stf) => match pfold(lhs_f, math, mpos0) {
                Ok((lhs_t, mpt)) => spec_power_rest(ts, lhs_t, lc, i, true, math, mpt)
                    == fold_outcome(stf.expr, stf.is_const, stf.next, math, mpos0),
                Err(s) => pfold(stf.expr, math, mpos0) == Err::<(ExprModel, int), StopModel>(s),
            },
            Err(_) => true,
        },
    decreases ts.len() - i, 2int,
{
    if 0 <= i < ts.len() && ts[i] is Caret {
        lemma_raw_atom(ts, i + 1, math, mposr);
        match spec_parse_atom(ts, i + 1, false, math, mposr) {
            Ok(strr) => {
                let rhs_f = strr.expr;
                let rc = strr.is_const;
                let node_f = spec_wrap_binop(ts[i], lhs_f, rhs_f)->Ok_0;
                assert(is_const_tree(node_f) == (lc && rc));
                if i < strr.next <= ts.len() {
                    lemma_rel_power_rest(ts, node_f, lc && rc, strr.next, math, strr.mpos, mpos0);
                    match pfold(lhs_f, math, mpos0) {
                        Ok((lhs_t, mpt)) => {
                            lemma_rel_atom(ts, i + 1, math, mposr, mpt);
                            match pfold(rhs_f, math, mpt) {
                                Ok((rhs_t, mp2)) => {
                                    lemma_to_binop_rel(
                                        ts[i],
                                        lhs_f,
                                        rhs_f,
                                        lhs_t,
                                        rhs_t,
                                        math,
                                        mpos0,
                                        mpt,
                                        mp2,
                                    );
                                },
                                Err(s2) => {
                                    lemma_pfold_binop_rhs_err(
                                        ts[i],
                                        lhs_f,
                                        rhs_f,
                                        lhs_t,
                                        math,
                                        mpos0,
                                        mpt,
                                        s2,
                                    );
                                },
                            }
                        },
                        Err(s) => {
                            lemma_pfold_binop_lhs_err(ts[i], lhs_f, rhs_f, math, mpos0, s);
                        },
                    }
                }
            },
            Err(_) => {},
        }
    }
}


/// Folding a logarithm node whose operands' folds are known, like any
/// other binary node.
proof fn lemma_log_rel(
    lhs_f: ExprModel,
    rhs_f: ExprModel,
    lhs_t: ExprModel,
    rhs_t: ExprModel,
    math: Seq<u32>,
    mpos0: int,
    mpt: int,
    mp2: int,
)
    requires
        pfold(lhs_f, math, mpos0) == Ok::<(ExprModel, int), StopModel>((lhs_t, mpt)),
        pfold(rhs_f, math, mpt) == Ok::<(ExprModel, int), StopModel>((rhs_t, mp2)),
    ensures
        spec_fold(
            ExprModel::Log(Box::new(lhs_t), Box::new(rhs_t)),
            is_const_tree(lhs_f) && is_const_tree(rhs_f),
            math,
            mp2,
        ) == (match pfold(ExprModel::Log(Box::new(lhs_f), Box::new(rhs_f)), math, mpos0) {
            Ok((nt, mp3)) => Ok::<(ExprModel, int), PStop>((nt, mp3)),
            Err(s) => Err(stop_to_pstop(s)),
        }),
{
    let node_f = ExprModel::Log(Box::new(lhs_f), Box::new(rhs_f));
    let node_t = ExprModel::Log(Box::new(lhs_t), Box::new(rhs_t));
    let both = is_const_tree(lhs_f) && is_const_tree(rhs_f);
    assert(is_const_tree(node_f) == both);
    if both {
        let lv = spec_eval_const(lhs_f, math, mpos0);
        let rv = spec_eval_const(rhs_f, math, mpt);
        assert(lv is Ok && lhs_t == ExprModel::Num(lv->Ok_0.value) && mpt == lv->Ok_0.next);
        assert(rv is Ok && rhs_t == ExprModel::Num(rv->Ok_0.value) && mp2 == rv->Ok_0.next);
        let vl = lv->Ok_0.value;
        let vr = rv->Ok_0.value;
        assert(spec_eval_const(node_f, math, mpos0) == spec_bin_op(node_f, vl, vr, math, mp2));
        assert(spec_eval_const(ExprModel::Num(vl), math, mp2) == Ok::<StepModel, StopModel>(
            StepModel { value: vl, next: mp2 },
        ));
        assert(spec_eval_const(ExprModel::Num(vr), math, mp2) == Ok::<StepModel, StopModel>(
            StepModel { value: vr, next: mp2 },
        ));
        assert(spec_eval_const(node_t, math, mp2) == spec_bin_op(node_t, vl, vr, math, mp2));
        assert(spec_bin_op(node_t, vl, vr, math, mp2) == spec_bin_op(node_f, vl, vr, math, mp2));
    } else {
        assert(pfold(node_f, math, mpos0) == Ok::<(ExprModel, int), StopModel>((node_t, mp2)));
    }
}

/// A logarithm node's fold stops where its argument's fold stops.
proof fn lemma_pfold_log_rhs_err(
    lhs_f: ExprModel,
    rhs_f: ExprModel,
    lhs_t: ExprModel,
    math: Seq<u32>,
    mpos0: int,
    mpt: int,
    s: StopModel,
)
    requires
        pfold(lhs_f, math, mpos0) == Ok::<(ExprModel, int), StopModel>((lhs_t, mpt)),
        pfold(rhs_f, math, mpt) == Err::<(ExprModel, int), StopModel>(s),
    ensures
        pfold(ExprModel::Log(Box::new(lhs_f), Box::new(rhs_f)), math, mpos0) == Err::<
            (ExprModel, int),
            StopModel,
        >(s),
{
    let node_f = ExprModel::Log(Box::new(lhs_f), Box::new(rhs_f));
    if is_const_tree(node_f) {
        let lv = spec_eval_const(lhs_f, math, mpos0);
        assert(lv is Ok && mpt == lv->Ok_0.next);
        assert(is_const_tree(rhs_f));
        assert(spec_eval_const(rhs_f, math, mpt) == Err::<StepModel, StopModel>(s));
    }
}

/// Folding a unary node whose operand's fold is known.
proof fn lemma_unop_rel(node_f: ExprModel, i_f: ExprModel, i_t: ExprModel, math: Seq<u32>, mpos0: int, mpa: int)
    requires
        node_f == ExprModel::Sin(Box::new(i_f)) || node_f == ExprModel::Cos(Box::new(i_f))
            || node_f == ExprModel::Tan(Box::new(i_f)) || node_f == ExprModel::Cot(Box::new(i_f))
            || node_f == ExprModel::Abs(Box::new(i_f)),
        pfold(i_f, math, mpos0) == Ok::<(ExprModel, int), StopModel>((i_t, mpa)),
    ensures
        ({
            let node_t = match node_f {
                ExprModel::Sin(_) => ExprModel::Sin(Box::new(i_t)),
                ExprModel::Cos(_) => ExprModel::Cos(Box::new(i_t)),
                ExprModel::Tan(_) => ExprModel::Tan(Box::new(i_t)),
                ExprModel::Cot(_) => ExprModel::Cot(Box::new(i_t)),
                _ => ExprModel::Abs(Box::new(i_t)),
            };
            spec_fold(node_t, is_const_tree(i_f), math, mpa) == (match pfold(
                node_f,
                math,
                mpos0,
            ) {
                Ok((nt, mp3)) => Ok::<(ExprModel, int), PStop>((nt, mp3)),
                Err(s) => Err(stop_to_pstop(s)),
            })
        }),
{
    let node_t = match node_f {
        ExprModel::Sin(_) => ExprModel::Sin(Box::new(i_t)),
        ExprModel::Cos(_) => ExprModel::Cos(Box::new(i_t)),
        ExprModel::Tan(_) => ExprModel::Tan(Box::new(i_t)),
        ExprModel::Cot(_) => ExprModel::Cot(Box::new(i_t)),
        _ => ExprModel::Abs(Box::new(i_t)),
    };
    let c = is_const_tree(i_f);
    assert(is_const_tree(node_f) == c);
    assert(is_const_tree(node_t) == is_const_tree(i_t));
    if c {
        let iv = spec_eval_const(i_f, math, mpos0);
        assert(iv is Ok && i_t == ExprModel::Num(iv->Ok_0.value) && mpa == iv->Ok_0.next);
        let v = iv->Ok_0.value;
        assert(spec_eval_const(node_f, math, mpos0) == spec_un_op(node_f, v, math, mpa));
        assert(spec_eval_const(ExprModel::Num(v), math, mpa) == Ok::<StepModel, StopModel>(
            StepModel { value: v, next: mpa },
        ));
        assert(spec_eval_const(node_t, math, mpa) == spec_un_op(node_t, v, math, mpa));
        assert(spec_un_op(node_t, v, math, mpa) == spec_un_op(node_f, v, math, mpa));
    } else {
        assert(pfold(node_f, math, mpos0) == Ok::<(ExprModel, int), StopModel>((node_t, mpa)));
    }
}

/// A unary node's fold stops where its operand's fold stops.
proof fn lemma_pfold_unop_err(node_f: ExprModel, i_f: ExprModel, math: Seq<u32>, mpos0: int, s: StopModel)
    requires
        node_f == ExprModel::Sin(Box::new(i_f)) || node_f == ExprModel::Cos(Box::new(i_f))
            || node_f == ExprModel::Tan(Box::new(i_f)) || node_f == ExprModel::Cot(Box::new(i_f))
            || node_f == ExprModel::Abs(Box::new(i_f)),
        pfold(i_f, math, mpos0) == Err::<(ExprModel, int), StopModel>(s),
    ensures
        pfold(node_f, math, mpos0) == Err::<(ExprModel, int), StopModel>(s),
{
    if is_const_tree(node_f) {
        assert(is_const_tree(i_f));
        assert(spec_eval_const(i_f, math, mpos0) == Err::<StepModel, StopModel>(s));
    }
}

/// What the fold of a one-argument list looks like.
proof fn lemma_pfold_args_one(args: Seq<ExprModel>, math: Seq<u32>, mpos: int)
    requires
        args.len() == 1,
    ensures
        pfold_args(args, math, mpos) == (match pfold(args[0], math, mpos) {
            Ok((a0, mp)) => Ok::<(Seq<ExprModel>, int), StopModel>((seq![a0], mp)),
            Err(s) => Err(s),
        }),
{
    assert(args.subrange(1, args.len() as int) =~= Seq::<ExprModel>::empty());
    match pfold(args[0], math, mpos) {
        Ok((a0, mp)) => {
            assert(pfold_args(Seq::<ExprModel>::empty(), math, mp) == Ok::<
                (Seq<ExprModel>, int),
                StopModel,
            >((Seq::empty(), mp)));
            assert(seq![a0] + Seq::<ExprModel>::empty() =~= seq![a0]);
        },
        Err(_) => {},
    }
}

/// What the fold of a two-argument list looks like.
proof fn lemma_pfold_args_two(args: Seq<ExprModel>, math: Seq<u32>, mpos: int)
    requires
        args.len() == 2,
    ensures
        pfold_args(args, math, mpos) == (match pfold(args[0], math, mpos) {
            Ok((a0, mp)) => match pfold(args[1], math, mp) {
                Ok((a1, mp2)) => Ok::<(Seq<ExprModel>, int), StopModel>((seq![a0, a1], mp2)),
                Err(s) => Err(s),
            },
            Err(s) => Err(s),
        }),
{
    let tail = args.subrange(1, args.len() as int);
    assert(tail.len() == 1 && tail[0] == args[1]);
    match pfold(args[0], math, mpos) {
        Ok((a0, mp)) => {
            lemma_pfold_args_one(tail, math, mp);
            match pfold(args[1], math, mp) {
                Ok((a1, mp2)) => {
                    assert(seq![a0] + seq![a1] =~= seq![a0, a1]);
                },
                Err(_) => {},
            }
        },
        Err(_) => {},
    }
}

/// Folding a function-call node whose arguments' folds are known: the call
/// over the folded arguments, itself folded when the call is constant, is
/// the fold of the call over the raw arguments.
#[verifier::rlimit(100)]
proof fn lemma_to_func_rel(
    name: Seq<char>,
    args_f: Seq<ExprModel>,
    args_t: Seq<ExprModel>,
    ac: bool,
    math: Seq<u32>,
    mpost: int,
    mpa: int,
)
    requires
        args_const_invariant(args_f, ac),
        pfold_args(args_f, math, mpost) == Ok::<(Seq<ExprModel>, int), StopModel>((args_t, mpa)),
    ensures
        match spec_wrap_func(name, args_f) {
            Ok(node_f) => spec_to_func(name, args_t, ac, math, mpa) == (match pfold(
                node_f,
                math,
                mpost,
            ) {
                Ok((nt, mp2)) => Ok::<(ExprModel, int), PStop>((nt, mp2)),
                Err(s) => Err(stop_to_pstop(s)),
            }),
            Err(_) => true,
        },
{
    reveal_strlit("sin");
    reveal_strlit("cos");
    reveal_strlit("tan");
    reveal_strlit("cot");
    reveal_strlit("abs");
    reveal_strlit("ln");
    reveal_strlit("log");
    reveal_strlit("D");
    assert("ln"@.len() == 2);
    assert("sin"@.len() == 3);
    assert("ln"@ != "sin"@);
    assert("ln"@ != "cos"@ && "ln"@ != "tan"@ && "ln"@ != "cot"@ && "ln"@ != "abs"@);
    assert("log"@[0] == 'l' && "sin"@[0] == 's' && "cos"@[0] == 'c' && "tan"@[0] == 't'
        && "cot"@[0] == 'c' && "abs"@[0] == 'a' && "log"@[1] == 'o' && "cot"@[1] == 'o'
        && "cos"@[1] == 'o' && "log"@[2] == 'g' && "cos"@[2] == 's' && "cot"@[2] == 't');
    assert("log"@ != "sin"@ && "log"@ != "cos"@ && "log"@ != "tan"@ && "log"@ != "cot"@
        && "log"@ != "abs"@ && "log"@ != "ln"@);
    if spec_wrap_func(name, args_f) is Ok {
        if args_f.len() == 1 {
            lemma_pfold_args_one(args_f, math, mpost);
            let a0t = pfold(args_f[0], math, mpost)->Ok_0.0;
            assert(args_t =~= seq![a0t]);
            assert(args_t.len() == 1 && args_t[0] == a0t);
            assert(ac <==> is_const_tree(args_f[0])) by {
                if is_const_tree(args_f[0]) {
                    assert forall|k: int| 0 <= k < args_f.len() implies is_const_tree(
                        #[trigger] args_f[k],
                    ) by {
                        assert(args_f[k] == args_f[0]);
                    }
                }
            }
            if name == "ln"@ || name == "log"@ {
                let base = if name == "ln"@ {
                    crate::numeric::E_BITS
                } else {
                    crate::numeric::TEN_BITS
                };
                assert(is_const_tree(ExprModel::Num(base)));
                assert(pfold(ExprModel::Num(base), math, mpost) == Ok::<
                    (ExprModel, int),
                    StopModel,
                >((ExprModel::Num(base), mpost)));
                lemma_log_rel(
                    ExprModel::Num(base),
                    args_f[0],
                    ExprModel::Num(base),
                    a0t,
                    math,
                    mpost,
                    mpost,
                    mpa,
                );
                let node_f = ExprModel::Log(Box::new(ExprModel::Num(base)), Box::new(args_f[0]));
                let node_t = ExprModel::Log(Box::new(ExprModel::Num(base)), Box::new(a0t));
                assert(spec_wrap_func(name, args_f) == Ok::<ExprModel, ParseErrorModel>(node_f));
                assert(spec_wrap_func(name, args_t) == Ok::<ExprModel, ParseErrorModel>(node_t));
                assert(spec_to_func(name, args_t, ac, math, mpa) == spec_fold(
                    node_t,
                    ac,
                    math,
                    mpa,
                ));
                assert(ac == (is_const_tree(ExprModel::Num(base)) && is_const_tree(args_f[0])));
            } else {
                let node_f = spec_wrap_func(name, args_f)->Ok_0;
                lemma_unop_rel(node_f, args_f[0], a0t, math, mpost, mpa);
                let node_t = match node_f {
                    ExprModel::Sin(_) => ExprModel::Sin(Box::new(a0t)),
                    ExprModel::Cos(_) => ExprModel::Cos(Box::new(a0t)),
                    ExprModel::Tan(_) => ExprModel::Tan(Box::new(a0t)),
                    ExprModel::Cot(_) => ExprModel::Cot(Box::new(a0t)),
                    _ => ExprModel::Abs(Box::new(a0t)),
                };
                assert(spec_wrap_func(name, args_t) == Ok::<ExprModel, ParseErrorModel>(node_t));
                assert(spec_to_func(name, args_t, ac, math, mpa) == spec_fold(
                    node_t,
                    ac,
                    math,
                    mpa,
                ));
                assert(ac == is_const_tree(args_f[0]));
            }
        } else {
            lemma_pfold_args_two(args_f, math, mpost);
            let a0r = pfold(args_f[0], math, mpost)->Ok_0;
            let a0t = a0r.0;
            let mpmid = a0r.1;
            let a1t = pfold(args_f[1], math, mpmid)->Ok_0.0;
            assert(args_t =~= seq![a0t, a1t]);
            assert(args_t.len() == 2 && args_t[0] == a0t && args_t[1] == a1t);
            assert(ac <==> (is_const_tree(args_f[0]) && is_const_tree(args_f[1]))) by {
                if is_const_tree(args_f[0]) && is_const_tree(args_f[1]) {
                    assert forall|k: int| 0 <= k < args_f.len() implies is_const_tree(
                        #[trigger] args_f[k],
                    ) by {
                        assert(args_f[k] == args_f[0] || args_f[k] == args_f[1]);
                    }
                }
            }
            if name == "log"@ {
                lemma_log_rel(args_f[0], args_f[1], a0t, a1t, math, mpost, mpmid, mpa);
                let node_f = ExprModel::Log(Box::new(args_f[0]), Box::new(args_f[1]));
                let node_t = ExprModel::Log(Box::new(a0t), Box::new(a1t));
                assert(spec_wrap_func(name, args_f) == Ok::<ExprModel, ParseErrorModel>(node_f));
                assert(spec_wrap_func(name, args_t) == Ok::<ExprModel, ParseErrorModel>(node_t));
                assert(spec_to_func(name, args_t, ac, math, mpa) == spec_fold(
                    node_t,
                    ac,
                    math,
                    mpa,
                ));
                assert(ac == (is_const_tree(args_f[0]) && is_const_tree(args_f[1])));
            } else {
                // the derivative: the first argument is a bare variable,
                // which folds to itself and consumes nothing
                let v = args_f[0]->Var_0;
                assert(args_f[0] == ExprModel::Var(v));
                assert(pfold(args_f[0], math, mpost) == Ok::<(ExprModel, int), StopModel>(
                    (ExprModel::Var(v), mpost),
                ));
                assert(a0t == ExprModel::Var(v) && mpmid == mpost);
                assert(!ac);
                let node_f = ExprModel::Derivative(Box::new(args_f[1]), v, None);
                assert(!is_const_tree(node_f));
                assert(pfold(node_f, math, mpost) == Ok::<(ExprModel, int), StopModel>(
                    (ExprModel::Derivative(Box::new(a1t), v, None), mpa),
                ));
                let node_t = ExprModel::Derivative(Box::new(a1t), v, None);
                assert(spec_wrap_func(name, args_f) == Ok::<ExprModel, ParseErrorModel>(node_f));
                assert(spec_wrap_func(name, args_t) == Ok::<ExprModel, ParseErrorModel>(node_t));
                assert(spec_to_func(name, args_t, ac, math, mpa) == spec_fold(
                    node_t,
                    ac,
                    math,
                    mpa,
                ));
                assert(spec_fold(node_t, ac, math, mpa) == Ok::<(ExprModel, int), PStop>(
                    (node_t, mpa),
                ));
            }
        }
    }
}

/// A function-call node's fold stops where its argument list's fold stops.
#[verifier::rlimit(100)]
proof fn lemma_pfold_func_err(
    name: Seq<char>,
    args_f: Seq<ExprModel>,
    math: Seq<u32>,
    mpost: int,
    s: StopModel,
)
    requires
        pfold_args(args_f, math, mpost) == Err::<(Seq<ExprModel>, int), StopModel>(s),
    ensures
        match spec_wrap_func(name, args_f) {
            Ok(node_f) => pfold(node_f, math, mpost) == Err::<(ExprModel, int), StopModel>(s),
            Err(_) => true,
        },
{
    reveal_strlit("sin");
    reveal_strlit("cos");
    reveal_strlit("tan");
    reveal_strlit("cot");
    reveal_strlit("abs");
    reveal_strlit("ln");
    reveal_strlit("log");
    reveal_strlit("D");
    if spec_wrap_func(name, args_f) is Ok {
        if args_f.len() == 1 {
            lemma_pfold_args_one(args_f, math, mpost);
            assert(pfold(args_f[0], math, mpost) == Err::<(ExprModel, int), StopModel>(s));
            if name == "ln"@ || name == "log"@ {
                let base = if name == "ln"@ {
                    crate::numeric::E_BITS
                } else {
                    crate::numeric::TEN_BITS
                };
                assert(pfold(ExprModel::Num(base), math, mpost) == Ok::<
                    (ExprModel, int),
                    StopModel,
                >((ExprModel::Num(base), mpost)));
                lemma_pfold_log_rhs_err(
                    ExprModel::Num(base),
                    args_f[0],
                    ExprModel::Num(base),
                    math,
                    mpost,
                    mpost,
                    s,
                );
            } else {
                let node_f = spec_wrap_func(name, args_f)->Ok_0;
                lemma_pfold_unop_err(node_f, args_f[0], math, mpost, s);
            }
        } else {
            lemma_pfold_args_two(args_f, math, mpost);
            if name == "log"@ {
                let node_f = ExprModel::Log(Box::new(args_f[0]), Box::new(args_f[1]));
                match pfold(args_f[0], math, mpost) {
                    Ok((a0t, mpmid)) => {
                        assert(pfold(args_f[1], math, mpmid) == Err::<
                            (ExprModel, int),
                            StopModel,
                        >(s));
                        lemma_pfold_log_rhs_err(args_f[0], args_f[1], a0t, math, mpost, mpmid, s);
                    },
                    Err(s0) => {
                        assert(s0 == s);
                        if is_const_tree(node_f) {
                            assert(is_const_tree(args_f[0]));
                            assert(spec_eval_const(args_f[0], math, mpost) == Err::<
                                StepModel,
                                StopModel,
                            >(s));
                        }
                    },
                }
            } else {
                let v = args_f[0]->Var_0;
                assert(args_f[0] == ExprModel::Var(v));
                assert(pfold(args_f[0], math, mpost) == Ok::<(ExprModel, int), StopModel>(
                    (ExprModel::Var(v), mpost),
                ));
                assert(pfold(args_f[1], math, mpost) == Err::<(ExprModel, int), StopModel>(s));
                let node_f = ExprModel::Derivative(Box::new(args_f[1]), v, None);
                assert(!is_const_tree(node_f));
            }
        }
    }
}


/// Parsing the core of an atom with folding is folding the core parsed
/// without folding.
#[verifier::rlimit(100)]
proof fn lemma_rel_atom_core(ts: Seq<TokenModel>, sc: int, math: Seq<u32>, mposr: int, mpost: int)
    requires
        0 <= sc < ts.len(),
    ensures
        match spec_atom_core(ts, sc, false, math, mposr) {
            Ok(stc) => spec_atom_core(ts, sc, true, math, mpost) == fold_outcome(
                stc.expr,
                stc.is_const,
                stc.next,
                math,
                mpost,
            ),
            Err(_) => true,
        },
    decreases ts.len() - sc, 0int,
{
    match ts[sc] {
        TokenModel::LParen => {
            lemma_rel_sum(ts, sc + 1, math, mposr, mpost);
        },
        TokenModel::Ident(name) => {
            if sc + 1 < ts.len() && ts[sc + 1] is LParen {
                lemma_raw_args(ts, sc + 2, math, mposr);
                lemma_rel_args(ts, sc + 2, math, mposr, mpost);
                match spec_parse_args(ts, sc + 2, false, math, mposr) {
                    Ok(astf) => {
                        if astf.next < ts.len() && ts[astf.next] is RParen {
                            match pfold_args(astf.args, math, mpost) {
                                Ok((args_t, mpa)) => {
                                    lemma_to_func_rel(
                                        name,
                                        astf.args,
                                        args_t,
                                        astf.is_const,
                                        math,
                                        mpost,
                                        mpa,
                                    );
                                },
                                Err(s) => {
                                    lemma_pfold_func_err(name, astf.args, math, mpost, s);
                                },
                            }
                        }
                    },
                    Err(_) => {},
                }
            } else {
                assert(!is_const_tree(ExprModel::Var(name)));
                assert(pfold(ExprModel::Var(name), math, mpost) == Ok::<
                    (ExprModel, int),
                    StopModel,
                >((ExprModel::Var(name), mpost)));
            }
        },
        TokenModel::Number(b) => {
            assert(is_const_tree(ExprModel::Num(b)));
            assert(spec_eval_const(ExprModel::Num(b), math, mpost) == Ok::<StepModel, StopModel>(
                crate::eval::StepModel { value: b, next: mpost },
            ));
            assert(pfold(ExprModel::Num(b), math, mpost) == Ok::<(ExprModel, int), StopModel>(
                (ExprModel::Num(b), mpost),
            ));
        },
        _ => {},
    }
}

/// Parsing an atom with folding is folding the atom parsed without
/// folding.
#[verifier::rlimit(100)]
proof fn lemma_rel_atom(ts: Seq<TokenModel>, i: int, math: Seq<u32>, mposr: int, mpost: int)
    requires
        0 <= i <= ts.len(),
    ensures
        match spec_parse_atom(ts, i, false, math, mposr) {
            Ok(stf) => spec_parse_atom(ts, i, true, math, mpost) == fold_outcome(
                stf.expr,
                stf.is_const,
                stf.next,
                math,
                mpost,
            ),
            Err(_) => true,
        },
    decreases ts.len() - i, 1int,
{
    crate::parser::lemma_sign_end(ts, i);
    let sc = crate::parser::sign_end(ts, i);
    let neg = crate::parser::sign_negative(ts, i);
    if sc < ts.len() {
        lemma_raw_atom_core(ts, sc, math, mposr);
        lemma_rel_atom_core(ts, sc, math, mposr, mpost);
        match spec_atom_core(ts, sc, false, math, mposr) {
            Ok(stc) => {
                if neg {
                    let node_f = ExprModel::Mul(
                        Box::new(ExprModel::Num(NEG_ONE_BITS)),
                        Box::new(stc.expr),
                    );
                    assert(spec_wrap_binop(TokenModel::Star, ExprModel::Num(NEG_ONE_BITS), stc.expr)
                        == Ok::<ExprModel, ParseErrorModel>(node_f));
                    assert(pfold(ExprModel::Num(NEG_ONE_BITS), math, mpost) == Ok::<
                        (ExprModel, int),
                        StopModel,
                    >((ExprModel::Num(NEG_ONE_BITS), mpost)));
                    match pfold(stc.expr, math, mpost) {
                        Ok((ct, mpc)) => {
                            lemma_to_binop_rel(
                                TokenModel::Star,
                                ExprModel::Num(NEG_ONE_BITS),
                                stc.expr,
                                ExprModel::Num(NEG_ONE_BITS),
                                ct,
                                math,
                                mpost,
                                mpost,
                                mpc,
                            );
                            assert(spec_to_binop(
                                TokenModel::Star,
                                ExprModel::Num(NEG_ONE_BITS),
                                ct,
                                is_const_tree(ExprModel::Num(NEG_ONE_BITS)) && is_const_tree(
                                    stc.expr,
                                ),
                                math,
                                mpc,
                            ) == spec_fold(
                                ExprModel::Mul(
                                    Box::new(ExprModel::Num(NEG_ONE_BITS)),
                                    Box::new(ct),
                                ),
                                is_const_tree(stc.expr),
                                math,
                                mpc,
                            ));
                        },
                        Err(s) => {
                            lemma_pfold_binop_rhs_err(
                                TokenModel::Star,
                                ExprModel::Num(NEG_ONE_BITS),
                                stc.expr,
                                ExprModel::Num(NEG_ONE_BITS),
                                math,
                                mpost,
                                mpost,
                                s,
                            );
                        },
                    }
                }
            },
            Err(_) => {},
        }
    }
}

/// Parsing an argument list with folding is folding the list parsed
/// without folding.
proof fn lemma_rel_args(ts: Seq<TokenModel>, i: int, math: Seq<u32>, mposr: int, mpost: int)
    requires
        0 <= i <= ts.len(),
    ensures
        match spec_parse_args(ts, i, false, math, mposr) {
            Ok(astf) => spec_parse_args(ts, i, true, math, mpost) == args_fold_outcome(
                astf.args,
                astf.is_const,
                astf.next,
                math,
                mpost,
            ),
            Err(_) => true,
        },
    decreases ts.len() - i, 5int,
{
    lemma_raw_sum(ts, i, math, mposr);
    lemma_rel_sum(ts, i, math, mposr, mpost);
    match spec_parse_sum(ts, i, false, math, mposr) {
        Ok(st) => {
            if i < st.next <= ts.len() {
                let acc_f = seq![st.expr];
                assert(acc_f[0] == st.expr);
                lemma_pfold_args_one(acc_f, math, mpost);
                lemma_rel_args_rest(ts, acc_f, st.is_const, st.next, math, st.mpos, mpost);
                match pfold(st.expr, math, mpost) {
                    Ok((et, mpt)) => {
                        assert(pfold_args(acc_f, math, mpost) == Ok::<
                            (Seq<ExprModel>, int),
                            StopModel,
                        >((seq![et], mpt)));
                    },
                    Err(s) => {
                        assert(pfold_args(acc_f, math, mpost) == Err::<
                            (Seq<ExprModel>, int),
                            StopModel,
                        >(s));
                    },
                }
            }
        },
        Err(_) => {},
    }
}

/// The rest of an argument list, with and without folding, related through
/// the fold of the list so far.
#[verifier::rlimit(100)]
proof fn lemma_rel_args_rest(
    ts: Seq<TokenModel>,
    acc_f: Seq<ExprModel>,
    ac: bool,
    i: int,
    math: Seq<u32>,
    mposr: int,
    mpos0: int,
)
    requires
        0 <= i <= ts.len(),
    ensures
        match spec_args_rest(ts, acc_f, ac, i, false, math, mposr) {
            Ok(astf) => match pfold_args(acc_f, math, mpos0) {
                Ok((acc_t, mpt)) => spec_args_rest(ts, acc_t, ac, i, true, math, mpt)
                    == args_fold_outcome(astf.args, astf.is_const, astf.next, math, mpos0),
                Err(s) => pfold_args(astf.args, math, mpos0) == Err::<
                    (Seq<ExprModel>, int),
                    StopModel,
                >(s),
            },
            Err(_) => true,
        },
    decreases ts.len() - i, 5int,
{
    if 0 <= i < ts.len() && ts[i] is Comma {
        match pfold_args(acc_f, math, mpos0) {
            Ok((acc_t, mpt)) => {
                lemma_rel_sum(ts, i + 1, math, mposr, mpt);
                match spec_parse_sum(ts, i + 1, false, math, mposr) {
                    Ok(st) => {
                        if i < st.next <= ts.len() {
                            lemma_pfold_args_push(acc_f, st.expr, math, mpos0);
                            lemma_rel_args_rest(
                                ts,
                                acc_f.push(st.expr),
                                ac && st.is_const,
                                st.next,
                                math,
                                st.mpos,
                                mpos0,
                            );
                            match pfold(st.expr, math, mpt) {
                                Ok((et, mp2)) => {
                                    assert(pfold_args(acc_f.push(st.expr), math, mpos0) == Ok::<
                                        (Seq<ExprModel>, int),
                                        StopModel,
                                    >((acc_t.push(et), mp2)));
                                },
                                Err(s2) => {
                                    assert(pfold_args(acc_f.push(st.expr), math, mpos0) == Err::<
                                        (Seq<ExprModel>, int),
                                        StopModel,
                                    >(s2));
                                },
                            }
                        }
                    },
                    Err(_) => {},
                }
            },
            Err(s) => {
                match spec_parse_sum(ts, i + 1, false, math, mposr) {
                    Ok(st) => {
                        if i < st.next <= ts.len() {
                            lemma_pfold_args_push(acc_f, st.expr, math, mpos0);
                            assert(pfold_args(acc_f.push(st.expr), math, mpos0) == Err::<
                                (Seq<ExprModel>, int),
                                StopModel,
                            >(s));
                            lemma_rel_args_rest(
                                ts,
                                acc_f.push(st.expr),
                                ac && st.is_const,
                                st.next,
                                math,
                                st.mpos,
                                mpos0,
                            );
                        }
                    },
                    Err(_) => {},
                }
            },
        }
    }
}

/// Parsing with constant folding is parsing without it and then folding:
/// on any token sequence whose unfolded parse succeeds, the folding parse
/// returns exactly the fold of the unfolded tree — in particular, on a
/// fully constant input it returns the single numeric leaf holding the
/// constant evaluation of the unfolded tree, fails with that evaluation's
/// error wrapped in `EvalError`, or stops on its missing transcendental
/// answer.
pub proof fn lemma_parse_constant_fold(ts: Seq<TokenModel>, math: Seq<u32>)
    ensures
        match spec_parse(ts, false, math) {
            Ok(e_raw) => spec_parse(ts, true, math) == (match pfold(e_raw, math, 0) {
                Ok((et, _)) => Ok::<ExprModel, PStop>(et),
                Err(s) => Err(stop_to_pstop(s)),
            }),
            Err(_) => true,
        },
        match spec_parse(ts, false, math) {
            Ok(e_raw) => is_const_tree(e_raw) ==> spec_parse(ts, true, math) == (
            match spec_eval_const(e_raw, math, 0) {
                Ok(st) => Ok::<ExprModel, PStop>(ExprModel::Num(st.value)),
                Err(s) => Err(stop_to_pstop(s)),
            }),
            Err(_) => true,
        },
{
    lemma_rel_sum(ts, 0, math, 0, 0);
}


/// An expression parsed with constant folding that still holds a variable
/// and no derivative always fails constant evaluation with
/// `VariableNotDefined`, naming its first variable in evaluation order:
/// folding leaves no unevaluated constant sub-expression behind whose
/// numeric error could surface first.
pub proof fn lemma_parsed_free_variable(
    ts: Seq<TokenModel>,
    math: Seq<u32>,
    math2: Seq<u32>,
    pos: int,
)
    ensures
        match spec_parse(ts, true, math) {
            Ok(e) => has_var(e) && no_deriv(e) ==> spec_eval_const(e, math2, pos) == Err::<
                StepModel,
                StopModel,
            >(StopModel::Fail(EvalErrorModel::VariableNotDefined(first_var(e)))),
            Err(_) => true,
        },
{
    lemma_parse_folded(ts, math);
    match spec_parse(ts, true, math) {
        Ok(e) => {
            if has_var(e) && no_deriv(e) {
                lemma_eval_const_free_variable(e, math2, pos);
            }
        },
        Err(_) => {},
    }
}


/// Substituting bindings into a numeric leaf changes nothing.
proof fn lemma_subst_nums_num(b: u32, bs: Seq<(Seq<char>, u32)>, i: int)
    ensures
        spec_subst_nums(ExprModel::Num(b), bs, i) == ExprModel::Num(b),
    decreases bs.len() - i,
{
    if 0 <= i < bs.len() {
        assert(spec_subst(ExprModel::Num(b), bs[i].0, ExprModel::Num(bs[i].1)) == ExprModel::Num(
            b,
        ));
        lemma_subst_nums_num(b, bs, i + 1);
    }
}

/// Substituting bindings into a variable leaf replaces it by its first
/// binding's value, if the list binds it at all.
proof fn lemma_subst_nums_var(s: Seq<char>, bs: Seq<(Seq<char>, u32)>, i: int)
    ensures
        spec_subst_nums(ExprModel::Var(s), bs, i) == (match spec_lookup_at(bs, s, i) {
            Some(v) => ExprModel::Num(v),
            None => ExprModel::Var(s),
        }),
    decreases bs.len() - i,
{
    if 0 <= i < bs.len() {
        if bs[i].0 == s {
            assert(spec_subst(ExprModel::Var(s), bs[i].0, ExprModel::Num(bs[i].1))
                == ExprModel::Num(bs[i].1));
            lemma_subst_nums_num(bs[i].1, bs, i + 1);
        } else {
            assert(spec_subst(ExprModel::Var(s), bs[i].0, ExprModel::Num(bs[i].1))
                == ExprModel::Var(s));
            lemma_subst_nums_var(s, bs, i + 1);
        }
    }
}

/// Substituting bindings into a binary node substitutes into both
/// children.
proof fn lemma_subst_nums_binop(
    e: ExprModel,
    l: ExprModel,
    r: ExprModel,
    bs: Seq<(Seq<char>, u32)>,
    i: int,
)
    requires
        e == ExprModel::Add(Box::new(l), Box::new(r)) || e == ExprModel::Sub(
            Box::new(l),
            Box::new(r),
        ) || e == ExprModel::Mul(Box::new(l), Box::new(r)) || e == ExprModel::Div(
            Box::new(l),
            Box::new(r),
        ) || e == ExprModel::Pow(Box::new(l), Box::new(r)) || e == ExprModel::Log(
            Box::new(l),
            Box::new(r),
        ),
    ensures
        spec_subst_nums(e, bs, i) == (match e {
            ExprModel::Add(_, _) => ExprModel::Add(
                Box::new(spec_subst_nums(l, bs, i)),
                Box::new(spec_subst_nums(r, bs, i)),
            ),
            ExprModel::Sub(_, _) => ExprModel::Sub(
                Box::new(spec_subst_nums(l, bs, i)),
                Box::new(spec_subst_nums(r, bs, i)),
            ),
            ExprModel::Mul(_, _) => ExprModel::Mul(
                Box::new(spec_subst_nums(l, bs, i)),
                Box::new(spec_subst_nums(r, bs, i)),
            ),
            ExprModel::Div(_, _) => ExprModel::Div(
                Box::new(spec_subst_nums(l, bs, i)),
                Box::new(spec_subst_nums(r, bs, i)),
            ),
            ExprModel::Pow(_, _) => ExprModel::Pow(
                Box::new(spec_subst_nums(l, bs, i)),
                Box::new(spec_subst_nums(r, bs, i)),
            ),
            _ => ExprModel::Log(
                Box::new(spec_subst_nums(l, bs, i)),
                Box::new(spec_subst_nums(r, bs, i)),
            ),
        }),
    decreases bs.len() - i,
{
    if 0 <= i < bs.len() {
        let l2 = spec_subst(l, bs[i].0, ExprModel::Num(bs[i].1));
        let r2 = spec_subst(r, bs[i].0, ExprModel::Num(bs[i].1));
        lemma_subst_nums_binop(spec_subst(e, bs[i].0, ExprModel::Num(bs[i].1)), l2, r2, bs, i + 1);
    }
}

/// Substituting bindings into a unary node substitutes into its operand.
proof fn lemma_subst_nums_unop(e: ExprModel, inner: ExprModel, bs: Seq<(Seq<char>, u32)>, i: int)
    requires
        e == ExprModel::Sin(Box::new(inner)) || e == ExprModel::Cos(Box::new(inner)) || e
            == ExprModel::Tan(Box::new(inner)) || e == ExprModel::Cot(Box::new(inner)) || e
            == ExprModel::Abs(Box::new(inner)),
    ensures
        spec_subst_nums(e, bs, i) == (match e {
            ExprModel::Sin(_) => ExprModel::Sin(Box::new(spec_subst_nums(inner, bs, i))),
            ExprModel::Cos(_) => ExprModel::Cos(Box::new(spec_subst_nums(inner, bs, i))),
            ExprModel::Tan(_) => ExprModel::Tan(Box::new(spec_subst_nums(inner, bs, i))),
            ExprModel::Cot(_) => ExprModel::Cot(Box::new(spec_subst_nums(inner, bs, i))),
            _ => ExprModel::Abs(Box::new(spec_subst_nums(inner, bs, i))),
        }),
    decreases bs.len() - i,
{
    if 0 <= i < bs.len() {
        let in2 = spec_subst(inner, bs[i].0, ExprModel::Num(bs[i].1));
        lemma_subst_nums_unop(spec_subst(e, bs[i].0, ExprModel::Num(bs[i].1)), in2, bs, i + 1);
    }
}

/// Substituting every binding's value for its variable and then evaluating
/// the tree as a constant is the same as evaluating the original tree
/// against the binding list — on derivative-free trees, for every answer
/// list and every position in it.
pub proof fn lemma_subst_nums_then_eval_const(
    e: ExprModel,
    bs: Seq<(Seq<char>, u32)>,
    math: Seq<u32>,
    pos: int,
)
    requires
        no_deriv(e),
    ensures
        spec_eval_const(spec_subst_nums(e, bs, 0), math, pos) == spec_eval_with(e, bs, math, pos),
    decreases e, 1int,
{
    match e {
        ExprModel::Num(b) => {
            lemma_subst_nums_num(b, bs, 0);
        },
        ExprModel::Var(s) => {
            lemma_subst_nums_var(s, bs, 0);
        },
        ExprModel::Add(l, r) => {
            lemma_subst_nums_eval_binop(e, *l, *r, bs, math, pos);
        },
        ExprModel::Sub(l, r) => {
            lemma_subst_nums_eval_binop(e, *l, *r, bs, math, pos);
        },
        ExprModel::Mul(l, r) => {
            lemma_subst_nums_eval_binop(e, *l, *r, bs, math, pos);
        },
        ExprModel::Div(l, r) => {
            lemma_subst_nums_eval_binop(e, *l, *r, bs, math, pos);
        },
        ExprModel::Pow(l, r) => {
            lemma_subst_nums_eval_binop(e, *l, *r, bs, math, pos);
        },
        ExprModel::Log(l, r) => {
            lemma_subst_nums_eval_binop(e, *l, *r, bs, math, pos);
        },
        ExprModel::Sin(i) => {
            lemma_subst_nums_eval_unop(e, *i, bs, math, pos);
        },
        ExprModel::Cos(i) => {
            lemma_subst_nums_eval_unop(e, *i, bs, math, pos);
        },
        ExprModel::Tan(i) => {
            lemma_subst_nums_eval_unop(e, *i, bs, math, pos);
        },
        ExprModel::Cot(i) => {
            lemma_subst_nums_eval_unop(e, *i, bs, math, pos);
        },
        ExprModel::Abs(i) => {
            lemma_subst_nums_eval_unop(e, *i, bs, math, pos);
        },
        ExprModel::Derivative(_, _, _) => {},
    }
}

/// The binary-operator case of the binding-list round trip.
proof fn lemma_subst_nums_eval_binop(
    e: ExprModel,
    l: ExprModel,
    r: ExprModel,
    bs: Seq<(Seq<char>, u32)>,
    math: Seq<u32>,
    pos: int,
)
    requires
        no_deriv(l),
        no_deriv(r),
        e == ExprModel::Add(Box::new(l), Box::new(r)) || e == ExprModel::Sub(
            Box::new(l),
            Box::new(r),
        ) || e == ExprModel::Mul(Box::new(l), Box::new(r)) || e == ExprModel::Div(
            Box::new(l),
            Box::new(r),
        ) || e == ExprModel::Pow(Box::new(l), Box::new(r)) || e == ExprModel::Log(
            Box::new(l),
            Box::new(r),
        ),
    ensures
        spec_eval_const(spec_subst_nums(e, bs, 0), math, pos) == spec_eval_with(e, bs, math, pos),
    decreases e, 0int,
{
    lemma_subst_nums_binop(e, l, r, bs, 0);
    lemma_subst_nums_then_eval_const(l, bs, math, pos);
    let lv = spec_eval_with(l, bs, math, pos);
    if lv is Ok {
        lemma_subst_nums_then_eval_const(r, bs, math, lv->Ok_0.next);
    }
}

/// The unary-operator case of the binding-list round trip.
proof fn lemma_subst_nums_eval_unop(
    e: ExprModel,
    inner: ExprModel,
    bs: Seq<(Seq<char>, u32)>,
    math: Seq<u32>,
    pos: int,
)
    requires
        no_deriv(inner),
        e == ExprModel::Sin(Box::new(inner)) || e == ExprModel::Cos(Box::new(inner)) || e
            == ExprModel::Tan(Box::new(inner)) || e == ExprModel::Cot(Box::new(inner)) || e
            == ExprModel::Abs(Box::new(inner)),
    ensures
        spec_eval_const(spec_subst_nums(e, bs, 0), math, pos) == spec_eval_with(e, bs, math, pos),
    decreases e, 0int,
{
    lemma_subst_nums_unop(e, inner, bs, 0);
    lemma_subst_nums_then_eval_const(inner, bs, math, pos);
}

} // verus!
