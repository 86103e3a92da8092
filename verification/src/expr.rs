//! The expression tree.

use vstd::prelude::*;
use crate::numeric::ZERO_BITS;

verus! {

/// A mathematical expression, represented as a tree of operations.
///
/// Leaves are numeric literals (binary32 bit patterns) and free variables.
/// Binary and unary variants own their children; for [`Expr::Log`] the first
/// child is the base.  [`Expr::Derivative`] holds the expression being
/// differentiated, the variable of differentiation, and an optional delayed
/// substitution for that variable, filled in by [`Expr::substitute`] and
/// resolved only when the derivative is evaluated.
#[derive(Debug, PartialEq)]
pub enum Expr {
    Num(u32),
    Var(String),
    Add(Box<Expr>, Box<Expr>),
    Sub(Box<Expr>, Box<Expr>),
    Mul(Box<Expr>, Box<Expr>),
    Div(Box<Expr>, Box<Expr>),
    Pow(Box<Expr>, Box<Expr>),
    Log(Box<Expr>, Box<Expr>),
    Sin(Box<Expr>),
    Cos(Box<Expr>),
    Tan(Box<Expr>),
    Cot(Box<Expr>),
    Abs(Box<Expr>),
    Derivative(Box<Expr>, String, Option<Box<Expr>>),
}

/// The mathematical model of an [`Expr`]: the same tree with variable names
/// as sequences of characters.
pub ghost enum ExprModel {
    Num(u32),
    Var(Seq<char>),
    Add(Box<ExprModel>, Box<ExprModel>),
    Sub(Box<ExprModel>, Box<ExprModel>),
    Mul(Box<ExprModel>, Box<ExprModel>),
    Div(Box<ExprModel>, Box<ExprModel>),
    Pow(Box<ExprModel>, Box<ExprModel>),
    Log(Box<ExprModel>, Box<ExprModel>),
    Sin(Box<ExprModel>),
    Cos(Box<ExprModel>),
    Tan(Box<ExprModel>),
    Cot(Box<ExprModel>),
    Abs(Box<ExprModel>),
    Derivative(Box<ExprModel>, Seq<char>, Option<Box<ExprModel>>),
}

impl Expr {
    /// The model of this tree.
    pub open spec fn model(&self) -> ExprModel
        decreases self,
    {
        match self {
            Expr::Num(b) => ExprModel::Num(*b),
            Expr::Var(s) => ExprModel::Var(s@),
            Expr::Add(l, r) => ExprModel::Add(Box::new(l.model()), Box::new(r.model())),
            Expr::Sub(l, r) => ExprModel::Sub(Box::new(l.model()), Box::new(r.model())),
            Expr::Mul(l, r) => ExprModel::Mul(Box::new(l.model()), Box::new(r.model())),
            Expr::Div(l, r) => ExprModel::Div(Box::new(l.model()), Box::new(r.model())),
            Expr::Pow(l, r) => ExprModel::Pow(Box::new(l.model()), Box::new(r.model())),
            Expr::Log(l, r) => ExprModel::Log(Box::new(l.model()), Box::new(r.model())),
            Expr::Sin(i) => ExprModel::Sin(Box::new(i.model())),
            Expr::Cos(i) => ExprModel::Cos(Box::new(i.model())),
            Expr::Tan(i) => ExprModel::Tan(Box::new(i.model())),
            Expr::Cot(i) => ExprModel::Cot(Box::new(i.model())),
            Expr::Abs(i) => ExprModel::Abs(Box::new(i.model())),
            Expr::Derivative(e, v, sub) => ExprModel::Derivative(
                Box::new(e.model()),
                v@,
                match sub {
                    Some(s) => Some(Box::new(s.model())),
                    None => None,
                },
            ),
        }
    }
}

impl View for Expr {
    type V = ExprModel;

    open spec fn view(&self) -> ExprModel {
        self.model()
    }
}

impl Default for Expr {
    /// The zero literal.
    fn default() -> (r: Self)
        ensures
            r@ == ExprModel::Num(ZERO_BITS),
    {
        Expr::Num(ZERO_BITS)
    }
}

impl Clone for Expr {
    /// A structurally identical copy of the tree.
    fn clone(&self) -> (r: Self)
        ensures
            r@ == self@,
        decreases self,
    {
        match self {
            Expr::Num(b) => Expr::Num(*b),
            Expr::Var(s) => Expr::Var(s.clone()),
            Expr::Add(l, r) => Expr::Add(Box::new((**l).clone()), Box::new((**r).clone())),
            Expr::Sub(l, r) => Expr::Sub(Box::new((**l).clone()), Box::new((**r).clone())),
            Expr::Mul(l, r) => Expr::Mul(Box::new((**l).clone()), Box::new((**r).clone())),
            Expr::Div(l, r) => Expr::Div(Box::new((**l).clone()), Box::new((**r).clone())),
            Expr::Pow(l, r) => Expr::Pow(Box::new((**l).clone()), Box::new((**r).clone())),
            Expr::Log(l, r) => Expr::Log(Box::new((**l).clone()), Box::new((**r).clone())),
            Expr::Sin(i) => Expr::Sin(Box::new((**i).clone())),
            Expr::Cos(i) => Expr::Cos(Box::new((**i).clone())),
            Expr::Tan(i) => Expr::Tan(Box::new((**i).clone())),
            Expr::Cot(i) => Expr::Cot(Box::new((**i).clone())),
            Expr::Abs(i) => Expr::Abs(Box::new((**i).clone())),
            Expr::Derivative(e, v, sub) => Expr::Derivative(
                Box::new((**e).clone()),
                v.clone(),
                match sub {
                    Some(s) => Some(Box::new((**s).clone())),
                    None => None,
                },
            ),
        }
    }
}

// CONSTRUCTORS
impl Expr {
    /// A product node.
    pub fn new_mul(lhs: Expr, rhs: Expr) -> (r: Self)
        ensures
            r@ == ExprModel::Mul(Box::new(lhs@), Box::new(rhs@)),
    {
        Expr::Mul(Box::new(lhs), Box::new(rhs))
    }

    /// A sum node.
    pub fn new_add(lhs: Expr, rhs: Expr) -> (r: Self)
        ensures
            r@ == ExprModel::Add(Box::new(lhs@), Box::new(rhs@)),
    {
        Expr::Add(Box::new(lhs), Box::new(rhs))
    }

    /// A difference node.
    pub fn new_sub(lhs: Expr, rhs: Expr) -> (r: Self)
        ensures
            r@ == ExprModel::Sub(Box::new(lhs@), Box::new(rhs@)),
    {
        Expr::Sub(Box::new(lhs), Box::new(rhs))
    }

    /// A quotient node.
    pub fn new_div(lhs: Expr, rhs: Expr) -> (r: Self)
        ensures
            r@ == ExprModel::Div(Box::new(lhs@), Box::new(rhs@)),
    {
        Expr::Div(Box::new(lhs), Box::new(rhs))
    }

    /// A power node.
    pub fn new_pow(lhs: Expr, rhs: Expr) -> (r: Self)
        ensures
            r@ == ExprModel::Pow(Box::new(lhs@), Box::new(rhs@)),
    {
        Expr::Pow(Box::new(lhs), Box::new(rhs))
    }

    /// A logarithm node; the first child is the base.
    pub fn new_log(base: Expr, arg: Expr) -> (r: Self)
        ensures
            r@ == ExprModel::Log(Box::new(base@), Box::new(arg@)),
    {
        Expr::Log(Box::new(base), Box::new(arg))
    }

    /// A sine node.
    pub fn new_sin(inner: Expr) -> (r: Self)
        ensures
            r@ == ExprModel::Sin(Box::new(inner@)),
    {
        Expr::Sin(Box::new(inner))
    }

    /// A cosine node.
    pub fn new_cos(inner: Expr) -> (r: Self)
        ensures
            r@ == ExprModel::Cos(Box::new(inner@)),
    {
        Expr::Cos(Box::new(inner))
    }

    /// A tangent node.
    pub fn new_tan(inner: Expr) -> (r: Self)
        ensures
            r@ == ExprModel::Tan(Box::new(inner@)),
    {
        Expr::Tan(Box::new(inner))
    }

    /// A cotangent node.
    pub fn new_cot(inner: Expr) -> (r: Self)
        ensures
            r@ == ExprModel::Cot(Box::new(inner@)),
    {
        Expr::Cot(Box::new(inner))
    }

    /// An absolute-value node.
    pub fn new_abs(inner: Expr) -> (r: Self)
        ensures
            r@ == ExprModel::Abs(Box::new(inner@)),
    {
        Expr::Abs(Box::new(inner))
    }

    /// A derivative of `expr` with respect to `var`, with no delayed
    /// substitution yet.
    pub fn new_derivative(var: &str, expr: Expr) -> (r: Self)
        ensures
            r@ == ExprModel::Derivative(Box::new(expr@), var@, None),
    {
        Expr::Derivative(Box::new(expr), var.to_owned(), None)
    }
}

/// How many derivative nodes the tree holds.  Evaluating a derivative
/// substitutes into its inner expression and then evaluates the result,
/// which can be larger than the original tree but always holds strictly
/// fewer derivative nodes; this count is therefore the leading component of
/// every termination measure of evaluation.
pub open spec fn dcount(e: ExprModel) -> nat
    decreases e,
{
    match e {
        ExprModel::Num(_) => 0,
        ExprModel::Var(_) => 0,
        ExprModel::Add(l, r) => dcount(*l) + dcount(*r),
        ExprModel::Sub(l, r) => dcount(*l) + dcount(*r),
        ExprModel::Mul(l, r) => dcount(*l) + dcount(*r),
        ExprModel::Div(l, r) => dcount(*l) + dcount(*r),
        ExprModel::Pow(l, r) => dcount(*l) + dcount(*r),
        ExprModel::Log(l, r) => dcount(*l) + dcount(*r),
        ExprModel::Sin(i) => dcount(*i),
        ExprModel::Cos(i) => dcount(*i),
        ExprModel::Tan(i) => dcount(*i),
        ExprModel::Cot(i) => dcount(*i),
        ExprModel::Abs(i) => dcount(*i),
        ExprModel::Derivative(inner, _, sub) => 1 + dcount(*inner) + match sub {
            Some(s) => dcount(*s),
            None => 0nat,
        },
    }
}

/// Substitution of `value` for the variable `var`, leaves upward.
///
/// A matching variable leaf is replaced by `value` wholesale.  A derivative
/// node over a different variable recurses into its inner expression and its
/// delayed substitution; a derivative node over `var` itself keeps its inner
/// expression untouched and instead records `value` in its delayed
/// substitution slot (or substitutes into the slot if one is already there).
pub open spec fn spec_subst(e: ExprModel, var: Seq<char>, value: ExprModel) -> ExprModel
    decreases e,
{
    match e {
        ExprModel::Num(b) => ExprModel::Num(b),
        ExprModel::Var(s) => if s == var {
            value
        } else {
            ExprModel::Var(s)
        },
        ExprModel::Add(l, r) => ExprModel::Add(
            Box::new(spec_subst(*l, var, value)),
            Box::new(spec_subst(*r, var, value)),
        ),
        ExprModel::Sub(l, r) => ExprModel::Sub(
            Box::new(spec_subst(*l, var, value)),
            Box::new(spec_subst(*r, var, value)),
        ),
        ExprModel::Mul(l, r) => ExprModel::Mul(
            Box::new(spec_subst(*l, var, value)),
            Box::new(spec_subst(*r, var, value)),
        ),
        ExprModel::Div(l, r) => ExprModel::Div(
            Box::new(spec_subst(*l, var, value)),
            Box::new(spec_subst(*r, var, value)),
        ),
        ExprModel::Pow(l, r) => ExprModel::Pow(
            Box::new(spec_subst(*l, var, value)),
            Box::new(spec_subst(*r, var, value)),
        ),
        ExprModel::Log(l, r) => ExprModel::Log(
            Box::new(spec_subst(*l, var, value)),
            Box::new(spec_subst(*r, var, value)),
        ),
        ExprModel::Sin(i) => ExprModel::Sin(Box::new(spec_subst(*i, var, value))),
        ExprModel::Cos(i) => ExprModel::Cos(Box::new(spec_subst(*i, var, value))),
        ExprModel::Tan(i) => ExprModel::Tan(Box::new(spec_subst(*i, var, value))),
        ExprModel::Cot(i) => ExprModel::Cot(Box::new(spec_subst(*i, var, value))),
        ExprModel::Abs(i) => ExprModel::Abs(Box::new(spec_subst(*i, var, value))),
        ExprModel::Derivative(inner, dv, sub) => if dv != var {
            ExprModel::Derivative(
                Box::new(spec_subst(*inner, var, value)),
                dv,
                match sub {
                    Some(s) => Some(Box::new(spec_subst(*s, var, value))),
                    None => None,
                },
            )
        } else {
            match sub {
                Some(s) => ExprModel::Derivative(
                    inner,
                    dv,
                    Some(Box::new(spec_subst(*s, var, value))),
                ),
                None => ExprModel::Derivative(inner, dv, Some(Box::new(value))),
            }
        },
    }
}

/// Substituting a numeric literal never changes how many derivative nodes a
/// tree holds.
pub proof fn lemma_dcount_subst_num(e: ExprModel, var: Seq<char>, val: u32)
    ensures
        dcount(spec_subst(e, var, ExprModel::Num(val))) == dcount(e),
    decreases e,
{
    assert(dcount(ExprModel::Num(val)) == 0);
    match e {
        ExprModel::Num(_) => {},
        ExprModel::Var(_) => {},
        ExprModel::Add(l, r) => {
            lemma_dcount_subst_num(*l, var, val);
            lemma_dcount_subst_num(*r, var, val);
        },
        ExprModel::Sub(l, r) => {
            lemma_dcount_subst_num(*l, var, val);
            lemma_dcount_subst_num(*r, var, val);
        },
        ExprModel::Mul(l, r) => {
            lemma_dcount_subst_num(*l, var, val);
            lemma_dcount_subst_num(*r, var, val);
        },
        ExprModel::Div(l, r) => {
            lemma_dcount_subst_num(*l, var, val);
            lemma_dcount_subst_num(*r, var, val);
        },
        ExprModel::Pow(l, r) => {
            lemma_dcount_subst_num(*l, var, val);
            lemma_dcount_subst_num(*r, var, val);
        },
        ExprModel::Log(l, r) => {
            lemma_dcount_subst_num(*l, var, val);
            lemma_dcount_subst_num(*r, var, val);
        },
        ExprModel::Sin(i) => {
            lemma_dcount_subst_num(*i, var, val);
        },
        ExprModel::Cos(i) => {
            lemma_dcount_subst_num(*i, var, val);
        },
        ExprModel::Tan(i) => {
            lemma_dcount_subst_num(*i, var, val);
        },
        ExprModel::Cot(i) => {
            lemma_dcount_subst_num(*i, var, val);
        },
        ExprModel::Abs(i) => {
            lemma_dcount_subst_num(*i, var, val);
        },
        ExprModel::Derivative(inner, _, sub) => {
            lemma_dcount_subst_num(*inner, var, val);
            match sub {
                Some(s) => {
                    lemma_dcount_subst_num(*s, var, val);
                },
                None => {},
            }
        },
    }
}

impl Expr {
    /// The tree with `value` substituted for `var`, built without touching
    /// this tree.
    pub fn substituted(&self, var: &str, value: &Expr) -> (r: Expr)
        ensures
            r@ == spec_subst(self@, var@, value@),
        decreases self,
    {
        match self {
            Expr::Num(b) => Expr::Num(*b),
            Expr::Var(s) => if crate::text::str_eq(s.as_str(), var) {
                value.clone()
            } else {
                Expr::Var(s.clone())
            },
            Expr::Add(l, r) => Expr::Add(
                Box::new(l.substituted(var, value)),
                Box::new(r.substituted(var, value)),
            ),
            Expr::Sub(l, r) => Expr::Sub(
                Box::new(l.substituted(var, value)),
                Box::new(r.substituted(var, value)),
            ),
            Expr::Mul(l, r) => Expr::Mul(
                Box::new(l.substituted(var, value)),
                Box::new(r.substituted(var, value)),
            ),
            Expr::Div(l, r) => Expr::Div(
                Box::new(l.substituted(var, value)),
                Box::new(r.substituted(var, value)),
            ),
            Expr::Pow(l, r) => Expr::Pow(
                Box::new(l.substituted(var, value)),
                Box::new(r.substituted(var, value)),
            ),
            Expr::Log(l, r) => Expr::Log(
                Box::new(l.substituted(var, value)),
                Box::new(r.substituted(var, value)),
            ),
            Expr::Sin(i) => Expr::Sin(Box::new(i.substituted(var, value))),
            Expr::Cos(i) => Expr::Cos(Box::new(i.substituted(var, value))),
            Expr::Tan(i) => Expr::Tan(Box::new(i.substituted(var, value))),
            Expr::Cot(i) => Expr::Cot(Box::new(i.substituted(var, value))),
            Expr::Abs(i) => Expr::Abs(Box::new(i.substituted(var, value))),
            Expr::Derivative(e, dv, sub) => if !crate::text::str_eq(dv.as_str(), var) {
                Expr::Derivative(
                    Box::new(e.substituted(var, value)),
                    dv.clone(),
                    match sub {
                        Some(s) => Some(Box::new(s.substituted(var, value))),
                        None => None,
                    },
                )
            } else {
                match sub {
                    Some(s) => Expr::Derivative(
                        Box::new((**e).clone()),
                        dv.clone(),
                        Some(Box::new(s.substituted(var, value))),
                    ),
                    None => Expr::Derivative(
                        Box::new((**e).clone()),
                        dv.clone(),
                        Some(Box::new(value.clone())),
                    ),
                }
            },
        }
    }

    /// Substitute `value` for every occurrence of the variable `var`, in
    /// place.
    ///
    /// On a derivative with respect to `var` itself, the substitution is not
    /// applied to the inner expression but recorded as the node's delayed
    /// substitution, resolved when the derivative is evaluated.
    pub fn substitute(&mut self, var: &str, value: &Expr)
        ensures
            final(self)@ == spec_subst(old(self)@, var@, value@),
    {
        let r = self.substituted(var, value);
        *self = r;
    }
}


/// The model of an exec binding slice: each pair's name as a sequence of
/// characters.
pub open spec fn bindings_model(vs: Seq<(&str, u32)>) -> Seq<(Seq<char>, u32)> {
    vs.map_values(|p: (&str, u32)| (p.0@, p.1))
}

/// Substitution of every binding in order, from index `i` on, each value as
/// a numeric literal.
pub open spec fn spec_subst_nums(e: ExprModel, bs: Seq<(Seq<char>, u32)>, i: int) -> ExprModel
    decreases bs.len() - i,
{
    if i < 0 || i >= bs.len() {
        e
    } else {
        spec_subst_nums(spec_subst(e, bs[i].0, ExprModel::Num(bs[i].1)), bs, i + 1)
    }
}

impl Expr {
    /// Substitute every binding's value for its variable, in order.
    pub fn substitute_nums(&mut self, values: &[(&str, u32)])
        ensures
            final(self)@ == spec_subst_nums(old(self)@, bindings_model(values@), 0),
    {
        let ghost bs = bindings_model(values@);
        let mut i: usize = 0;
        while i < values.len()
            invariant
                i <= values@.len(),
                bs == bindings_model(values@),
                spec_subst_nums(old(self)@, bs, 0) == spec_subst_nums(self@, bs, i as int),
            decreases values@.len() - i,
        {
            let (name, val) = values[i];
            self.substitute(name, &Expr::Num(val));
            i += 1;
        }
        proof {
            assert(spec_subst_nums(self@, bs, i as int) == self@);
        }
    }
}

} // verus!
