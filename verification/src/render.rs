//! Deterministic text rendering of expression trees.
//!
//! Binary operators are fully parenthesized, unary operators are rendered
//! as `fn(arg)`, logarithms as `log(base, arg)` and derivatives as
//! `D(var, expr)`, annotated with their delayed substitution when one is
//! recorded.  The output is for diagnostics; it is not required to be
//! re-parseable input syntax.

use vstd::prelude::*;
use crate::eval::{is_binop, is_unop};
use crate::expr::{Expr, ExprModel};
use crate::numeric::{bits_to_decimal, decimal_of_bits};

verus! {

/// The operator text of a binary node.
pub open spec fn spec_binop_str(e: ExprModel) -> Seq<char> {
    match e {
        ExprModel::Add(_, _) => "+"@,
        ExprModel::Sub(_, _) => "-"@,
        ExprModel::Mul(_, _) => "*"@,
        ExprModel::Div(_, _) => "/"@,
        ExprModel::Pow(_, _) => "^"@,
        _ => vstd::pervasive::arbitrary(),
    }
}

/// The function name of a unary node.
pub open spec fn spec_unop_name(e: ExprModel) -> Seq<char> {
    match e {
        ExprModel::Sin(_) => "sin"@,
        ExprModel::Cos(_) => "cos"@,
        ExprModel::Tan(_) => "tan"@,
        ExprModel::Cot(_) => "cot"@,
        ExprModel::Abs(_) => "abs"@,
        _ => vstd::pervasive::arbitrary(),
    }
}

/// The rendered text of an expression tree.
pub open spec fn spec_render(e: ExprModel) -> Seq<char>
    decreases e,
{
    match e {
        ExprModel::Num(b) => decimal_of_bits(b),
        ExprModel::Var(s) => s,
        ExprModel::Log(base, arg) => "log("@ + spec_render(*base) + ", "@ + spec_render(*arg)
            + ")"@,
        ExprModel::Derivative(inner, v, sub) => match sub {
            None => "D("@ + v + ", "@ + spec_render(*inner) + ")"@,
            Some(s) => "D("@ + v + ", "@ + spec_render(*inner) + ")["@ + v + " = "@ + spec_render(
                *s,
            ) + "]"@,
        },
        ExprModel::Sin(i) | ExprModel::Cos(i) | ExprModel::Tan(i) | ExprModel::Cot(i)
            | ExprModel::Abs(i) => spec_unop_name(e) + "("@ + spec_render(*i) + ")"@,
        ExprModel::Add(l, r) | ExprModel::Sub(l, r) | ExprModel::Mul(l, r) | ExprModel::Div(l, r)
            | ExprModel::Pow(l, r) => "("@ + spec_render(*l) + " "@ + spec_binop_str(e) + " "@
            + spec_render(*r) + ")"@,
    }
}

/// The operator text of a binary node.
fn binop_to_string_unchecked(e: &Expr) -> (s: &'static str)
    requires
        is_binop(e@) && !(e@ is Log),
    ensures
        s@ == spec_binop_str(e@),
{
    match e {
        Expr::Add(_, _) => "+",
        Expr::Sub(_, _) => "-",
        Expr::Mul(_, _) => "*",
        Expr::Div(_, _) => "/",
        Expr::Pow(_, _) => "^",
        _ => vstd::pervasive::unreached(),
    }
}

/// The function name of a unary node.
fn unop_to_string_unchecked(e: &Expr) -> (s: String)
    requires
        is_unop(e@),
    ensures
        s@ == spec_unop_name(e@),
{
    match e {
        Expr::Sin(_) => "sin".to_owned(),
        Expr::Cos(_) => "cos".to_owned(),
        Expr::Tan(_) => "tan".to_owned(),
        Expr::Cot(_) => "cot".to_owned(),
        Expr::Abs(_) => "abs".to_owned(),
        _ => vstd::pervasive::unreached(),
    }
}

impl Expr {
    /// The rendered text of this tree.
    pub fn to_text(&self) -> (r: String)
        ensures
            r@ == spec_render(self@),
        decreases self,
    {
        match self {
            Expr::Num(b) => bits_to_decimal(*b),
            Expr::Var(s) => s.clone(),
            Expr::Log(base, arg) => {
                let mut out = String::from_str("log(");
                out.append(base.to_text().as_str());
                out.append(", ");
                out.append(arg.to_text().as_str());
                out.append(")");
                proof {
                    assert(out@ =~= spec_render(self@));
                }
                out
            },
            Expr::Derivative(inner, v, sub) => match sub {
                None => {
                    let mut out = String::from_str("D(");
                    out.append(v.as_str());
                    out.append(", ");
                    out.append(inner.to_text().as_str());
                    out.append(")");
                    proof {
                        assert(out@ =~= spec_render(self@));
                    }
                    out
                },
                Some(s) => {
                    let mut out = String::from_str("D(");
                    out.append(v.as_str());
                    out.append(", ");
                    out.append(inner.to_text().as_str());
                    out.append(")[");
                    out.append(v.as_str());
                    out.append(" = ");
                    out.append(s.to_text().as_str());
                    out.append("]");
                    proof {
                        assert(out@ =~= spec_render(self@));
                    }
                    out
                },
            },
            Expr::Sin(i) | Expr::Cos(i) | Expr::Tan(i) | Expr::Cot(i) | Expr::Abs(i) => {
                let mut out = unop_to_string_unchecked(self);
                out.append("(");
                out.append(i.to_text().as_str());
                out.append(")");
                proof {
                    assert(out@ =~= spec_render(self@));
                }
                out
            },
            Expr::Add(l, r) | Expr::Sub(l, r) | Expr::Mul(l, r) | Expr::Div(l, r)
                | Expr::Pow(l, r) => {
                let c = binop_to_string_unchecked(self);
                let mut out = String::from_str("(");
                out.append(l.to_text().as_str());
                out.append(" ");
                out.append(c);
                out.append(" ");
                out.append(r.to_text().as_str());
                out.append(")");
                proof {
                    assert(out@ =~= spec_render(self@));
                }
                out
            },
        }
    }
}

} // verus!
