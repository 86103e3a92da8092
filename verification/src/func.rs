//! An expression packaged as a reusable function.

use vstd::prelude::*;
use crate::eval::{outcome_matches, spec_eval_with, EvalOutcome};
use crate::expr::{bindings_model, Expr, ExprModel};

verus! {

/// A function defined by an expression tree over named arguments.
///
/// Applying it evaluates the definition under the given bindings.
pub struct FnStruct {
    definition: Expr,
}

impl View for FnStruct {
    type V = ExprModel;

    closed spec fn view(&self) -> ExprModel {
        self.definition@
    }
}

impl FnStruct {
    /// Evaluate the definition with the given argument bindings.  `math` is
    /// the answer list for transcendental calls.
    pub fn apply(&self, args: &[(&str, u32)], math: &[u32]) -> (r: EvalOutcome)
        ensures
            outcome_matches(spec_eval_with(self@, bindings_model(args@), math@, 0), r),
    {
        self.definition.eval_with(args, math)
    }
}

impl Default for FnStruct {
    /// The identity function of the argument `x`.
    fn default() -> (r: Self)
        ensures
            r@ == ExprModel::Var("x"@),
    {
        FnStruct { definition: Expr::Var("x".to_owned()) }
    }
}

} // verus!
