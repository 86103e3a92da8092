//! Parsing and evaluation of textual mathematical expressions.
//!
//! An input string is tokenized, parsed by recursive descent into an
//! expression tree — folding constant sub-expressions as it goes — and
//! evaluated against variable bindings, with substitution and a
//! central-difference derivative operator on top.
//!
//! Numeric values travel through the library as the bit patterns of 32-bit
//! IEEE 754 floats, held as `u32`, so that every step of the pipeline can
//! carry an exact contract.  Rounding arithmetic and decimal conversion are
//! done bit-exactly through `rustc_apfloat`; the transcendental operations
//! (powers, logarithms, trigonometry) are not computed here at all — the
//! library reports each needed call to its caller and resumes once the
//! answer is supplied, so the caller chooses the float implementation.

mod eval;
mod eval_error;
mod expr;
mod func;
mod laws;
mod lexer;
mod numeric;
mod parse_error;
mod parser;
mod render;
mod text;
mod token;

pub use eval::{
    is_binop, is_unop, outcome_matches, spec_bin_op, spec_consume, spec_un_op, spec_approx_derivative, spec_eval_const, spec_eval_with, spec_eval_with_var,
    spec_last_before, spec_lookup_at, spec_subst_skip, EvalOutcome, StepModel, StopModel,
};
pub use eval_error::{EvalError, EvalErrorModel};
pub use expr::{bindings_model, dcount, spec_subst, spec_subst_nums, Expr, ExprModel};
pub use func::FnStruct;
pub use laws::{
    args_const_invariant, args_fold_ok, args_fold_outcome, args_invariant, first_var, fold_outcome,
    folded, folds_ok, has_var, is_const_tree, lemma_const_iff_no_var,
    lemma_derivative_matches_direct, lemma_eval_const_free_variable, lemma_folded_const_is_num,
    lemma_parse_constant_fold, lemma_parse_folded, lemma_parsed_free_variable,
    lemma_subst_nums_then_eval_const, lemma_subst_then_eval_const, no_deriv, pfold, pfold_args,
    stop_to_pstop,
};
pub use lexer::{
    digits_end, ident_end, lex_cons, lex_model, parse_digits, parse_ident, spec_is_ident_char,
    spec_is_ident_start, spec_tokenize_at, tokenize, tokens_model,
};
pub use numeric::{
    add_bits, all_digits, bits_of_decimal, decimal_of_bits, div_bits, is_decimal_literal, mul_bits,
    spec_abs_f32, spec_is_digit, spec_is_nan_f32, spec_is_zero_f32, spec_le_zero_f32, sub_bits,
    MathCall, DX_BITS, E_BITS, NEG_ONE_BITS, ONE_BITS, TEN_BITS, TWO_BITS, ZERO_BITS,
};
pub use parse_error::{ParseError, ParseErrorModel};
pub use parser::{
    parse, parse_outcome_matches, sign_end, sign_negative, spec_atom_core, spec_fold, spec_parse,
    spec_parse_args, spec_parse_atom, spec_parse_power, spec_parse_product, spec_parse_sum,
    spec_parse_text, spec_to_binop, spec_to_func, spec_wrap_binop, spec_wrap_func, ArgsStep, PStep,
    PStop, ParseOutcome,
};
pub use render::{spec_binop_str, spec_render, spec_unop_name};
pub use token::{Token, TokenModel};
