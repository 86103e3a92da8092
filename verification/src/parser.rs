//! The parser: tokens to an expression tree, with constant folding.
//!
//! A recursive-descent, precedence-climbing parser.  Sums bind loosest,
//! then products, then powers; all three associate to the left — including
//! `^`, deliberately, although mathematical convention would make it
//! right-associative.  Every production reports alongside its tree whether
//! the tree is constant (free of variables); when constant folding is
//! enabled, each constant operation is evaluated the moment it is built and
//! replaced by its numeric result, so a failed constant evaluation fails
//! the parse itself.  Folding can need transcendental answers: like
//! evaluation, parsing then stops and reports the missing
//! [`MathCall`].

use vstd::prelude::*;
use crate::eval::{spec_eval_const, stop_model, EvalStop, StepModel, StopModel};
use crate::eval_error::EvalError;
use crate::expr::{Expr, ExprModel};
use crate::lexer::{lex_model, spec_tokenize_at, tokenize, tokens_model};
use crate::numeric::{MathCall, E_BITS, NEG_ONE_BITS, TEN_BITS};
use crate::parse_error::{ParseError, ParseErrorModel};
use crate::render::spec_render;
use crate::text::str_eq;
use crate::token::{Token, TokenModel};

verus! {

/// The outcome of parsing an input.
#[derive(Debug, PartialEq)]
pub enum ParseOutcome {
    /// The parsed tree.
    Done(Expr),
    /// Parsing failed with a typed error.
    Fail(ParseError),
    /// Constant folding ran out of transcendental answers: the caller
    /// computes this call, appends the answer to the list and retries.
    Pending(MathCall),
}

/// Why a parse step stopped short of a tree.
pub ghost enum PStop {
    /// A typed parse error.
    Fail(ParseErrorModel),
    /// The answer list ran out at this transcendental call.
    Call(MathCall),
}

/// One parse step: the tree built so far, whether it is constant, the next
/// token position and the next answer position.
pub ghost struct PStep {
    pub expr: ExprModel,
    pub is_const: bool,
    pub next: int,
    pub mpos: int,
}

/// A parsed argument list: the arguments, whether all of them are
/// constant, the next token position and the next answer position.
pub ghost struct ArgsStep {
    pub args: Seq<ExprModel>,
    pub is_const: bool,
    pub next: int,
    pub mpos: int,
}

/// Internal stop: parse error or missing answer.
enum ParseStop {
    Fail(ParseError),
    Call(MathCall),
}

/// The model of an internal parse stop.
spec fn pstop_model(s: ParseStop) -> PStop {
    match s {
        ParseStop::Fail(e) => PStop::Fail(e@),
        ParseStop::Call(c) => PStop::Call(c),
    }
}

/// One exec parse step.
struct Parsed {
    expr: Expr,
    is_const: bool,
    next: usize,
    mpos: usize,
}

/// The models of a vector of trees.
pub open spec fn exprs_model(es: Seq<Expr>) -> Seq<ExprModel> {
    es.map_values(|e: Expr| e@)
}

/// The first position at or after `i` that holds no leading sign token.
pub open spec fn sign_end(ts: Seq<TokenModel>, i: int) -> int
    decreases ts.len() - i,
{
    if i < 0 || i >= ts.len() {
        i
    } else if ts[i] is Plus || ts[i] is Minus {
        sign_end(ts, i + 1)
    } else {
        i
    }
}

/// Whether the run of leading sign tokens starting at `i` negates its atom:
/// each minus sign flips the sign, a plus sign leaves it unchanged.
pub open spec fn sign_negative(ts: Seq<TokenModel>, i: int) -> bool
    decreases ts.len() - i,
{
    if i < 0 || i >= ts.len() {
        false
    } else if ts[i] is Minus {
        !sign_negative(ts, i + 1)
    } else if ts[i] is Plus {
        sign_negative(ts, i + 1)
    } else {
        false
    }
}

/// The run of leading signs neither moves backwards nor overshoots the
/// token sequence.
pub proof fn lemma_sign_end(ts: Seq<TokenModel>, i: int)
    requires
        0 <= i <= ts.len(),
    ensures
        i <= sign_end(ts, i) <= ts.len(),
    decreases ts.len() - i,
{
    if i < ts.len() && (ts[i] is Plus || ts[i] is Minus) {
        lemma_sign_end(ts, i + 1);
    }
}

/// The tree for a binary operator token over two parsed operands.
pub open spec fn spec_wrap_binop(op: TokenModel, lhs: ExprModel, rhs: ExprModel) -> Result<
    ExprModel,
    ParseErrorModel,
> {
    match op {
        TokenModel::Plus => Ok(ExprModel::Add(Box::new(lhs), Box::new(rhs))),
        TokenModel::Minus => Ok(ExprModel::Sub(Box::new(lhs), Box::new(rhs))),
        TokenModel::Star => Ok(ExprModel::Mul(Box::new(lhs), Box::new(rhs))),
        TokenModel::Slash => Ok(ExprModel::Div(Box::new(lhs), Box::new(rhs))),
        TokenModel::Caret => Ok(ExprModel::Pow(Box::new(lhs), Box::new(rhs))),
        _ => Err(ParseErrorModel::UnexpectedToken(op)),
    }
}

/// Constant folding of a freshly built node: when `do_fold` holds, the node
/// is evaluated as a constant at once — a numeric result replaces the node,
/// an evaluation error fails the parse wrapped in
/// [`ParseErrorModel::EvalError`], and a missing transcendental answer
/// stops the parse with that call.
pub open spec fn spec_fold(e: ExprModel, do_fold: bool, math: Seq<u32>, mpos: int) -> Result<
    (ExprModel, int),
    PStop,
> {
    if do_fold {
        match spec_eval_const(e, math, mpos) {
            Ok(st) => Ok((ExprModel::Num(st.value), st.next)),
            Err(StopModel::Fail(ev)) => Err(PStop::Fail(ParseErrorModel::EvalError(ev))),
            Err(StopModel::Call(c)) => Err(PStop::Call(c)),
        }
    } else {
        Ok((e, mpos))
    }
}

/// A binary operator node over parsed operands, folded when requested.
pub open spec fn spec_to_binop(
    op: TokenModel,
    lhs: ExprModel,
    rhs: ExprModel,
    do_fold: bool,
    math: Seq<u32>,
    mpos: int,
) -> Result<(ExprModel, int), PStop> {
    match spec_wrap_binop(op, lhs, rhs) {
        Ok(node) => spec_fold(node, do_fold, math, mpos),
        Err(pe) => Err(PStop::Fail(pe)),
    }
}

/// The tree for a function call.  The name is matched case-sensitively:
/// `sin`, `cos`, `tan`, `cot` and `abs` take one argument; `ln(x)` is
/// `log` base Euler's number; `log` takes either an argument (base ten) or
/// a base and an argument; `D` takes a bare variable and an expression and
/// builds a derivative.  A recognized name with any other argument count is
/// a `WrongNumberOfArgs` error with the count supplied; an unrecognized
/// name is a `FunctionNotRecognized` error.
pub open spec fn spec_wrap_func(name: Seq<char>, args: Seq<ExprModel>) -> Result<
    ExprModel,
    ParseErrorModel,
> {
    if name == "sin"@ {
        if args.len() == 1 {
            Ok(ExprModel::Sin(Box::new(args[0])))
        } else {
            Err(ParseErrorModel::WrongNumberOfArgs(args.len() as int))
        }
    } else if name == "cos"@ {
        if args.len() == 1 {
            Ok(ExprModel::Cos(Box::new(args[0])))
        } else {
            Err(ParseErrorModel::WrongNumberOfArgs(args.len() as int))
        }
    } else if name == "tan"@ {
        if args.len() == 1 {
            Ok(ExprModel::Tan(Box::new(args[0])))
        } else {
            Err(ParseErrorModel::WrongNumberOfArgs(args.len() as int))
        }
    } else if name == "cot"@ {
        if args.len() == 1 {
            Ok(ExprModel::Cot(Box::new(args[0])))
        } else {
            Err(ParseErrorModel::WrongNumberOfArgs(args.len() as int))
        }
    } else if name == "abs"@ {
        if args.len() == 1 {
            Ok(ExprModel::Abs(Box::new(args[0])))
        } else {
            Err(ParseErrorModel::WrongNumberOfArgs(args.len() as int))
        }
    } else if name == "ln"@ {
        if args.len() == 1 {
            Ok(ExprModel::Log(Box::new(ExprModel::Num(E_BITS)), Box::new(args[0])))
        } else {
            Err(ParseErrorModel::WrongNumberOfArgs(args.len() as int))
        }
    } else if name == "log"@ {
        if args.len() == 1 {
            Ok(ExprModel::Log(Box::new(ExprModel::Num(TEN_BITS)), Box::new(args[0])))
        } else if args.len() == 2 {
            Ok(ExprModel::Log(Box::new(args[0]), Box::new(args[1])))
        } else {
            Err(ParseErrorModel::WrongNumberOfArgs(args.len() as int))
        }
    } else if name == "D"@ {
        if args.len() == 2 {
            match args[0] {
                ExprModel::Var(v) => Ok(ExprModel::Derivative(Box::new(args[1]), v, None)),
                _ => Err(ParseErrorModel::DerivativeNotVariable(spec_render(args[0]))),
            }
        } else {
            Err(ParseErrorModel::WrongNumberOfArgs(args.len() as int))
        }
    } else {
        Err(ParseErrorModel::FunctionNotRecognized(name))
    }
}

/// A function-call node over parsed arguments, folded when requested.
pub open spec fn spec_to_func(
    name: Seq<char>,
    args: Seq<ExprModel>,
    do_fold: bool,
    math: Seq<u32>,
    mpos: int,
) -> Result<(ExprModel, int), PStop> {
    match spec_wrap_func(name, args) {
        Ok(node) => spec_fold(node, do_fold, math, mpos),
        Err(pe) => Err(PStop::Fail(pe)),
    }
}

/// A sum: a product followed by any number of `+` or `-` products, folded
/// left.
pub open spec fn spec_parse_sum(
    ts: Seq<TokenModel>,
    i: int,
    imp: bool,
    math: Seq<u32>,
    mpos: int,
) -> Result<PStep, PStop>
    decreases ts.len() - i, 4int,
{
    match spec_parse_product(ts, i, imp, math, mpos) {
        Ok(st) => if i < st.next <= ts.len() {
            spec_sum_rest(ts, st.expr, st.is_const, st.next, imp, math, st.mpos)
        } else {
            Err(PStop::Fail(ParseErrorModel::UnexpectedToken(TokenModel::EOF)))
        },
        Err(st) => Err(st),
    }
}

/// The remaining `+` or `-` products of a sum, folded onto `lhs`.
pub open spec fn spec_sum_rest(
    ts: Seq<TokenModel>,
    lhs: ExprModel,
    lhs_const: bool,
    i: int,
    imp: bool,
    math: Seq<u32>,
    mpos: int,
) -> Result<PStep, PStop>
    decreases ts.len() - i, 4int,
{
    if 0 <= i < ts.len() && (ts[i] is Plus || ts[i] is Minus) {
        match spec_parse_product(ts, i + 1, imp, math, mpos) {
            Ok(st) => {
                let both = lhs_const && st.is_const;
                match spec_to_binop(ts[i], lhs, st.expr, both && imp, math, st.mpos) {
                    Ok((e2, mp2)) => if i < st.next <= ts.len() {
                        spec_sum_rest(ts, e2, both, st.next, imp, math, mp2)
                    } else {
                        Err(PStop::Fail(ParseErrorModel::UnexpectedToken(TokenModel::EOF)))
                    },
                    Err(st2) => Err(st2),
                }
            },
            Err(st) => Err(st),
        }
    } else {
        Ok(PStep { expr: lhs, is_const: lhs_const, next: i, mpos })
    }
}

/// A product: a power followed by any number of `*` or `/` powers, folded
/// left.
pub open spec fn spec_parse_product(
    ts: Seq<TokenModel>,
    i: int,
    imp: bool,
    math: Seq<u32>,
    mpos: int,
) -> Result<PStep, PStop>
    decreases ts.len() - i, 3int,
{
    match spec_parse_power(ts, i, imp, math, mpos) {
        Ok(st) => if i < st.next <= ts.len() {
            spec_product_rest(ts, st.expr, st.is_const, st.next, imp, math, st.mpos)
        } else {
            Err(PStop::Fail(ParseErrorModel::UnexpectedToken(TokenModel::EOF)))
        },
        Err(st) => Err(st),
    }
}

/// The remaining `*` or `/` powers of a product, folded onto `lhs`.
pub open spec fn spec_product_rest(
    ts: Seq<TokenModel>,
    lhs: ExprModel,
    lhs_const: bool,
    i: int,
    imp: bool,
    math: Seq<u32>,
    mpos: int,
) -> Result<PStep, PStop>
    decreases ts.len() - i, 3int,
{
    if 0 <= i < ts.len() && (ts[i] is Star || ts[i] is Slash) {
        match spec_parse_power(ts, i + 1, imp, math, mpos) {
            Ok(st) => {
                let both = lhs_const && st.is_const;
                match spec_to_binop(ts[i], lhs, st.expr, both && imp, math, st.mpos) {
                    Ok((e2, mp2)) => if i < st.next <= ts.len() {
                        spec_product_rest(ts, e2, both, st.next, imp, math, mp2)
                    } else {
                        Err(PStop::Fail(ParseErrorModel::UnexpectedToken(TokenModel::EOF)))
                    },
                    Err(st2) => Err(st2),
                }
            },
            Err(st) => Err(st),
        }
    } else {
        Ok(PStep { expr: lhs, is_const: lhs_const, next: i, mpos })
    }
}

/// A power: an atom followed by any number of `^` atoms, folded left.
pub open spec fn spec_parse_power(
    ts: Seq<TokenModel>,
    i: int,
    imp: bool,
    math: Seq<u32>,
    mpos: int,
) -> Result<PStep, PStop>
    decreases ts.len() - i, 2int,
{
    match spec_parse_atom(ts, i, imp, math, mpos) {
        Ok(st) => if i < st.next <= ts.len() {
            spec_power_rest(ts, st.expr, st.is_const, st.next, imp, math, st.mpos)
        } else {
            Err(PStop::Fail(ParseErrorModel::UnexpectedToken(TokenModel::EOF)))
        },
        Err(st) => Err(st),
    }
}

/// The remaining `^` atoms of a power, folded onto `lhs`.
pub open spec fn spec_power_rest(
    ts: Seq<TokenModel>,
    lhs: ExprModel,
    lhs_const: bool,
    i: int,
    imp: bool,
    math: Seq<u32>,
    mpos: int,
) -> Result<PStep, PStop>
    decreases ts.len() - i, 2int,
{
    if 0 <= i < ts.len() && ts[i] is Caret {
        match spec_parse_atom(ts, i + 1, imp, math, mpos) {
            Ok(st) => {
                let both = lhs_const && st.is_const;
                match spec_to_binop(ts[i], lhs, st.expr, both && imp, math, st.mpos) {
                    Ok((e2, mp2)) => if i < st.next <= ts.len() {
                        spec_power_rest(ts, e2, both, st.next, imp, math, mp2)
                    } else {
                        Err(PStop::Fail(ParseErrorModel::UnexpectedToken(TokenModel::EOF)))
                    },
                    Err(st2) => Err(st2),
                }
            },
            Err(st) => Err(st),
        }
    } else {
        Ok(PStep { expr: lhs, is_const: lhs_const, next: i, mpos })
    }
}

/// An atom: any number of leading signs, then a number, an identifier, a
/// function call or a parenthesized expression.  An odd number of leading
/// minus signs wraps the atom in a multiplication by minus one, which is
/// folded like any other constant operation.  Reaching the end of the
/// tokens where an atom is expected is an `UnexpectedToken` error carrying
/// the end-of-input token.
pub open spec fn spec_parse_atom(
    ts: Seq<TokenModel>,
    i: int,
    imp: bool,
    math: Seq<u32>,
    mpos: int,
) -> Result<PStep, PStop>
    decreases ts.len() - i, 1int,
{
    proof {
        if 0 <= i <= ts.len() {
            lemma_sign_end(ts, i);
        }
    }
    let sc = sign_end(ts, i);
    let neg = sign_negative(ts, i);
    if sc >= ts.len() {
        Err(PStop::Fail(ParseErrorModel::UnexpectedToken(TokenModel::EOF)))
    } else {
        match spec_atom_core(ts, sc, imp, math, mpos) {
            Ok(st) => if neg {
                let node = ExprModel::Mul(Box::new(ExprModel::Num(NEG_ONE_BITS)), Box::new(st.expr));
                match spec_fold(node, st.is_const && imp, math, st.mpos) {
                    Ok((e2, mp2)) => Ok(
                        PStep { expr: e2, is_const: st.is_const, next: st.next, mpos: mp2 },
                    ),
                    Err(st2) => Err(st2),
                }
            } else {
                Ok(st)
            },
            Err(st) => Err(st),
        }
    }
}

/// The core of an atom, after its leading signs: a parenthesized
/// expression, a function call, a bare variable, a number, or an
/// `UnexpectedToken` error.
pub open spec fn spec_atom_core(
    ts: Seq<TokenModel>,
    sc: int,
    imp: bool,
    math: Seq<u32>,
    mpos: int,
) -> Result<PStep, PStop>
    decreases ts.len() - sc, 0int,
{
    if sc < 0 || sc >= ts.len() {
        Err(PStop::Fail(ParseErrorModel::UnexpectedToken(TokenModel::EOF)))
    } else {
        match ts[sc] {
        TokenModel::LParen => match spec_parse_sum(ts, sc + 1, imp, math, mpos) {
            Ok(st) => if st.next < ts.len() && ts[st.next] is RParen {
                Ok(PStep { expr: st.expr, is_const: st.is_const, next: st.next + 1, mpos: st.mpos })
            } else if st.next >= ts.len() {
                Err(PStop::Fail(ParseErrorModel::UnexpectedToken(TokenModel::EOF)))
            } else {
                Err(PStop::Fail(ParseErrorModel::UnexpectedToken(ts[st.next])))
            },
            Err(st) => Err(st),
        },
        TokenModel::Ident(name) => if sc + 1 < ts.len() && ts[sc + 1] is LParen {
            match spec_parse_args(ts, sc + 2, imp, math, mpos) {
                Ok(ast) => if ast.next < ts.len() && ts[ast.next] is RParen {
                    match spec_to_func(name, ast.args, ast.is_const && imp, math, ast.mpos) {
                        Ok((f, mp2)) => Ok(
                            PStep {
                                expr: f,
                                is_const: ast.is_const,
                                next: ast.next + 1,
                                mpos: mp2,
                            },
                        ),
                        Err(st2) => Err(st2),
                    }
                } else if ast.next >= ts.len() {
                    Err(PStop::Fail(ParseErrorModel::UnexpectedToken(TokenModel::EOF)))
                } else {
                    Err(PStop::Fail(ParseErrorModel::UnexpectedToken(ts[ast.next])))
                },
                Err(st) => Err(st),
            }
        } else {
            Ok(PStep { expr: ExprModel::Var(name), is_const: false, next: sc + 1, mpos })
        },
        TokenModel::Number(b) => Ok(
            PStep { expr: ExprModel::Num(b), is_const: true, next: sc + 1, mpos },
        ),
        _ => Err(PStop::Fail(ParseErrorModel::UnexpectedToken(ts[sc]))),
        }
    }
}

/// A comma-separated argument list: one expression, then any number of
/// comma-prefixed expressions.
pub open spec fn spec_parse_args(
    ts: Seq<TokenModel>,
    i: int,
    imp: bool,
    math: Seq<u32>,
    mpos: int,
) -> Result<ArgsStep, PStop>
    decreases ts.len() - i, 5int,
{
    match spec_parse_sum(ts, i, imp, math, mpos) {
        Ok(st) => if i < st.next <= ts.len() {
            spec_args_rest(ts, seq![st.expr], st.is_const, st.next, imp, math, st.mpos)
        } else {
            Err(PStop::Fail(ParseErrorModel::UnexpectedToken(TokenModel::EOF)))
        },
        Err(st) => Err(st),
    }
}

/// The remaining comma-prefixed expressions of an argument list.
pub open spec fn spec_args_rest(
    ts: Seq<TokenModel>,
    acc: Seq<ExprModel>,
    all_const: bool,
    i: int,
    imp: bool,
    math: Seq<u32>,
    mpos: int,
) -> Result<ArgsStep, PStop>
    decreases ts.len() - i, 5int,
{
    if 0 <= i < ts.len() && ts[i] is Comma {
        match spec_parse_sum(ts, i + 1, imp, math, mpos) {
            Ok(st) => if i < st.next <= ts.len() {
                spec_args_rest(
                    ts,
                    acc.push(st.expr),
                    all_const && st.is_const,
                    st.next,
                    imp,
                    math,
                    st.mpos,
                )
            } else {
                Err(PStop::Fail(ParseErrorModel::UnexpectedToken(TokenModel::EOF)))
            },
            Err(st) => Err(st),
        }
    } else {
        Ok(ArgsStep { args: acc, is_const: all_const, next: i, mpos })
    }
}

/// A whole token sequence as one expression: any token left over after the
/// expression is an `UnexpectedToken` error.
pub open spec fn spec_parse(ts: Seq<TokenModel>, imp: bool, math: Seq<u32>) -> Result<
    ExprModel,
    PStop,
> {
    match spec_parse_sum(ts, 0, imp, math, 0) {
        Ok(st) => if st.next == ts.len() {
            Ok(st.expr)
        } else {
            Err(PStop::Fail(ParseErrorModel::UnexpectedToken(ts[st.next])))
        },
        Err(st) => Err(st),
    }
}

/// A whole input string: tokenized, then parsed.
pub open spec fn spec_parse_text(s: Seq<char>, imp: bool, math: Seq<u32>) -> Result<
    ExprModel,
    PStop,
> {
    match spec_tokenize_at(s, 0) {
        Ok(ts) => spec_parse(ts, imp, math),
        Err(e) => Err(PStop::Fail(e)),
    }
}

/// Whether a public parse outcome matches the model's result.
pub open spec fn parse_outcome_matches(s: Result<ExprModel, PStop>, r: ParseOutcome) -> bool {
    match r {
        ParseOutcome::Done(e) => s == Ok::<ExprModel, PStop>(e@),
        ParseOutcome::Fail(pe) => s == Err::<ExprModel, PStop>(PStop::Fail(pe@)),
        ParseOutcome::Pending(c) => s == Err::<ExprModel, PStop>(PStop::Call(c)),
    }
}

/// Whether an exec parse step returned exactly what the model says, moving
/// forward in the tokens and staying within the answer list.
spec fn parse_step_matches(
    s: Result<PStep, PStop>,
    r: Result<Parsed, ParseStop>,
    i: int,
    mpos: int,
    tslen: int,
    mlen: int,
) -> bool {
    match r {
        Ok(p) => s == Ok::<PStep, PStop>(
            PStep { expr: p.expr@, is_const: p.is_const, next: p.next as int, mpos: p.mpos as int },
        ) && i < p.next <= tslen && mpos <= p.mpos <= mlen,
        Err(st) => s == Err::<PStep, PStop>(pstop_model(st)),
    }
}

/// Whether an exec fold step returned exactly what the model says.
spec fn fold_step_matches(
    s: Result<(ExprModel, int), PStop>,
    r: Result<(Expr, usize), ParseStop>,
    mpos: int,
    mlen: int,
) -> bool {
    match r {
        Ok((e, mp)) => s == Ok::<(ExprModel, int), PStop>((e@, mp as int)) && mpos <= mp <= mlen,
        Err(st) => s == Err::<(ExprModel, int), PStop>(pstop_model(st)),
    }
}

/// Constant folding of a freshly built node.
fn fold(node: Expr, do_fold: bool, math: &[u32], mpos: usize) -> (r: Result<
    (Expr, usize),
    ParseStop,
>)
    requires
        mpos <= math@.len(),
    ensures
        fold_step_matches(
            spec_fold(node@, do_fold, math@, mpos as int),
            r,
            mpos as int,
            math@.len() as int,
        ),
{
    if do_fold {
        match node.eval_const_at(math, mpos) {
            Ok((v, mp)) => Ok((Expr::Num(v), mp)),
            Err(EvalStop::Fail(ev)) => Err(ParseStop::Fail(ParseError::EvalError(ev))),
            Err(EvalStop::Call(c)) => Err(ParseStop::Call(c)),
        }
    } else {
        Ok((node, mpos))
    }
}

/// The tree for a binary operator token over two parsed operands.
fn wrap_with_binop(op: &Token, lhs: Expr, rhs: Expr) -> (r: Result<Expr, ParseError>)
    ensures
        match r {
            Ok(e) => spec_wrap_binop(op@, lhs@, rhs@) == Ok::<ExprModel, ParseErrorModel>(e@),
            Err(pe) => spec_wrap_binop(op@, lhs@, rhs@) == Err::<ExprModel, ParseErrorModel>(pe@),
        },
{
    match op {
        Token::Plus => Ok(Expr::new_add(lhs, rhs)),
        Token::Minus => Ok(Expr::new_sub(lhs, rhs)),
        Token::Star => Ok(Expr::new_mul(lhs, rhs)),
        Token::Slash => Ok(Expr::new_div(lhs, rhs)),
        Token::Caret => Ok(Expr::new_pow(lhs, rhs)),
        _ => Err(ParseError::UnexpectedToken(op.clone())),
    }
}

/// A binary operator node over parsed operands, folded when requested.
fn to_binop(op: &Token, lhs: Expr, rhs: Expr, do_fold: bool, math: &[u32], mpos: usize) -> (r:
    Result<(Expr, usize), ParseStop>)
    requires
        mpos <= math@.len(),
    ensures
        fold_step_matches(
            spec_to_binop(op@, lhs@, rhs@, do_fold, math@, mpos as int),
            r,
            mpos as int,
            math@.len() as int,
        ),
{
    match wrap_with_binop(op, lhs, rhs) {
        Ok(node) => fold(node, do_fold, math, mpos),
        Err(pe) => Err(ParseStop::Fail(pe)),
    }
}

/// The tree for a function call over parsed arguments.
fn wrap_with_func(name: &str, args: Vec<Expr>) -> (r: Result<Expr, ParseError>)
    ensures
        match r {
            Ok(e) => spec_wrap_func(name@, exprs_model(args@)) == Ok::<
                ExprModel,
                ParseErrorModel,
            >(e@),
            Err(pe) => spec_wrap_func(name@, exprs_model(args@)) == Err::<
                ExprModel,
                ParseErrorModel,
            >(pe@),
        },
{
    let len = args.len();
    let unary = str_eq(name, "sin") || str_eq(name, "cos") || str_eq(name, "tan") || str_eq(
        name,
        "cot",
    ) || str_eq(name, "abs") || str_eq(name, "ln");
    if unary {
        if len != 1 {
            return Err(ParseError::WrongNumberOfArgs(len));
        }
        let mut args = args;
        let a0 = args.remove(0);
        if str_eq(name, "sin") {
            Ok(Expr::new_sin(a0))
        } else if str_eq(name, "cos") {
            Ok(Expr::new_cos(a0))
        } else if str_eq(name, "tan") {
            Ok(Expr::new_tan(a0))
        } else if str_eq(name, "cot") {
            Ok(Expr::new_cot(a0))
        } else if str_eq(name, "abs") {
            Ok(Expr::new_abs(a0))
        } else {
            Ok(Expr::new_log(Expr::Num(E_BITS), a0))
        }
    } else if str_eq(name, "log") {
        if len == 1 {
            let mut args = args;
            let a0 = args.remove(0);
            Ok(Expr::new_log(Expr::Num(TEN_BITS), a0))
        } else if len == 2 {
            let mut args = args;
            let a1 = args.remove(1);
            let a0 = args.remove(0);
            Ok(Expr::new_log(a0, a1))
        } else {
            Err(ParseError::WrongNumberOfArgs(len))
        }
    } else if str_eq(name, "D") {
        if len == 2 {
            let mut args = args;
            let a1 = args.remove(1);
            let a0 = args.remove(0);
            match a0 {
                Expr::Var(v) => Ok(Expr::Derivative(Box::new(a1), v, None)),
                _ => Err(ParseError::DerivativeNotVariable(a0.to_text())),
            }
        } else {
            Err(ParseError::WrongNumberOfArgs(len))
        }
    } else {
        Err(ParseError::FunctionNotRecognized(name.to_owned()))
    }
}

/// A function-call node over parsed arguments, folded when requested.
fn to_func(name: &str, args: Vec<Expr>, do_fold: bool, math: &[u32], mpos: usize) -> (r: Result<
    (Expr, usize),
    ParseStop,
>)
    requires
        mpos <= math@.len(),
    ensures
        fold_step_matches(
            spec_to_func(name@, exprs_model(args@), do_fold, math@, mpos as int),
            r,
            mpos as int,
            math@.len() as int,
        ),
{
    match wrap_with_func(name, args) {
        Ok(node) => fold(node, do_fold, math, mpos),
        Err(pe) => Err(ParseStop::Fail(pe)),
    }
}

/// The end of the run of leading sign tokens and whether it negates the
/// atom.
fn parse_sign(ts: &Vec<Token>, i: usize) -> (r: (usize, bool))
    requires
        i <= ts@.len(),
    ensures
        r.0 == sign_end(tokens_model(ts@), i as int),
        r.1 == sign_negative(tokens_model(ts@), i as int),
        i <= r.0 <= ts@.len(),
    decreases ts@.len() - i,
{
    if i < ts.len() {
        match &ts[i] {
            Token::Plus => {
                let rest = parse_sign(ts, i + 1);
                return rest;
            },
            Token::Minus => {
                let (j, neg) = parse_sign(ts, i + 1);
                return (j, !neg);
            },
            _ => {},
        }
    }
    (i, false)
}

/// A sum of products.
fn parse_sum(ts: &Vec<Token>, i: usize, imp: bool, math: &[u32], mpos: usize) -> (r: Result<
    Parsed,
    ParseStop,
>)
    requires
        i <= ts@.len(),
        mpos <= math@.len(),
    ensures
        parse_step_matches(
            spec_parse_sum(tokens_model(ts@), i as int, imp, math@, mpos as int),
            r,
            i as int,
            mpos as int,
            ts@.len() as int,
            math@.len() as int,
        ),
    decreases ts@.len() - i, 3int,
{
    match parse_product(ts, i, imp, math, mpos) {
        Ok(p) => parse_sum_rest(ts, p.expr, p.is_const, p.next, imp, math, p.mpos),
        Err(st) => Err(st),
    }
}

/// The remaining `+` or `-` products of a sum.
fn parse_sum_rest(
    ts: &Vec<Token>,
    lhs: Expr,
    lhs_const: bool,
    i: usize,
    imp: bool,
    math: &[u32],
    mpos: usize,
) -> (r: Result<Parsed, ParseStop>)
    requires
        i <= ts@.len(),
        mpos <= math@.len(),
    ensures
        ({
            let s = spec_sum_rest(
                tokens_model(ts@),
                lhs@,
                lhs_const,
                i as int,
                imp,
                math@,
                mpos as int,
            );
            match r {
                Ok(p) => s == Ok::<PStep, PStop>(
                    PStep {
                        expr: p.expr@,
                        is_const: p.is_const,
                        next: p.next as int,
                        mpos: p.mpos as int,
                    },
                ) && i <= p.next <= ts@.len() && mpos <= p.mpos <= math@.len(),
                Err(st) => s == Err::<PStep, PStop>(pstop_model(st)),
            }
        }),
    decreases ts@.len() - i, 3int,
{
    if i < ts.len() {
        let is_op = match &ts[i] {
            Token::Plus => true,
            Token::Minus => true,
            _ => false,
        };
        if is_op {
            match parse_product(ts, i + 1, imp, math, mpos) {
                Ok(p) => {
                    let both = lhs_const && p.is_const;
                    match to_binop(&ts[i], lhs, p.expr, both && imp, math, p.mpos) {
                        Ok((e2, mp2)) => {
                            return parse_sum_rest(ts, e2, both, p.next, imp, math, mp2);
                        },
                        Err(st2) => {
                            return Err(st2);
                        },
                    }
                },
                Err(st) => {
                    return Err(st);
                },
            }
        }
    }
    Ok(Parsed { expr: lhs, is_const: lhs_const, next: i, mpos })
}

/// A product of powers.
fn parse_product(ts: &Vec<Token>, i: usize, imp: bool, math: &[u32], mpos: usize) -> (r: Result<
    Parsed,
    ParseStop,
>)
    requires
        i <= ts@.len(),
        mpos <= math@.len(),
    ensures
        parse_step_matches(
            spec_parse_product(tokens_model(ts@), i as int, imp, math@, mpos as int),
            r,
            i as int,
            mpos as int,
            ts@.len() as int,
            math@.len() as int,
        ),
    decreases ts@.len() - i, 2int,
{
    match parse_power(ts, i, imp, math, mpos) {
        Ok(p) => parse_product_rest(ts, p.expr, p.is_const, p.next, imp, math, p.mpos),
        Err(st) => Err(st),
    }
}

/// The remaining `*` or `/` powers of a product.
fn parse_product_rest(
    ts: &Vec<Token>,
    lhs: Expr,
    lhs_const: bool,
    i: usize,
    imp: bool,
    math: &[u32],
    mpos: usize,
) -> (r: Result<Parsed, ParseStop>)
    requires
        i <= ts@.len(),
        mpos <= math@.len(),
    ensures
        ({
            let s = spec_product_rest(
                tokens_model(ts@),
                lhs@,
                lhs_const,
                i as int,
                imp,
                math@,
                mpos as int,
            );
            match r {
                Ok(p) => s == Ok::<PStep, PStop>(
                    PStep {
                        expr: p.expr@,
                        is_const: p.is_const,
                        next: p.next as int,
                        mpos: p.mpos as int,
                    },
                ) && i <= p.next <= ts@.len() && mpos <= p.mpos <= math@.len(),
                Err(st) => s == Err::<PStep, PStop>(pstop_model(st)),
            }
        }),
    decreases ts@.len() - i, 2int,
{
    if i < ts.len() {
        let is_op = match &ts[i] {
            Token::Star => true,
            Token::Slash => true,
            _ => false,
        };
        if is_op {
            match parse_power(ts, i + 1, imp, math, mpos) {
                Ok(p) => {
                    let both = lhs_const && p.is_const;
                    match to_binop(&ts[i], lhs, p.expr, both && imp, math, p.mpos) {
                        Ok((e2, mp2)) => {
                            return parse_product_rest(ts, e2, both, p.next, imp, math, mp2);
                        },
                        Err(st2) => {
                            return Err(st2);
                        },
                    }
                },
                Err(st) => {
                    return Err(st);
                },
            }
        }
    }
    Ok(Parsed { expr: lhs, is_const: lhs_const, next: i, mpos })
}

/// A power of atoms.
fn parse_power(ts: &Vec<Token>, i: usize, imp: bool, math: &[u32], mpos: usize) -> (r: Result<
    Parsed,
    ParseStop,
>)
    requires
        i <= ts@.len(),
        mpos <= math@.len(),
    ensures
        parse_step_matches(
            spec_parse_power(tokens_model(ts@), i as int, imp, math@, mpos as int),
            r,
            i as int,
            mpos as int,
            ts@.len() as int,
            math@.len() as int,
        ),
    decreases ts@.len() - i, 1int,
{
    match parse_atom(ts, i, imp, math, mpos) {
        Ok(p) => parse_power_rest(ts, p.expr, p.is_const, p.next, imp, math, p.mpos),
        Err(st) => Err(st),
    }
}

/// The remaining `^` atoms of a power.
fn parse_power_rest(
    ts: &Vec<Token>,
    lhs: Expr,
    lhs_const: bool,
    i: usize,
    imp: bool,
    math: &[u32],
    mpos: usize,
) -> (r: Result<Parsed, ParseStop>)
    requires
        i <= ts@.len(),
        mpos <= math@.len(),
    ensures
        ({
            let s = spec_power_rest(
                tokens_model(ts@),
                lhs@,
                lhs_const,
                i as int,
                imp,
                math@,
                mpos as int,
            );
            match r {
                Ok(p) => s == Ok::<PStep, PStop>(
                    PStep {
                        expr: p.expr@,
                        is_const: p.is_const,
                        next: p.next as int,
                        mpos: p.mpos as int,
                    },
                ) && i <= p.next <= ts@.len() && mpos <= p.mpos <= math@.len(),
                Err(st) => s == Err::<PStep, PStop>(pstop_model(st)),
            }
        }),
    decreases ts@.len() - i, 1int,
{
    if i < ts.len() {
        let is_op = match &ts[i] {
            Token::Caret => true,
            _ => false,
        };
        if is_op {
            match parse_atom(ts, i + 1, imp, math, mpos) {
                Ok(p) => {
                    let both = lhs_const && p.is_const;
                    match to_binop(&ts[i], lhs, p.expr, both && imp, math, p.mpos) {
                        Ok((e2, mp2)) => {
                            return parse_power_rest(ts, e2, both, p.next, imp, math, mp2);
                        },
                        Err(st2) => {
                            return Err(st2);
                        },
                    }
                },
                Err(st) => {
                    return Err(st);
                },
            }
        }
    }
    Ok(Parsed { expr: lhs, is_const: lhs_const, next: i, mpos })
}

/// An atom, with its leading signs.
#[verifier::rlimit(100)]
fn parse_atom(ts: &Vec<Token>, i: usize, imp: bool, math: &[u32], mpos: usize) -> (r: Result<
    Parsed,
    ParseStop,
>)
    requires
        i <= ts@.len(),
        mpos <= math@.len(),
    ensures
        parse_step_matches(
            spec_parse_atom(tokens_model(ts@), i as int, imp, math@, mpos as int),
            r,
            i as int,
            mpos as int,
            ts@.len() as int,
            math@.len() as int,
        ),
    decreases ts@.len() - i, 0int,
{
    let (sc, neg) = parse_sign(ts, i);
    if sc >= ts.len() {
        return Err(ParseStop::Fail(ParseError::UnexpectedToken(Token::EOF)));
    }
    let core: Result<Parsed, ParseStop> = match &ts[sc] {
        Token::LParen => match parse_sum(ts, sc + 1, imp, math, mpos) {
            Ok(p) => if p.next < ts.len() && matches!(&ts[p.next], Token::RParen) {
                Ok(
                    Parsed {
                        expr: p.expr,
                        is_const: p.is_const,
                        next: p.next + 1,
                        mpos: p.mpos,
                    },
                )
            } else if p.next >= ts.len() {
                Err(ParseStop::Fail(ParseError::UnexpectedToken(Token::EOF)))
            } else {
                Err(ParseStop::Fail(ParseError::UnexpectedToken(ts[p.next].clone())))
            },
            Err(st) => Err(st),
        },
        Token::Ident(name) => {
            if sc + 1 < ts.len() && matches!(&ts[sc + 1], Token::LParen) {
                match parse_args(ts, sc + 2, imp, math, mpos) {
                    Ok((args, all_const, next, mp)) => if next < ts.len() && matches!(
                        &ts[next],
                        Token::RParen,
                    ) {
                        match to_func(name.as_str(), args, all_const && imp, math, mp) {
                            Ok((f, mp2)) => Ok(
                                Parsed { expr: f, is_const: all_const, next: next + 1, mpos: mp2 },
                            ),
                            Err(st2) => Err(st2),
                        }
                    } else if next >= ts.len() {
                        Err(ParseStop::Fail(ParseError::UnexpectedToken(Token::EOF)))
                    } else {
                        Err(ParseStop::Fail(ParseError::UnexpectedToken(ts[next].clone())))
                    },
                    Err(st) => Err(st),
                }
            } else {
                Ok(
                    Parsed {
                        expr: Expr::Var(name.clone()),
                        is_const: false,
                        next: sc + 1,
                        mpos,
                    },
                )
            }
        },
        Token::Number(b) => Ok(
            Parsed { expr: Expr::Num(*b), is_const: true, next: sc + 1, mpos },
        ),
        _ => Err(ParseStop::Fail(ParseError::UnexpectedToken(ts[sc].clone()))),
    };
    match core {
        Ok(p) => if neg {
            let node = Expr::new_mul(Expr::Num(NEG_ONE_BITS), p.expr);
            match fold(node, p.is_const && imp, math, p.mpos) {
                Ok((e2, mp2)) => Ok(
                    Parsed { expr: e2, is_const: p.is_const, next: p.next, mpos: mp2 },
                ),
                Err(st2) => Err(st2),
            }
        } else {
            Ok(p)
        },
        Err(st) => Err(st),
    }
}

/// A comma-separated argument list: the arguments, whether all are
/// constant, the next token position and the next answer position.
fn parse_args(ts: &Vec<Token>, i: usize, imp: bool, math: &[u32], mpos: usize) -> (r: Result<
    (Vec<Expr>, bool, usize, usize),
    ParseStop,
>)
    requires
        i <= ts@.len(),
        mpos <= math@.len(),
    ensures
        ({
            let s = spec_parse_args(tokens_model(ts@), i as int, imp, math@, mpos as int);
            match r {
                Ok((args, all_const, next, mp)) => s == Ok::<ArgsStep, PStop>(
                    ArgsStep {
                        args: exprs_model(args@),
                        is_const: all_const,
                        next: next as int,
                        mpos: mp as int,
                    },
                ) && i < next <= ts@.len() && mpos <= mp <= math@.len(),
                Err(st) => s == Err::<ArgsStep, PStop>(pstop_model(st)),
            }
        }),
    decreases ts@.len() - i, 4int,
{
    match parse_sum(ts, i, imp, math, mpos) {
        Ok(p) => {
            let mut args: Vec<Expr> = Vec::new();
            let ghost first = p.expr@;
            args.push(p.expr);
            proof {
                assert(exprs_model(args@) =~= seq![first]);
            }
            parse_args_rest(ts, args, p.is_const, p.next, imp, math, p.mpos)
        },
        Err(st) => Err(st),
    }
}

/// The remaining comma-prefixed expressions of an argument list.
fn parse_args_rest(
    ts: &Vec<Token>,
    acc: Vec<Expr>,
    all_const: bool,
    i: usize,
    imp: bool,
    math: &[u32],
    mpos: usize,
) -> (r: Result<(Vec<Expr>, bool, usize, usize), ParseStop>)
    requires
        i <= ts@.len(),
        mpos <= math@.len(),
    ensures
        ({
            let s = spec_args_rest(
                tokens_model(ts@),
                exprs_model(acc@),
                all_const,
                i as int,
                imp,
                math@,
                mpos as int,
            );
            match r {
                Ok((args, c, next, mp)) => s == Ok::<ArgsStep, PStop>(
                    ArgsStep {
                        args: exprs_model(args@),
                        is_const: c,
                        next: next as int,
                        mpos: mp as int,
                    },
                ) && i <= next <= ts@.len() && mpos <= mp <= math@.len(),
                Err(st) => s == Err::<ArgsStep, PStop>(pstop_model(st)),
            }
        }),
    decreases ts@.len() - i, 4int,
{
    if i < ts.len() && matches!(&ts[i], Token::Comma) {
        match parse_sum(ts, i + 1, imp, math, mpos) {
            Ok(p) => {
                let mut acc = acc;
                let ghost before = exprs_model(acc@);
                let ghost pushed = p.expr@;
                acc.push(p.expr);
                proof {
                    assert(exprs_model(acc@) =~= before.push(pushed));
                }
                parse_args_rest(ts, acc, all_const && p.is_const, p.next, imp, math, p.mpos)
            },
            Err(st) => Err(st),
        }
    } else {
        Ok((acc, all_const, i, mpos))
    }
}

/// Parse a whole token sequence as one expression.
///
/// Constant folding is applied when `implicit_evaluation` holds.  After the
/// expression, any remaining token is an [`ParseError::UnexpectedToken`]
/// error; running out of tokens mid-expression is the same error carrying
/// [`Token::EOF`].  `math` is the answer list for transcendental calls made
/// by constant folding.
pub fn parse(tokens: Vec<Token>, implicit_evaluation: bool, math: &[u32]) -> (r: ParseOutcome)
    ensures
        parse_outcome_matches(spec_parse(tokens_model(tokens@), implicit_evaluation, math@), r),
{
    match parse_sum(&tokens, 0, implicit_evaluation, math, 0) {
        Ok(p) => if p.next == tokens.len() {
            ParseOutcome::Done(p.expr)
        } else {
            ParseOutcome::Fail(ParseError::UnexpectedToken(tokens[p.next].clone()))
        },
        Err(ParseStop::Fail(pe)) => ParseOutcome::Fail(pe),
        Err(ParseStop::Call(c)) => ParseOutcome::Pending(c),
    }
}

impl Expr {
    /// Parse an input string: tokenize, then parse, with constant folding
    /// when `implicit_evaluation` holds.  `math` is the answer list for
    /// transcendental calls made by constant folding.
    pub fn parse(input: &str, implicit_evaluation: bool, math: &[u32]) -> (r: ParseOutcome)
        ensures
            parse_outcome_matches(spec_parse_text(input@, implicit_evaluation, math@), r),
    {
        match tokenize(input) {
            Ok(ts) => parse(ts, implicit_evaluation, math),
            Err(e) => ParseOutcome::Fail(e),
        }
    }
}

} // verus!
