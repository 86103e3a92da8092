//! The lexer: characters to tokens.

use vstd::prelude::*;
use crate::numeric::{bits_of_decimal, decimal_to_bits, is_decimal_literal, spec_is_digit};
use crate::parse_error::{ParseError, ParseErrorModel};
use crate::token::{Token, TokenModel};

verus! {

/// Whether `c` may start an identifier: a letter or an underscore.
pub open spec fn spec_is_ident_start(c: char) -> bool {
    ('a' <= c && c <= 'z') || ('A' <= c && c <= 'Z') || c == '_'
}

/// Whether `c` may continue an identifier: a letter, an underscore or a
/// digit.
pub open spec fn spec_is_ident_char(c: char) -> bool {
    spec_is_ident_start(c) || spec_is_digit(c)
}

/// The end of the maximal run of digits starting at `i`.
pub open spec fn digits_end(s: Seq<char>, i: int) -> int
    decreases s.len() - i,
{
    if i < 0 || i >= s.len() {
        i
    } else if spec_is_digit(s[i]) {
        digits_end(s, i + 1)
    } else {
        i
    }
}

/// The end of the maximal run of identifier characters starting at `i`.
pub open spec fn ident_end(s: Seq<char>, i: int) -> int
    decreases s.len() - i,
{
    if i < 0 || i >= s.len() {
        i
    } else if spec_is_ident_char(s[i]) {
        ident_end(s, i + 1)
    } else {
        i
    }
}

/// The maximal digit run neither moves backwards nor overshoots the input,
/// covers digits only, and stops at a non-digit.
pub proof fn lemma_digits_end(s: Seq<char>, i: int)
    requires
        0 <= i <= s.len(),
    ensures
        i <= digits_end(s, i) <= s.len(),
        forall|m: int| i <= m < digits_end(s, i) ==> spec_is_digit(s[m]),
        digits_end(s, i) < s.len() ==> !spec_is_digit(s[digits_end(s, i)]),
    decreases s.len() - i,
{
    if i < s.len() && spec_is_digit(s[i]) {
        lemma_digits_end(s, i + 1);
    }
}

/// The maximal identifier run neither moves backwards nor overshoots the
/// input, covers identifier characters only, and stops at a non-identifier
/// character.
pub proof fn lemma_ident_end(s: Seq<char>, i: int)
    requires
        0 <= i <= s.len(),
    ensures
        i <= ident_end(s, i) <= s.len(),
        forall|m: int| i <= m < ident_end(s, i) ==> spec_is_ident_char(s[m]),
        ident_end(s, i) < s.len() ==> !spec_is_ident_char(s[ident_end(s, i)]),
    decreases s.len() - i,
{
    if i < s.len() && spec_is_ident_char(s[i]) {
        lemma_ident_end(s, i + 1);
    }
}

/// Prepend a token to a lexing result, keeping an error as it is.
pub open spec fn lex_cons(
    t: TokenModel,
    rest: Result<Seq<TokenModel>, ParseErrorModel>,
) -> Result<Seq<TokenModel>, ParseErrorModel> {
    match rest {
        Ok(ts) => Ok(seq![t] + ts),
        Err(e) => Err(e),
    }
}

/// The token sequence of the input from position `i` on.
///
/// Spaces are skipped; the eight operator and punctuation characters map to
/// their tokens; a digit starts a maximal numeric literal (digits,
/// optionally a point that must be followed by at least one digit — a
/// trailing point is the error `UnexpectedChar('.')`); a letter or an
/// underscore starts a maximal identifier; any other character is an
/// `UnexpectedChar` error.
pub open spec fn spec_tokenize_at(s: Seq<char>, i: int) -> Result<
    Seq<TokenModel>,
    ParseErrorModel,
>
    decreases s.len() - i,
{
    if i < 0 || i >= s.len() {
        Ok(seq![])
    } else {
        let c = s[i];
        if c == ' ' {
            spec_tokenize_at(s, i + 1)
        } else if c == '+' {
            lex_cons(TokenModel::Plus, spec_tokenize_at(s, i + 1))
        } else if c == '-' {
            lex_cons(TokenModel::Minus, spec_tokenize_at(s, i + 1))
        } else if c == '*' {
            lex_cons(TokenModel::Star, spec_tokenize_at(s, i + 1))
        } else if c == '/' {
            lex_cons(TokenModel::Slash, spec_tokenize_at(s, i + 1))
        } else if c == '^' {
            lex_cons(TokenModel::Caret, spec_tokenize_at(s, i + 1))
        } else if c == '(' {
            lex_cons(TokenModel::LParen, spec_tokenize_at(s, i + 1))
        } else if c == ')' {
            lex_cons(TokenModel::RParen, spec_tokenize_at(s, i + 1))
        } else if c == ',' {
            lex_cons(TokenModel::Comma, spec_tokenize_at(s, i + 1))
        } else if spec_is_digit(c) {
            proof {
                lemma_digits_end(s, i);
            }
            let j = digits_end(s, i);
            if j < s.len() && s[j] == '.' {
                proof {
                    lemma_digits_end(s, j + 1);
                }
                let k = digits_end(s, j + 1);
                if k == j + 1 {
                    Err(ParseErrorModel::UnexpectedChar('.'))
                } else {
                    lex_cons(
                        TokenModel::Number(bits_of_decimal(s.subrange(i, k))),
                        spec_tokenize_at(s, k),
                    )
                }
            } else {
                lex_cons(
                    TokenModel::Number(bits_of_decimal(s.subrange(i, j))),
                    spec_tokenize_at(s, j),
                )
            }
        } else if spec_is_ident_start(c) {
            proof {
                lemma_ident_end(s, i + 1);
            }
            let j = ident_end(s, i + 1);
            lex_cons(TokenModel::Ident(s.subrange(i, j)), spec_tokenize_at(s, j))
        } else {
            Err(ParseErrorModel::UnexpectedChar(c))
        }
    }
}

/// The model of a token vector.
pub open spec fn tokens_model(ts: Seq<Token>) -> Seq<TokenModel> {
    ts.map_values(|t: Token| t@)
}

/// The model of a lexing result.
pub open spec fn lex_model(r: Result<Vec<Token>, ParseError>) -> Result<
    Seq<TokenModel>,
    ParseErrorModel,
> {
    match r {
        Ok(v) => Ok(tokens_model(v@)),
        Err(e) => Err(e@),
    }
}

/// Prepend a token to a lexing result.
fn lex_push(t: Token, rest: Result<Vec<Token>, ParseError>) -> (r: Result<Vec<Token>, ParseError>)
    ensures
        lex_model(r) == lex_cons(t@, lex_model(rest)),
{
    match rest {
        Ok(mut ts) => {
            let ghost before = ts@;
            ts.insert(0, t);
            proof {
                assert(tokens_model(ts@) =~= seq![t@] + tokens_model(before));
            }
            Ok(ts)
        },
        Err(e) => Err(e),
    }
}

/// The end of the maximal run of digits starting at `i`.
pub fn parse_digits(input: &str, i: usize) -> (j: usize)
    requires
        i <= input@.len(),
    ensures
        j == digits_end(input@, i as int),
        i <= j <= input@.len(),
    decreases input@.len() - i,
{
    proof {
        lemma_digits_end(input@, i as int);
    }
    let n = input.unicode_len();
    if i < n {
        let c = input.get_char(i);
        if '0' <= c && c <= '9' {
            return parse_digits(input, i + 1);
        }
    }
    i
}

/// The end of the maximal run of identifier characters starting at `i`.
pub fn parse_ident(input: &str, i: usize) -> (j: usize)
    requires
        i <= input@.len(),
    ensures
        j == ident_end(input@, i as int),
        i <= j <= input@.len(),
    decreases input@.len() - i,
{
    proof {
        lemma_ident_end(input@, i as int);
    }
    let n = input.unicode_len();
    if i < n {
        let c = input.get_char(i);
        if ('a' <= c && c <= 'z') || ('A' <= c && c <= 'Z') || c == '_' || ('0' <= c && c <= '9') {
            return parse_ident(input, i + 1);
        }
    }
    i
}

/// The tokens of the input from position `i` on.
fn tokenize_at(input: &str, i: usize) -> (r: Result<Vec<Token>, ParseError>)
    requires
        i <= input@.len(),
    ensures
        lex_model(r) == spec_tokenize_at(input@, i as int),
    decreases input@.len() - i,
{
    let n = input.unicode_len();
    if i >= n {
        let ts: Vec<Token> = Vec::new();
        proof {
            assert(tokens_model(ts@) =~= Seq::<TokenModel>::empty());
        }
        return Ok(ts);
    }
    let c = input.get_char(i);
    if c == ' ' {
        tokenize_at(input, i + 1)
    } else if c == '+' {
        lex_push(Token::Plus, tokenize_at(input, i + 1))
    } else if c == '-' {
        lex_push(Token::Minus, tokenize_at(input, i + 1))
    } else if c == '*' {
        lex_push(Token::Star, tokenize_at(input, i + 1))
    } else if c == '/' {
        lex_push(Token::Slash, tokenize_at(input, i + 1))
    } else if c == '^' {
        lex_push(Token::Caret, tokenize_at(input, i + 1))
    } else if c == '(' {
        lex_push(Token::LParen, tokenize_at(input, i + 1))
    } else if c == ')' {
        lex_push(Token::RParen, tokenize_at(input, i + 1))
    } else if c == ',' {
        lex_push(Token::Comma, tokenize_at(input, i + 1))
    } else if '0' <= c && c <= '9' {
        proof {
            lemma_digits_end(input@, i as int);
        }
        let j = parse_digits(input, i);
        if j < n && input.get_char(j) == '.' {
            proof {
                lemma_digits_end(input@, j + 1);
            }
            let k = parse_digits(input, j + 1);
            if k == j + 1 {
                Err(ParseError::UnexpectedChar('.'))
            } else {
                let lit = input.substring_char(i, k);
                proof {
                    let s = input@;
                    let sub = s.subrange(i as int, k as int);
                    let whole = sub.subrange(0, j - i);
                    let frac = sub.subrange(j - i + 1, sub.len() as int);
                    assert(sub[j - i] == '.');
                    assert forall|m: int| 0 <= m < whole.len() implies spec_is_digit(
                        #[trigger] whole[m],
                    ) by {
                        assert(whole[m] == s[i + m]);
                    }
                    assert forall|m: int| 0 <= m < frac.len() implies spec_is_digit(
                        #[trigger] frac[m],
                    ) by {
                        assert(frac[m] == s[j + 1 + m]);
                    }
                    assert(1 <= j - i < sub.len() - 1);
                    assert(is_decimal_literal(lit@));
                }
                let b = decimal_to_bits(lit);
                lex_push(Token::Number(b), tokenize_at(input, k))
            }
        } else {
            let lit = input.substring_char(i, j);
            proof {
                let s = input@;
                let sub = s.subrange(i as int, j as int);
                assert forall|m: int| 0 <= m < sub.len() implies spec_is_digit(
                    #[trigger] sub[m],
                ) by {
                    assert(sub[m] == s[i + m]);
                }
                assert(sub.len() > 0);
                assert(is_decimal_literal(lit@));
            }
            let b = decimal_to_bits(lit);
            lex_push(Token::Number(b), tokenize_at(input, j))
        }
    } else if ('a' <= c && c <= 'z') || ('A' <= c && c <= 'Z') || c == '_' {
        proof {
            lemma_ident_end(input@, i + 1);
        }
        let j = parse_ident(input, i + 1);
        let name = input.substring_char(i, j);
        lex_push(Token::Ident(name.to_owned()), tokenize_at(input, j))
    } else {
        Err(ParseError::UnexpectedChar(c))
    }
}

/// Convert the input into its token sequence, left to right.
///
/// Spaces are skipped and never produce tokens.  Lexing fails with
/// [`ParseError::UnexpectedChar`] on any character that fits no rule, and
/// on a numeric literal whose point is not followed by a digit.
pub fn tokenize(input: &str) -> (r: Result<Vec<Token>, ParseError>)
    ensures
        lex_model(r) == spec_tokenize_at(input@, 0),
{
    tokenize_at(input, 0)
}

} // verus!
