//! The token vocabulary shared by the lexer and the parser.

use vstd::prelude::*;

verus! {

/// A lexical token.
///
/// A numeric literal carries the bit pattern of its binary32 value.  The
/// lexer never emits `EOF`; it only appears inside
/// [`crate::parse_error::ParseError::UnexpectedToken`] when the parser runs
/// out of tokens while a production still expects one.
#[derive(Debug, PartialEq)]
pub enum Token {
    Plus,
    Minus,
    Star,
    Slash,
    Caret,
    LParen,
    RParen,
    Number(u32),
    /// Identifiers, including the recognized function names.
    Ident(String),
    Comma,
    EOF,
}

/// The mathematical model of a [`Token`]: the same variants with the
/// identifier text as a sequence of characters.
pub ghost enum TokenModel {
    Plus,
    Minus,
    Star,
    Slash,
    Caret,
    LParen,
    RParen,
    Number(u32),
    Ident(Seq<char>),
    Comma,
    EOF,
}

impl Clone for Token {
    /// An identical copy of the token.
    fn clone(&self) -> (r: Self)
        ensures
            r@ == self@,
    {
        match self {
            Token::Plus => Token::Plus,
            Token::Minus => Token::Minus,
            Token::Star => Token::Star,
            Token::Slash => Token::Slash,
            Token::Caret => Token::Caret,
            Token::LParen => Token::LParen,
            Token::RParen => Token::RParen,
            Token::Number(b) => Token::Number(*b),
            Token::Ident(s) => Token::Ident(s.clone()),
            Token::Comma => Token::Comma,
            Token::EOF => Token::EOF,
        }
    }
}

impl View for Token {
    type V = TokenModel;

    open spec fn view(&self) -> TokenModel {
        match self {
            Token::Plus => TokenModel::Plus,
            Token::Minus => TokenModel::Minus,
            Token::Star => TokenModel::Star,
            Token::Slash => TokenModel::Slash,
            Token::Caret => TokenModel::Caret,
            Token::LParen => TokenModel::LParen,
            Token::RParen => TokenModel::RParen,
            Token::Number(b) => TokenModel::Number(*b),
            Token::Ident(s) => TokenModel::Ident(s@),
            Token::Comma => TokenModel::Comma,
            Token::EOF => TokenModel::EOF,
        }
    }
}

} // verus!
