//! Lexical tokens and their mathematical model.

use vstd::prelude::*;

verus! {

/// One lexical unit of the command language.  The keyword and bracket
/// variants carry no payload; numbers, identifiers and variable references
/// carry the classified text.
#[derive(Debug, PartialEq, Eq)]
pub enum Token {
    Forward,
    Back,
    Right,
    Left,
    Repeat,
    LBracket,
    RBracket,
    To,
    End,
    Number(i32),
    Ident(String),
    Var(String),
    If,
    Gtr,
    Less,
}

/// The mathematical model of a token: text payloads become character
/// sequences and numbers become unbounded integers.
pub enum TokenModel {
    Forward,
    Back,
    Right,
    Left,
    Repeat,
    LBracket,
    RBracket,
    To,
    End,
    Number(int),
    Ident(Seq<char>),
    Var(Seq<char>),
    If,
    Gtr,
    Less,
}

impl DeepView for Token {
    type V = TokenModel;

    open spec fn deep_view(&self) -> TokenModel {
        match self {
            Token::Forward => TokenModel::Forward,
            Token::Back => TokenModel::Back,
            Token::Right => TokenModel::Right,
            Token::Left => TokenModel::Left,
            Token::Repeat => TokenModel::Repeat,
            Token::LBracket => TokenModel::LBracket,
            Token::RBracket => TokenModel::RBracket,
            Token::To => TokenModel::To,
            Token::End => TokenModel::End,
            Token::Number(n) => TokenModel::Number(*n as int),
            Token::Ident(s) => TokenModel::Ident(s@),
            Token::Var(s) => TokenModel::Var(s@),
            Token::If => TokenModel::If,
            Token::Gtr => TokenModel::Gtr,
            Token::Less => TokenModel::Less,
        }
    }
}

/// Equality of two tokens, decided in verified code and related to the
/// mathematical model.  The derived `PartialEq` exists for unverified
/// callers; verified code goes through this function.
pub fn token_eq(a: &Token, b: &Token) -> (r: bool)
    ensures
        r == (a.deep_view() == b.deep_view()),
{
    match a {
        Token::Forward => matches!(b, Token::Forward),
        Token::Back => matches!(b, Token::Back),
        Token::Right => matches!(b, Token::Right),
        Token::Left => matches!(b, Token::Left),
        Token::Repeat => matches!(b, Token::Repeat),
        Token::LBracket => matches!(b, Token::LBracket),
        Token::RBracket => matches!(b, Token::RBracket),
        Token::To => matches!(b, Token::To),
        Token::End => matches!(b, Token::End),
        Token::Number(x) => match b {
            Token::Number(y) => x == y,
            _ => false,
        },
        Token::Ident(x) => match b {
            Token::Ident(y) => *x == *y,
            _ => false,
        },
        Token::Var(x) => match b {
            Token::Var(y) => *x == *y,
            _ => false,
        },
        Token::If => matches!(b, Token::If),
        Token::Gtr => matches!(b, Token::Gtr),
        Token::Less => matches!(b, Token::Less),
    }
}

} // verus!
