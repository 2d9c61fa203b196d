//! The token model: the closed set of lexical categories of the language,
//! and the token value itself, a category paired with the matched text.

use vstd::prelude::*;

verus! {

/// The lexical categories of the language. The set is closed: every
/// character of an input falls into exactly one of these, with `Illegal`
/// standing for any character outside the language's alphabet and `EOF`
/// marking exhaustion of the input.
#[derive(PartialEq, Eq, Structural, Debug, Clone, Hash)]
pub enum TokenType {
    Illegal,
    EOF,
    Ident,
    Int,
    Assign,
    Plus,
    Minus,
    Bang,
    Asterisk,
    Slash,
    Equality,
    NotEqual,
    Gt,
    Lt,
    Comma,
    Semicolon,
    Lparen,
    Rparen,
    Lbrace,
    Rbrace,
    Function,
    Let,
    True,
    False,
    If,
    Else,
    Return,
}

/// A classified unit of lexical text: the category together with the exact
/// source text that was matched. Equality is structural; a token has no
/// identity beyond its two fields.
#[derive(PartialEq, Eq, Debug, Clone, Hash)]
pub struct Token {
    pub t_type: TokenType,
    pub literal: String,
}

} // verus!
