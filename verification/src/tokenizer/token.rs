//! Provides an abstraction over tokens and token types.

use vstd::prelude::*;

verus! {

/// Enumerates the types of possible tokens.
#[derive(Clone, Copy, Debug, PartialEq, Eq, Structural, Hash)]
pub enum TokenType {
    Id,
    Class,
    Ctrl,
    H1,
    H2,
    H3,
    H4,
    H5,
    H6,
    Paragraph,
    Paren,
    Bracket,
    Brace,
}

impl TokenType {
    /// The heading level of a heading type, and 0 for every other type.
    pub open spec fn level(self) -> nat {
        match self {
            TokenType::H1 => 1,
            TokenType::H2 => 2,
            TokenType::H3 => 3,
            TokenType::H4 => 4,
            TokenType::H5 => 5,
            TokenType::H6 => 6,
            _ => 0,
        }
    }
}

/// What a token is, as a mathematical value: its type and its text.
pub struct TokenView {
    pub t: TokenType,
    pub v: Seq<char>,
}

/// Holds a token's type and value.
#[derive(Debug)]
pub struct Token {
    t: TokenType,
    v: String,
}

impl View for Token {
    type V = TokenView;

    closed spec fn view(&self) -> TokenView {
        TokenView { t: self.t, v: self.v@ }
    }
}

impl Clone for Token {
    fn clone(&self) -> (r: Self)
        ensures
            r@ == self@,
    {
        Token { t: self.t, v: self.v.clone() }
    }
}

impl Token {
    /// Constructs a new `Token` from its type and value.
    pub fn new(t: TokenType, v: String) -> (r: Self)
        ensures
            r@ == (TokenView { t, v: v@ }),
    {
        Self { t, v }
    }

    /// Gets the type of a token.
    pub fn get_type(&self) -> (r: TokenType)
        ensures
            r == self@.t,
    {
        self.t
    }

    /// Gets the value of a token.
    pub fn get_value(&self) -> (r: String)
        ensures
            r@ == self@.v,
    {
        self.v.clone()
    }
}

} // verus!
