//! Provides a parselet for headers.

use vstd::prelude::*;
use crate::error::{Error, ErrorView};
use crate::parser::{
    Expression,
    ExpressionView,
    Parselet,
    Parser,
    Token,
    TokenType,
    TokenView,
    Tokenizer,
};

verus! {

/// A heading is its leading token alone: the token's type gives the level and
/// its text is the heading's. A token of another type is no heading.
pub open spec fn header_rule(token: TokenView, rest: Seq<TokenView>) -> Result<
    (ExpressionView, nat),
    ErrorView,
> {
    if 1 <= token.t.level() <= 6 {
        Ok((ExpressionView::Heading { level: token.t.level(), text: token.v }, 0))
    } else {
        Err(ErrorView::ExpectedHeading(token.v))
    }
}

pub struct HeaderParselet {}

impl Parselet for HeaderParselet {
    open spec fn rule(&self, token: TokenView, rest: Seq<TokenView>) -> Result<
        (ExpressionView, nat),
        ErrorView,
    > {
        header_rule(token, rest)
    }

    /// Parses a header into an expression.
    fn parse(&self, _parser: &Parser, tokenizer: &mut Tokenizer, token: Token) -> (r: Result<
        Expression,
        Error,
    >) {
        assert(tokenizer.remaining().skip(0) =~= tokenizer.remaining());
        match token.get_type() {
            TokenType::H1 => Ok(Expression::H1(token.get_value())),
            TokenType::H2 => Ok(Expression::H2(token.get_value())),
            TokenType::H3 => Ok(Expression::H3(token.get_value())),
            TokenType::H4 => Ok(Expression::H4(token.get_value())),
            TokenType::H5 => Ok(Expression::H5(token.get_value())),
            TokenType::H6 => Ok(Expression::H6(token.get_value())),
            _ => Err(Error::ExpectedHeading(token.get_value())),
        }
    }
}

} // verus!
