//! Provides a parselet for hyperlinks.

use vstd::prelude::*;
use crate::error::{Error, ErrorView};
use crate::parser::{
    Expression,
    ExpressionView,
    Parselet,
    Parser,
    Token,
    TokenType,
    TokenView,
    Tokenizer,
};

verus! {

/// A hyperlink is a bracket token, which holds the text, and the token after
/// it, which must be a parenthesis token and holds the address.
pub open spec fn hyperlink_rule(token: TokenView, rest: Seq<TokenView>) -> Result<
    (ExpressionView, nat),
    ErrorView,
> {
    if rest.len() == 0 {
        Err(ErrorView::UnexpectedEof)
    } else if rest[0].t != TokenType::Paren {
        Err(ErrorView::ExpectedParen(rest[0].v))
    } else {
        Ok((ExpressionView::Hyperlink { text: token.v, href: rest[0].v }, 1))
    }
}

pub struct HyperlinkParselet {}

impl Parselet for HyperlinkParselet {
    open spec fn rule(&self, token: TokenView, rest: Seq<TokenView>) -> Result<
        (ExpressionView, nat),
        ErrorView,
    > {
        hyperlink_rule(token, rest)
    }

    /// Parses a hyperlink into an expression.
    fn parse(&self, _parser: &Parser, tokenizer: &mut Tokenizer, token: Token) -> (r: Result<
        Expression,
        Error,
    >) {
        // Get the text.
        let text = token.get_value();

        let next = match tokenizer.next_unwrap() {
            Ok(t) => t,
            Err(e) => {
                return Err(e);
            },
        };
        match next.get_type() {
            TokenType::Paren => {
                let href = next.get_value();
                Ok(Expression::Hyperlink { text, href })
            },
            _ => Err(Error::ExpectedParen(next.get_value())),
        }
    }
}

} // verus!
