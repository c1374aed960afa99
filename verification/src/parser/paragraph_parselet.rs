//! Provides a parselet for paragraphs.

use vstd::prelude::*;
use crate::error::{Error, ErrorView};
use crate::parser::{Expression, ExpressionView, Parselet, Parser, Token, TokenView, Tokenizer};

verus! {

/// A paragraph is its leading token alone: the token's text is the
/// paragraph's.
pub open spec fn paragraph_rule(token: TokenView, rest: Seq<TokenView>) -> Result<
    (ExpressionView, nat),
    ErrorView,
> {
    Ok((ExpressionView::Paragraph(token.v), 0))
}

pub struct ParagraphParselet {}

impl Parselet for ParagraphParselet {
    open spec fn rule(&self, token: TokenView, rest: Seq<TokenView>) -> Result<
        (ExpressionView, nat),
        ErrorView,
    > {
        paragraph_rule(token, rest)
    }

    /// Parses a paragraph into an expression.
    fn parse(&self, _parser: &Parser, tokenizer: &mut Tokenizer, token: Token) -> (r: Result<
        Expression,
        Error,
    >) {
        assert(tokenizer.remaining().skip(0) =~= tokenizer.remaining());
        Ok(Expression::Paragraph(token.get_value()))
    }
}

} // verus!
