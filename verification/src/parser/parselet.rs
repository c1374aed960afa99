//! Creates an interface for parselets.

use vstd::prelude::*;
use crate::error::{Error, ErrorView};
use crate::parser::{Expression, ExpressionView, Parser, Token, TokenView, Tokenizer};

verus! {

/// A grammar rule: it is handed the token that leads one expression and takes
/// from the tokenizer the tokens that complete it.
pub trait Parselet {
    /// What the rule builds from the leading token and the tokens after it:
    /// the expression, and how many of the tokens after the leading one it
    /// takes; or the error that it reports.
    spec fn rule(&self, token: TokenView, rest: Seq<TokenView>) -> Result<
        (ExpressionView, nat),
        ErrorView,
    >;

    /// Parses one expression that begins with `token`.
    fn parse(&self, parser: &Parser, tokenizer: &mut Tokenizer, token: Token) -> (r: Result<
        Expression,
        Error,
    >)
        ensures
            final(tokenizer).tokens() == old(tokenizer).tokens(),
            match self.rule(token@, old(tokenizer).remaining()) {
                Ok((expression, n)) => {
                    &&& r matches Ok(x) && x@ == expression
                    &&& final(tokenizer).remaining() == old(tokenizer).remaining().skip(n as int)
                },
                Err(e) => r matches Err(x) && x@ == e,
            },
    ;
}

} // verus!
