//! Provides a parselet for control sequences.

use vstd::prelude::*;
use crate::error::{Error, ErrorView};
use crate::parser::{
    option_view,
    Expression,
    ExpressionView,
    Parselet,
    Parser,
    Token,
    TokenType,
    TokenView,
    Tokenizer,
};

verus! {

/// Whether a token decorates a control sequence: a parenthesis token names a
/// class, a bracket token an id.
pub open spec fn is_decoration(token: TokenView) -> bool {
    token.t == TokenType::Paren || token.t == TokenType::Bracket
}

/// The number of decorations at the head of `tokens`.
pub open spec fn decorations(tokens: Seq<TokenView>) -> nat
    decreases tokens.len(),
{
    if tokens.len() == 0 || !is_decoration(tokens[0]) {
        0
    } else {
        1 + decorations(tokens.skip(1))
    }
}

/// `decorations` is the position of the first token that is no decoration.
pub proof fn lemma_decorations(tokens: Seq<TokenView>)
    ensures
        decorations(tokens) <= tokens.len(),
        decorations(tokens) < tokens.len() ==> !is_decoration(tokens[decorations(tokens) as int]),
        forall|i: int| 0 <= i < decorations(tokens) ==> is_decoration(#[trigger] tokens[i]),
    decreases tokens.len(),
{
    if tokens.len() == 0 || !is_decoration(tokens[0]) {
    } else {
        let rest = tokens.skip(1);
        lemma_decorations(rest);
        assert forall|i: int| 0 <= i < decorations(tokens) implies is_decoration(
            #[trigger] tokens[i],
        ) by {
            if i > 0 {
                assert(tokens[i] == rest[i - 1]);
            }
        }
    }
}

/// The text of the last token of type `t` in `tokens`, if there is one.
pub open spec fn last_of(tokens: Seq<TokenView>, t: TokenType) -> Option<Seq<char>>
    decreases tokens.len(),
{
    if tokens.len() == 0 {
        None
    } else if tokens.last().t == t {
        Some(tokens.last().v)
    } else {
        last_of(tokens.drop_last(), t)
    }
}

/// A control sequence is a keyword token, any number of decorations after
/// it, and a brace token, which holds the argument and ends the sequence.
/// The last class and the last id among the decorations are kept. Tokens
/// that run out before a brace, or another token in its place, are errors.
pub open spec fn ctrl_rule(token: TokenView, rest: Seq<TokenView>) -> Result<
    (ExpressionView, nat),
    ErrorView,
> {
    let n = decorations(rest);
    if n >= rest.len() {
        Err(ErrorView::CouldNotParse(token.v))
    } else if rest[n as int].t != TokenType::Brace {
        Err(ErrorView::ExpectedOpen(rest[n as int].v))
    } else {
        Ok(
            (
                ExpressionView::Ctrl {
                    keyword: token.v,
                    class: last_of(rest.take(n as int), TokenType::Paren),
                    id: last_of(rest.take(n as int), TokenType::Bracket),
                    argument: rest[n as int].v,
                },
                n + 1,
            ),
        )
    }
}

pub struct CtrlParselet {}

impl Parselet for CtrlParselet {
    open spec fn rule(&self, token: TokenView, rest: Seq<TokenView>) -> Result<
        (ExpressionView, nat),
        ErrorView,
    > {
        ctrl_rule(token, rest)
    }

    /// Parses a control sequence into an expression.
    fn parse(&self, _parser: &Parser, tokenizer: &mut Tokenizer, token: Token) -> (r: Result<
        Expression,
        Error,
    >) {
        // Get the keyword.
        let keyword = token.get_value();

        let mut class: Option<String> = None;
        let mut id: Option<String> = None;

        let ghost rest = tokenizer.remaining();
        let ghost mut k: nat = 0;
        proof {
            assert(rest.skip(0) =~= rest);
        }
        loop
            invariant
                k <= rest.len(),
                rest == old(tokenizer).remaining(),
                keyword@ == token@.v,
                tokenizer.tokens() == old(tokenizer).tokens(),
                tokenizer.remaining() == rest.skip(k as int),
                decorations(rest) == k + decorations(rest.skip(k as int)),
                option_view(class) == last_of(rest.take(k as int), TokenType::Paren),
                option_view(id) == last_of(rest.take(k as int), TokenType::Bracket),
            decreases tokenizer.remaining().len(),
        {
            let t = match tokenizer.next() {
                Some(t) => t,
                None => {
                    return Err(Error::CouldNotParse(token.get_value()));
                },
            };
            proof {
                assert(rest.skip(k as int).skip(1) =~= rest.skip(k as int + 1));
                assert(rest.take(k as int + 1).drop_last() =~= rest.take(k as int));
            }
            match t.get_type() {
                TokenType::Paren => {
                    class = Some(t.get_value());
                },
                TokenType::Bracket => {
                    id = Some(t.get_value());
                },
                TokenType::Brace => {
                    let argument = t.get_value();
                    return Ok(Expression::Ctrl { keyword, class, id, argument });
                },
                _ => {
                    return Err(Error::ExpectedOpen(t.get_value()));
                },
            }
            proof {
                k = k + 1;
            }
        }
    }
}

} // verus!
