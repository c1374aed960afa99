//! Provides a simple Cobalt parser.
//!
//! The parser reads the token stream one rule at a time. The type of the
//! leading token selects the rule, a *parselet*, which takes as many further
//! tokens as its form needs and builds one expression. What the parser
//! produces for a whole stream is stated by [`parse_all`].

pub mod parselet;
pub mod header_parselet;
pub mod ctrl_parselet;
pub mod paragraph_parselet;
pub mod hyperlink_parselet;

use vstd::prelude::*;
use crate::error::{Error, ErrorView};
pub use crate::tokenizer::{Token, TokenType, TokenView, Tokenizer};
pub use parselet::Parselet;
pub use header_parselet::{header_rule, HeaderParselet};
pub use ctrl_parselet::{ctrl_rule, CtrlParselet};
pub use paragraph_parselet::{paragraph_rule, ParagraphParselet};
pub use hyperlink_parselet::{hyperlink_rule, HyperlinkParselet};

verus! {

/// Abstracts over different "expressions" in Cobalt.
#[derive(Debug, PartialEq, Eq)]
pub enum Expression {
    Ctrl { keyword: String, class: Option<String>, id: Option<String>, argument: String },
    Paragraph(String),
    Hyperlink { text: String, href: String },
    H1(String),
    H2(String),
    H3(String),
    H4(String),
    H5(String),
    H6(String),
}

/// An expression as a mathematical value. The six heading variants are one
/// here, told apart by their level, from 1 to 6.
pub enum ExpressionView {
    Ctrl {
        keyword: Seq<char>,
        class: Option<Seq<char>>,
        id: Option<Seq<char>>,
        argument: Seq<char>,
    },
    Paragraph(Seq<char>),
    Hyperlink { text: Seq<char>, href: Seq<char> },
    Heading { level: nat, text: Seq<char> },
}

/// The text that an optional string holds, if any.
pub open spec fn option_view(o: Option<String>) -> Option<Seq<char>> {
    match o {
        Some(s) => Some(s@),
        None => None,
    }
}

impl View for Expression {
    type V = ExpressionView;

    open spec fn view(&self) -> ExpressionView {
        match self {
            Expression::Ctrl { keyword, class, id, argument } => ExpressionView::Ctrl {
                keyword: keyword@,
                class: option_view(*class),
                id: option_view(*id),
                argument: argument@,
            },
            Expression::Paragraph(s) => ExpressionView::Paragraph(s@),
            Expression::Hyperlink { text, href } => ExpressionView::Hyperlink {
                text: text@,
                href: href@,
            },
            Expression::H1(s) => ExpressionView::Heading { level: 1, text: s@ },
            Expression::H2(s) => ExpressionView::Heading { level: 2, text: s@ },
            Expression::H3(s) => ExpressionView::Heading { level: 3, text: s@ },
            Expression::H4(s) => ExpressionView::Heading { level: 4, text: s@ },
            Expression::H5(s) => ExpressionView::Heading { level: 5, text: s@ },
            Expression::H6(s) => ExpressionView::Heading { level: 6, text: s@ },
        }
    }
}

/// Copies an optional string.
fn clone_option(o: &Option<String>) -> (r: Option<String>)
    ensures
        option_view(r) == option_view(*o),
{
    match o {
        Some(s) => Some(s.clone()),
        None => None,
    }
}

impl Clone for Expression {
    fn clone(&self) -> (r: Self)
        ensures
            r@ == self@,
    {
        match self {
            Expression::Ctrl { keyword, class, id, argument } => Expression::Ctrl {
                keyword: keyword.clone(),
                class: clone_option(class),
                id: clone_option(id),
                argument: argument.clone(),
            },
            Expression::Paragraph(s) => Expression::Paragraph(s.clone()),
            Expression::Hyperlink { text, href } => Expression::Hyperlink {
                text: text.clone(),
                href: href.clone(),
            },
            Expression::H1(s) => Expression::H1(s.clone()),
            Expression::H2(s) => Expression::H2(s.clone()),
            Expression::H3(s) => Expression::H3(s.clone()),
            Expression::H4(s) => Expression::H4(s.clone()),
            Expression::H5(s) => Expression::H5(s.clone()),
            Expression::H6(s) => Expression::H6(s.clone()),
        }
    }
}

/// The mathematical values of a sequence of expressions.
pub open spec fn expression_views(expressions: Seq<Expression>) -> Seq<ExpressionView> {
    expressions.map_values(|x: Expression| x@)
}

/// The expression at the head of `tokens`, and the number of tokens that it
/// takes up. The type of the first token selects the rule; a type that has
/// no rule cannot begin an expression.
pub open spec fn parse_one(tokens: Seq<TokenView>) -> Result<(ExpressionView, nat), ErrorView>
    recommends
        tokens.len() > 0,
{
    let token = tokens[0];
    let rest = tokens.skip(1);
    let parsed = match token.t {
        TokenType::H1
        | TokenType::H2
        | TokenType::H3
        | TokenType::H4
        | TokenType::H5
        | TokenType::H6 => header_rule(token, rest),
        TokenType::Ctrl => ctrl_rule(token, rest),
        TokenType::Paragraph => paragraph_rule(token, rest),
        TokenType::Bracket => hyperlink_rule(token, rest),
        TokenType::Id
        | TokenType::Class
        | TokenType::Paren
        | TokenType::Brace => Err(ErrorView::CouldNotParse(token.v)),
    };
    match parsed {
        Ok((expression, n)) => Ok((expression, 1 + n)),
        Err(e) => Err(e),
    }
}

/// An expression takes up at least one token, and no more than there are.
pub proof fn lemma_parse_one_length(tokens: Seq<TokenView>)
    requires
        tokens.len() > 0,
    ensures
        parse_one(tokens) matches Ok((_, n)) ==> 1 <= n <= tokens.len(),
{
    ctrl_parselet::lemma_decorations(tokens.skip(1));
}

/// The expressions of a token sequence, in order, or the error that stops
/// the parse.
pub open spec fn parse_all(tokens: Seq<TokenView>) -> Result<Seq<ExpressionView>, ErrorView>
    decreases tokens.len(),
{
    if tokens.len() == 0 {
        Ok(Seq::empty())
    } else {
        match parse_one(tokens) {
            Err(e) => Err(e),
            Ok((expression, n)) => {
                proof {
                    lemma_parse_one_length(tokens);
                }
                match parse_all(tokens.skip(n as int)) {
                    Err(e) => Err(e),
                    Ok(expressions) => Ok(seq![expression] + expressions),
                }
            },
        }
    }
}

/// Provides a Cobalt parser.
pub struct Parser {}

impl Parser {
    /// Constructs a new parser. A parser holds nothing: its rules are fixed.
    pub fn new() -> (r: Self)
        ensures
            r == (Parser {  }),
    {
        Self {  }
    }

    /// Parses the next expression from the tokenizer, if a token is left.
    pub fn parse(&self, tokenizer: &mut Tokenizer) -> (r: Result<Option<Expression>, Error>)
        ensures
            final(tokenizer).tokens() == old(tokenizer).tokens(),
            if old(tokenizer).remaining().len() == 0 {
                r matches Ok(None) && final(tokenizer).remaining() == old(tokenizer).remaining()
            } else {
                match parse_one(old(tokenizer).remaining()) {
                    Ok((expression, n)) => {
                        &&& r matches Ok(Some(x)) && x@ == expression
                        &&& final(tokenizer).remaining() == old(tokenizer).remaining().skip(
                            n as int,
                        )
                    },
                    Err(e) => r matches Err(x) && x@ == e,
                }
            },
    {
        let ghost tokens = tokenizer.remaining();
        let token = match tokenizer.next() {
            Some(t) => t,
            None => {
                return Ok(None);
            },
        };
        let ghost rest = tokenizer.remaining();
        proof {
            ctrl_parselet::lemma_decorations(rest);
        }
        let parsed = match token.get_type() {
            TokenType::H1
            | TokenType::H2
            | TokenType::H3
            | TokenType::H4
            | TokenType::H5
            | TokenType::H6 => (HeaderParselet {  }).parse(self, tokenizer, token),
            TokenType::Ctrl => (CtrlParselet {  }).parse(self, tokenizer, token),
            TokenType::Paragraph => (ParagraphParselet {  }).parse(self, tokenizer, token),
            TokenType::Bracket => (HyperlinkParselet {  }).parse(self, tokenizer, token),
            TokenType::Id
            | TokenType::Class
            | TokenType::Paren
            | TokenType::Brace => Err(Error::CouldNotParse(token.get_value())),
        };
        match parsed {
            Ok(expression) => {
                proof {
                    let n = parse_one(tokens)->Ok_0.1;
                    assert(tokens.skip(1).skip(n - 1) =~= tokens.skip(n as int));
                }
                Ok(Some(expression))
            },
            Err(e) => Err(e),
        }
    }

    /// Consumes the tokenizer and returns a vector of expressions.
    pub fn parse_all(&self, tokenizer: &mut Tokenizer) -> (r: Result<Vec<Expression>, Error>)
        ensures
            final(tokenizer).tokens() == old(tokenizer).tokens(),
            match parse_all(old(tokenizer).remaining()) {
                Ok(expressions) => {
                    &&& r matches Ok(v) && expression_views(v@) == expressions
                    &&& final(tokenizer).remaining().len() == 0
                },
                Err(e) => r matches Err(x) && x@ == e,
            },
    {
        let ghost tokens = tokenizer.remaining();
        let mut expressions: Vec<Expression> = Vec::new();
        loop
            invariant
                tokens == old(tokenizer).remaining(),
                tokenizer.tokens() == old(tokenizer).tokens(),
                match parse_all(tokenizer.remaining()) {
                    Ok(more) => parse_all(tokens) == Ok::<Seq<ExpressionView>, ErrorView>(
                        expression_views(expressions@) + more,
                    ),
                    Err(e) => parse_all(tokens) == Err::<Seq<ExpressionView>, ErrorView>(e),
                },
            decreases tokenizer.remaining().len(),
        {
            let ghost here = tokenizer.remaining();
            proof {
                if here.len() > 0 {
                    lemma_parse_one_length(here);
                }
            }
            match self.parse(tokenizer) {
                Err(e) => {
                    return Err(e);
                },
                Ok(None) => {
                    assert(expression_views(expressions@) + Seq::<ExpressionView>::empty()
                        =~= expression_views(expressions@));
                    return Ok(expressions);
                },
                Ok(Some(x)) => {
                    let ghost before = expression_views(expressions@);
                    expressions.push(x);
                    proof {
                        assert(expression_views(expressions@) =~= before.push(x@));
                        if let Ok(more) = parse_all(tokenizer.remaining()) {
                            assert(before + (seq![x@] + more) =~= before.push(x@) + more);
                        }
                    }
                },
            }
        }
    }
}

} // verus!
