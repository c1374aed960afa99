use cobalt::error::Error;
use cobalt::parser::{
    CtrlParselet, Expression, HeaderParselet, HyperlinkParselet, ParagraphParselet, Parselet,
    Parser, Token, TokenType, Tokenizer,
};

fn parse_source(source: &str) -> Result<Vec<Expression>, Error> {
    let mut tokenizer = Tokenizer::new(source.to_string())?;
    Parser::new().parse_all(&mut tokenizer)
}

fn ctrl(keyword: &str, class: Option<&str>, id: Option<&str>, argument: &str) -> Expression {
    Expression::Ctrl {
        keyword: keyword.to_string(),
        class: class.map(|c| c.to_string()),
        id: id.map(|i| i.to_string()),
        argument: argument.to_string(),
    }
}

#[test]
fn hyperlink_round_trip() {
    assert_eq!(
        parse_source("[Home](index.html)"),
        Ok(vec![Expression::Hyperlink {
            text: "Home".to_string(),
            href: "index.html".to_string()
        }])
    );
}

#[test]
fn hyperlink_without_follower_is_end_of_file() {
    assert_eq!(parse_source("[Home]"), Err(Error::UnexpectedEof));
}

#[test]
fn hyperlink_with_other_follower_expects_parenthesis() {
    assert_eq!(parse_source("[Home]text"), Err(Error::ExpectedParen("text".to_string())));
    assert_eq!(parse_source("[Home]{x}"), Err(Error::ExpectedParen("x".to_string())));
    assert_eq!(parse_source("[Home][x]"), Err(Error::ExpectedParen("x".to_string())));
}

#[test]
fn control_full_form() {
    assert_eq!(
        parse_source("\\image(photo){banner.png}"),
        Ok(vec![ctrl("image", Some("photo"), None, "banner.png")])
    );
}

#[test]
fn control_minimal_form() {
    assert_eq!(
        parse_source("\\image{banner.png}"),
        Ok(vec![ctrl("image", None, None, "banner.png")])
    );
}

#[test]
fn control_class_and_id_in_either_order() {
    assert_eq!(
        parse_source("\\image(c)[i]{x}"),
        Ok(vec![ctrl("image", Some("c"), Some("i"), "x")])
    );
    assert_eq!(
        parse_source("\\image[i](c){x}"),
        Ok(vec![ctrl("image", Some("c"), Some("i"), "x")])
    );
    assert_eq!(parse_source("\\image[i]{x}"), Ok(vec![ctrl("image", None, Some("i"), "x")]));
}

#[test]
fn control_keeps_last_class_and_id() {
    assert_eq!(
        parse_source("\\image(a)[i](b)[j](c){x}"),
        Ok(vec![ctrl("image", Some("c"), Some("j"), "x")])
    );
}

#[test]
fn control_ends_at_its_brace() {
    assert_eq!(
        parse_source("\\image{x}[a](b)"),
        Ok(vec![
            ctrl("image", None, None, "x"),
            Expression::Hyperlink { text: "a".to_string(), href: "b".to_string() }
        ])
    );
}

#[test]
fn control_without_brace_could_not_parse() {
    assert_eq!(parse_source("\\image"), Err(Error::CouldNotParse("image".to_string())));
    assert_eq!(parse_source("\\image(c)[i]"), Err(Error::CouldNotParse("image".to_string())));
}

#[test]
fn control_with_other_token_expects_open() {
    assert_eq!(parse_source("\\image text"), Err(Error::ExpectedOpen(" text".to_string())));
    assert_eq!(parse_source("\\image(c)# h"), Err(Error::ExpectedOpen("h".to_string())));
    assert_eq!(parse_source("\\a(c)\\b{x}"), Err(Error::ExpectedOpen("b".to_string())));
}

#[test]
fn headings_and_paragraphs() {
    assert_eq!(
        parse_source("# One\n## Two\n### Three\n#### Four\n##### Five\n###### Six\ntext"),
        Ok(vec![
            Expression::H1("One".to_string()),
            Expression::H2("Two".to_string()),
            Expression::H3("Three".to_string()),
            Expression::H4("Four".to_string()),
            Expression::H5("Five".to_string()),
            Expression::H6("Six".to_string()),
            Expression::Paragraph("text".to_string())
        ])
    );
}

#[test]
fn heading_of_six_hashes_parses() {
    assert_eq!(parse_source("###### x"), Ok(vec![Expression::H6("x".to_string())]));
    assert_eq!(parse_source("# x"), Ok(vec![Expression::H1("x".to_string())]));
}

#[test]
fn leading_token_without_rule_could_not_parse() {
    assert_eq!(parse_source("(x)"), Err(Error::CouldNotParse("x".to_string())));
    assert_eq!(parse_source("{y}"), Err(Error::CouldNotParse("y".to_string())));
    assert_eq!(parse_source("# h\n(x)"), Err(Error::CouldNotParse("x".to_string())));
}

#[test]
fn nothing_parses_to_nothing() {
    assert_eq!(parse_source(""), Ok(vec![]));
    assert_eq!(parse_source("// c\n\t\n"), Ok(vec![]));
}

#[test]
fn parse_all_consumes_the_tokenizer() {
    let mut tokenizer = Tokenizer::new("[a](b)text".to_string()).unwrap();
    let parser = Parser::new();
    assert_eq!(parser.parse_all(&mut tokenizer).unwrap().len(), 2);
    assert!(tokenizer.peek().is_none());
    assert_eq!(parser.parse_all(&mut tokenizer), Ok(vec![]));
    assert_eq!(tokenizer.collect().len(), 3);
}

#[test]
fn parse_takes_one_expression() {
    let mut tokenizer = Tokenizer::new("[a](b)text".to_string()).unwrap();
    let parser = Parser::new();
    assert_eq!(
        parser.parse(&mut tokenizer),
        Ok(Some(Expression::Hyperlink { text: "a".to_string(), href: "b".to_string() }))
    );
    assert_eq!(tokenizer.peek().unwrap().get_value(), "text");
    assert_eq!(parser.parse(&mut tokenizer), Ok(Some(Expression::Paragraph("text".to_string()))));
    assert_eq!(parser.parse(&mut tokenizer), Ok(None));
    assert_eq!(parser.parse(&mut tokenizer), Ok(None));
}

#[test]
fn header_parselet_rejects_other_tokens() {
    let mut tokenizer = Tokenizer::new("rest".to_string()).unwrap();
    let parser = Parser::new();
    let token = Token::new(TokenType::Paragraph, "p".to_string());
    assert_eq!(
        (HeaderParselet {}).parse(&parser, &mut tokenizer, token),
        Err(Error::ExpectedHeading("p".to_string()))
    );
    let token = Token::new(TokenType::H4, "h".to_string());
    assert_eq!(
        (HeaderParselet {}).parse(&parser, &mut tokenizer, token),
        Ok(Expression::H4("h".to_string()))
    );
    assert_eq!(tokenizer.peek().unwrap().get_value(), "rest");
}

#[test]
fn paragraph_parselet_takes_no_further_token() {
    let mut tokenizer = Tokenizer::new("rest".to_string()).unwrap();
    let parser = Parser::new();
    let token = Token::new(TokenType::Paragraph, "p".to_string());
    assert_eq!(
        (ParagraphParselet {}).parse(&parser, &mut tokenizer, token),
        Ok(Expression::Paragraph("p".to_string()))
    );
    assert_eq!(tokenizer.peek().unwrap().get_value(), "rest");
}

#[test]
fn hyperlink_parselet_takes_one_token() {
    let mut tokenizer = Tokenizer::new("(b)(c)".to_string()).unwrap();
    let parser = Parser::new();
    let token = Token::new(TokenType::Bracket, "a".to_string());
    assert_eq!(
        (HyperlinkParselet {}).parse(&parser, &mut tokenizer, token),
        Ok(Expression::Hyperlink { text: "a".to_string(), href: "b".to_string() })
    );
    assert_eq!(tokenizer.peek().unwrap().get_value(), "c");
}

#[test]
fn ctrl_parselet_takes_through_the_brace() {
    let mut tokenizer = Tokenizer::new("(c){x}(d)".to_string()).unwrap();
    let parser = Parser::new();
    let token = Token::new(TokenType::Ctrl, "image".to_string());
    assert_eq!(
        (CtrlParselet {}).parse(&parser, &mut tokenizer, token),
        Ok(ctrl("image", Some("c"), None, "x"))
    );
    assert_eq!(tokenizer.peek().unwrap().get_value(), "d");
}

#[test]
fn expression_clone_is_equal() {
    let x = ctrl("image", Some("c"), None, "x");
    assert_eq!(x.clone(), x);
    let h = Expression::H3("t".to_string());
    assert_eq!(h.clone(), h);
}
