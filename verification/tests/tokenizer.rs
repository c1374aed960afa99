use cobalt::error::Error;
use cobalt::tokenizer::{CharClass, Charstream, Token, TokenType, Tokenizer};

fn pairs(source: &str) -> Vec<(TokenType, String)> {
    Tokenizer::new(source.to_string())
        .unwrap()
        .collect()
        .iter()
        .map(|t| (t.get_type(), t.get_value()))
        .collect()
}

fn pair(t: TokenType, v: &str) -> (TokenType, String) {
    (t, v.to_string())
}

#[test]
fn token_keeps_type_and_value() {
    let t = Token::new(TokenType::Brace, "banner.png".to_string());
    assert_eq!(t.get_type(), TokenType::Brace);
    assert_eq!(t.get_value(), "banner.png");
    let u = t.clone();
    assert_eq!(u.get_type(), TokenType::Brace);
    assert_eq!(u.get_value(), "banner.png");
}

#[test]
fn char_classes() {
    assert!(CharClass::Separator.has('\t'));
    assert!(CharClass::Separator.has('\n'));
    assert!(!CharClass::Separator.has(' '));
    for c in ['\\', '#', '['] {
        assert!(CharClass::ControlCharacter.has(c));
    }
    assert!(!CharClass::ControlCharacter.has('('));
    for c in [' ', '(', ')', '[', ']', '{', '}'] {
        assert!(CharClass::EndOfControl.has(c));
    }
    assert!(!CharClass::EndOfControl.has('/'));
    assert!(CharClass::Is('x').has('x'));
    assert!(!CharClass::Is('x').has('y'));
    assert!(CharClass::IsNot('x').has('y'));
    assert!(!CharClass::IsNot('x').has('x'));
}

#[test]
fn charstream_peeks_without_advancing() {
    let stream = Charstream::new("ab".to_string());
    assert_eq!(stream.peek(), Some('a'));
    assert_eq!(stream.peek(), Some('a'));
    assert_eq!(stream.look_ahead(0), Some('a'));
    assert_eq!(stream.look_ahead(1), Some('b'));
    assert_eq!(stream.look_ahead(2), None);
    assert_eq!(stream.look_ahead(usize::MAX), None);
}

#[test]
fn charstream_next_advances_to_the_end() {
    let mut stream = Charstream::new("ab".to_string());
    assert_eq!(stream.next(), Some('a'));
    assert_eq!(stream.peek(), Some('b'));
    assert_eq!(stream.look_ahead(1), None);
    assert_eq!(stream.next(), Some('b'));
    assert_eq!(stream.peek(), None);
    assert_eq!(stream.look_ahead(0), None);
    assert_eq!(stream.next(), None);
    assert_eq!(stream.next(), None);
    assert_eq!(stream.peek(), None);
}

#[test]
fn charstream_of_nothing() {
    let mut stream = Charstream::new(String::new());
    assert_eq!(stream.peek(), None);
    assert_eq!(stream.look_ahead(0), None);
    assert_eq!(stream.next(), None);
}

#[test]
fn charstream_counts_characters_not_bytes() {
    let mut stream = Charstream::new("é∑x".to_string());
    assert_eq!(stream.look_ahead(1), Some('∑'));
    assert_eq!(stream.look_ahead(2), Some('x'));
    assert_eq!(stream.next(), Some('é'));
    assert_eq!(stream.next(), Some('∑'));
    assert_eq!(stream.next(), Some('x'));
    assert_eq!(stream.next(), None);
}

#[test]
fn skip_whitespace_stops_at_a_token() {
    let mut stream = Charstream::new("\t\n// note\n\n// more\n\tx".to_string());
    Tokenizer::skip_whitespace(&mut stream);
    assert_eq!(stream.peek(), Some('x'));
    Tokenizer::skip_whitespace(&mut stream);
    assert_eq!(stream.peek(), Some('x'));
}

#[test]
fn skip_whitespace_keeps_spaces_and_single_slashes() {
    let mut stream = Charstream::new(" x".to_string());
    Tokenizer::skip_whitespace(&mut stream);
    assert_eq!(stream.peek(), Some(' '));
    let mut stream = Charstream::new("/x".to_string());
    Tokenizer::skip_whitespace(&mut stream);
    assert_eq!(stream.peek(), Some('/'));
    let mut stream = Charstream::new("/".to_string());
    Tokenizer::skip_whitespace(&mut stream);
    assert_eq!(stream.peek(), Some('/'));
}

#[test]
fn skip_whitespace_runs_a_comment_to_the_end() {
    let mut stream = Charstream::new("// no newline".to_string());
    Tokenizer::skip_whitespace(&mut stream);
    assert_eq!(stream.peek(), None);
}

#[test]
fn next_token_reads_one_token() {
    let mut stream = Charstream::new("\n[Home](index.html)".to_string());
    let t = Tokenizer::next_token(&mut stream).unwrap().unwrap();
    assert_eq!((t.get_type(), t.get_value()), pair(TokenType::Bracket, "Home"));
    assert_eq!(stream.peek(), Some('('));
    let t = Tokenizer::next_token(&mut stream).unwrap().unwrap();
    assert_eq!((t.get_type(), t.get_value()), pair(TokenType::Paren, "index.html"));
    assert!(Tokenizer::next_token(&mut stream).unwrap().is_none());
    assert!(Tokenizer::next_token(&mut stream).unwrap().is_none());
}

#[test]
fn next_token_reports_too_many_hashes() {
    let mut stream = Charstream::new("####### x".to_string());
    assert_eq!(Tokenizer::next_token(&mut stream).err(), Some(Error::TooManyHeadings));
}

#[test]
fn empty_and_blank_sources_have_no_tokens() {
    assert_eq!(pairs(""), vec![]);
    assert_eq!(pairs("\n\t\n"), vec![]);
    assert_eq!(pairs("// only a comment"), vec![]);
    assert_eq!(pairs("// one\n// two\n"), vec![]);
}

#[test]
fn heading_level_one() {
    assert_eq!(pairs("# x"), vec![pair(TokenType::H1, "x")]);
}

#[test]
fn heading_level_six() {
    assert_eq!(pairs("###### x"), vec![pair(TokenType::H6, "x")]);
}

#[test]
fn heading_levels_two_to_five() {
    assert_eq!(pairs("## a"), vec![pair(TokenType::H2, "a")]);
    assert_eq!(pairs("### a"), vec![pair(TokenType::H3, "a")]);
    assert_eq!(pairs("#### a"), vec![pair(TokenType::H4, "a")]);
    assert_eq!(pairs("##### a"), vec![pair(TokenType::H5, "a")]);
}

#[test]
fn seven_hashes_are_an_error() {
    assert_eq!(Tokenizer::new("####### x".to_string()).err(), Some(Error::TooManyHeadings));
}

#[test]
fn more_than_seven_hashes_are_an_error() {
    assert_eq!(Tokenizer::new("##########".to_string()).err(), Some(Error::TooManyHeadings));
    assert_eq!(
        Tokenizer::new("[a](b)\n######## late".to_string()).err(),
        Some(Error::TooManyHeadings)
    );
}

#[test]
fn heading_drops_one_space_only() {
    assert_eq!(pairs("#  x"), vec![pair(TokenType::H1, " x")]);
    assert_eq!(pairs("#x"), vec![pair(TokenType::H1, "x")]);
    assert_eq!(pairs("# # x"), vec![pair(TokenType::H1, "# x")]);
}

#[test]
fn heading_ends_with_its_line() {
    assert_eq!(
        pairs("# Title\n## Sub\ntext"),
        vec![
            pair(TokenType::H1, "Title"),
            pair(TokenType::H2, "Sub"),
            pair(TokenType::Paragraph, "text")
        ]
    );
    assert_eq!(pairs("#"), vec![pair(TokenType::H1, "")]);
    assert_eq!(pairs("#\n"), vec![pair(TokenType::H1, "")]);
}

#[test]
fn control_keyword_ends_at_delimiter() {
    assert_eq!(
        pairs("\\image(photo){banner.png}"),
        vec![
            pair(TokenType::Ctrl, "image"),
            pair(TokenType::Paren, "photo"),
            pair(TokenType::Brace, "banner.png")
        ]
    );
    assert_eq!(
        pairs("\\image[main]{a}"),
        vec![
            pair(TokenType::Ctrl, "image"),
            pair(TokenType::Bracket, "main"),
            pair(TokenType::Brace, "a")
        ]
    );
}

#[test]
fn control_keyword_ends_at_space() {
    assert_eq!(
        pairs("\\pagename {Home}"),
        vec![pair(TokenType::Ctrl, "pagename"), pair(TokenType::Paragraph, " {Home}")]
    );
}

#[test]
fn control_keyword_runs_to_the_end() {
    assert_eq!(pairs("\\image"), vec![pair(TokenType::Ctrl, "image")]);
    assert_eq!(pairs("\\"), vec![pair(TokenType::Ctrl, "")]);
    assert_eq!(pairs("\\a//b\n"), vec![pair(TokenType::Ctrl, "a//b\n")]);
}

#[test]
fn delimited_tokens_do_not_nest() {
    assert_eq!(
        pairs("[a[b]c]"),
        vec![pair(TokenType::Bracket, "a[b"), pair(TokenType::Paragraph, "c]")]
    );
    assert_eq!(
        pairs("{a{b}}"),
        vec![pair(TokenType::Brace, "a{b"), pair(TokenType::Paragraph, "}")]
    );
    assert_eq!(pairs("()"), vec![pair(TokenType::Paren, "")]);
}

#[test]
fn unterminated_delimiter_gives_the_partial_token() {
    assert_eq!(pairs("[abc"), vec![pair(TokenType::Bracket, "abc")]);
    assert_eq!(pairs("(abc"), vec![pair(TokenType::Paren, "abc")]);
    assert_eq!(pairs("{abc"), vec![pair(TokenType::Brace, "abc")]);
    assert_eq!(pairs("["), vec![pair(TokenType::Bracket, "")]);
}

#[test]
fn paragraph_runs_to_a_control_character() {
    assert_eq!(
        pairs("hello [x](y)"),
        vec![
            pair(TokenType::Paragraph, "hello "),
            pair(TokenType::Bracket, "x"),
            pair(TokenType::Paren, "y")
        ]
    );
    assert_eq!(
        pairs("a#b"),
        vec![pair(TokenType::Paragraph, "a"), pair(TokenType::H1, "b")]
    );
    assert_eq!(
        pairs("a\\b"),
        vec![pair(TokenType::Paragraph, "a"), pair(TokenType::Ctrl, "b")]
    );
    assert_eq!(pairs("a(b){c}"), vec![pair(TokenType::Paragraph, "a(b){c}")]);
}

#[test]
fn paragraph_keeps_multi_byte_characters() {
    assert_eq!(pairs("héllo ∑"), vec![pair(TokenType::Paragraph, "héllo ∑")]);
}

#[test]
fn comment_between_tokens_is_stripped() {
    assert_eq!(pairs("[a](b)// comment\nmore"), pairs("[a](b)\nmore"));
    assert_eq!(
        pairs("[a](b)// comment\nmore"),
        vec![
            pair(TokenType::Bracket, "a"),
            pair(TokenType::Paren, "b"),
            pair(TokenType::Paragraph, "more")
        ]
    );
    assert_eq!(pairs("// comment\nmore"), pairs("\nmore"));
    assert_eq!(pairs("# h\n// c // d\n[x]"), pairs("# h\n\n[x]"));
    assert_eq!(pairs("// a// comment\nmore"), pairs("// a\nmore"));
}

#[test]
fn comment_inside_a_paragraph_stays() {
    assert_eq!(
        pairs("text // comment\nmore"),
        vec![pair(TokenType::Paragraph, "text // comment\nmore")]
    );
    assert_eq!(pairs("text \nmore"), vec![pair(TokenType::Paragraph, "text \nmore")]);
}

#[test]
fn slash_before_a_comment_joins_it() {
    assert_eq!(pairs("///c\nmore"), vec![pair(TokenType::Paragraph, "more")]);
    assert_eq!(pairs("/\nmore"), vec![pair(TokenType::Paragraph, "/\nmore")]);
}

#[test]
fn whole_source_is_consumed() {
    let source = "\t// intro\n# Title\n\\pagename{Home}\ntext [Home](index.html)\n// end";
    assert_eq!(
        pairs(source),
        vec![
            pair(TokenType::H1, "Title"),
            pair(TokenType::Ctrl, "pagename"),
            pair(TokenType::Brace, "Home"),
            pair(TokenType::Paragraph, "text "),
            pair(TokenType::Bracket, "Home"),
            pair(TokenType::Paren, "index.html")
        ]
    );
}

#[test]
fn tokenizer_peek_does_not_consume() {
    let tokenizer = Tokenizer::new("[a](b)".to_string()).unwrap();
    let t = tokenizer.peek().unwrap();
    assert_eq!((t.get_type(), t.get_value()), pair(TokenType::Bracket, "a"));
    let t = tokenizer.peek_unwrap().unwrap();
    assert_eq!((t.get_type(), t.get_value()), pair(TokenType::Bracket, "a"));
}

#[test]
fn tokenizer_next_consumes_in_order() {
    let mut tokenizer = Tokenizer::new("[a](b)".to_string()).unwrap();
    let t = tokenizer.next().unwrap();
    assert_eq!((t.get_type(), t.get_value()), pair(TokenType::Bracket, "a"));
    let t = tokenizer.next_unwrap().unwrap();
    assert_eq!((t.get_type(), t.get_value()), pair(TokenType::Paren, "b"));
    assert!(tokenizer.peek().is_none());
    assert!(tokenizer.next().is_none());
    assert!(tokenizer.next().is_none());
}

#[test]
fn tokenizer_reports_end_of_file() {
    let mut tokenizer = Tokenizer::new(String::new()).unwrap();
    assert_eq!(tokenizer.peek_unwrap().err(), Some(Error::UnexpectedEof));
    assert_eq!(tokenizer.next_unwrap().err(), Some(Error::UnexpectedEof));
    assert_eq!(tokenizer.next_unwrap().err(), Some(Error::UnexpectedEof));
}

#[test]
fn collect_does_not_consume() {
    let mut tokenizer = Tokenizer::new("[a](b)c".to_string()).unwrap();
    assert_eq!(tokenizer.collect().len(), 3);
    tokenizer.next();
    assert_eq!(tokenizer.collect().len(), 3);
    let t = tokenizer.peek().unwrap();
    assert_eq!((t.get_type(), t.get_value()), pair(TokenType::Paren, "b"));
}
