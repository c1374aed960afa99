use cobalt::error::Error;

#[test]
fn messages_without_detail() {
    assert_eq!(Error::CouldNotReadFile.message(), "Could not read input file");
    assert_eq!(
        Error::CouldNotFindToml.message(),
        "Could not find configuration file 'cobalt.toml'"
    );
    assert_eq!(Error::TooManyHeadings.message(), "Too many heading symbols '#'");
    assert_eq!(Error::UnexpectedEof.message(), "Unexpected end of file when parsing");
}

#[test]
fn messages_with_detail() {
    let s = || "x.co".to_string();
    assert_eq!(Error::CouldNotWriteFile(s()).message(), "Could not write to file x.co");
    assert_eq!(Error::CouldNotOpenFile(s()).message(), "Could not open file x.co");
    assert_eq!(Error::InvalidConfig(s()).message(), "Invalid configuration sequence: x.co");
    assert_eq!(Error::InvalidCtrlSequence(s()).message(), "Invalid control sequence: x.co");
    assert_eq!(
        Error::ExpectedOpen(s()).message(),
        "Expected opening brace '{', bracket '[', or parenthesis '(', but got x.co"
    );
    assert_eq!(Error::CouldNotParse(s()).message(), "Could not parse near token x.co");
    assert_eq!(Error::ExpectedHeading(s()).message(), "Expected heading, got token x.co");
    assert_eq!(
        Error::ExpectedParen(s()).message(),
        "Expected opening parenthesis '(' but got x.co"
    );
}

#[test]
fn message_with_empty_detail() {
    assert_eq!(Error::CouldNotParse(String::new()).message(), "Could not parse near token ");
}
