//! Provides the errors of the Cobalt compiler.

use vstd::prelude::*;

verus! {

/// Enumerates the types of errors reported by the Cobalt compiler.
#[derive(Debug, PartialEq, Eq)]
pub enum Error {
    CouldNotReadFile,
    CouldNotFindToml,
    CouldNotWriteFile(String),
    CouldNotOpenFile(String),
    InvalidConfig(String),
    InvalidCtrlSequence(String),
    TooManyHeadings,
    UnexpectedEof,
    ExpectedOpen(String),
    CouldNotParse(String),
    ExpectedHeading(String),
    ExpectedParen(String),
}

/// An error as a mathematical value: the text it carries is a sequence of
/// characters.
pub enum ErrorView {
    CouldNotReadFile,
    CouldNotFindToml,
    CouldNotWriteFile(Seq<char>),
    CouldNotOpenFile(Seq<char>),
    InvalidConfig(Seq<char>),
    InvalidCtrlSequence(Seq<char>),
    TooManyHeadings,
    UnexpectedEof,
    ExpectedOpen(Seq<char>),
    CouldNotParse(Seq<char>),
    ExpectedHeading(Seq<char>),
    ExpectedParen(Seq<char>),
}

impl View for Error {
    type V = ErrorView;

    open spec fn view(&self) -> ErrorView {
        match self {
            Error::CouldNotReadFile => ErrorView::CouldNotReadFile,
            Error::CouldNotFindToml => ErrorView::CouldNotFindToml,
            Error::CouldNotWriteFile(s) => ErrorView::CouldNotWriteFile(s@),
            Error::CouldNotOpenFile(s) => ErrorView::CouldNotOpenFile(s@),
            Error::InvalidConfig(s) => ErrorView::InvalidConfig(s@),
            Error::InvalidCtrlSequence(s) => ErrorView::InvalidCtrlSequence(s@),
            Error::TooManyHeadings => ErrorView::TooManyHeadings,
            Error::UnexpectedEof => ErrorView::UnexpectedEof,
            Error::ExpectedOpen(s) => ErrorView::ExpectedOpen(s@),
            Error::CouldNotParse(s) => ErrorView::CouldNotParse(s@),
            Error::ExpectedHeading(s) => ErrorView::ExpectedHeading(s@),
            Error::ExpectedParen(s) => ErrorView::ExpectedParen(s@),
        }
    }
}

impl ErrorView {
    /// The description shown to the user for this error.
    pub open spec fn message(self) -> Seq<char> {
        match self {
            ErrorView::CouldNotReadFile => "Could not read input file"@,
            ErrorView::CouldNotFindToml => "Could not find configuration file 'cobalt.toml'"@,
            ErrorView::CouldNotWriteFile(s) => "Could not write to file "@ + s,
            ErrorView::CouldNotOpenFile(s) => "Could not open file "@ + s,
            ErrorView::InvalidConfig(s) => "Invalid configuration sequence: "@ + s,
            ErrorView::InvalidCtrlSequence(s) => "Invalid control sequence: "@ + s,
            ErrorView::TooManyHeadings => "Too many heading symbols '#'"@,
            ErrorView::UnexpectedEof => "Unexpected end of file when parsing"@,
            ErrorView::ExpectedOpen(s) => {
                "Expected opening brace '{', bracket '[', or parenthesis '(', but got "@ + s
            },
            ErrorView::CouldNotParse(s) => "Could not parse near token "@ + s,
            ErrorView::ExpectedHeading(s) => "Expected heading, got token "@ + s,
            ErrorView::ExpectedParen(s) => "Expected opening parenthesis '(' but got "@ + s,
        }
    }
}

/// Joins a fixed piece of text and a piece that an error carries.
fn with_detail(text: &str, detail: &String) -> (r: String)
    ensures
        r@ == text@ + detail@,
{
    let mut message = text.to_owned();
    message.append(detail.as_str());
    message
}

impl Error {
    /// Describes the error in words, for the user.
    pub fn message(&self) -> (r: String)
        ensures
            r@ == self@.message(),
    {
        match self {
            Error::CouldNotReadFile => "Could not read input file".to_owned(),
            Error::CouldNotFindToml => {
                "Could not find configuration file 'cobalt.toml'".to_owned()
            },
            Error::CouldNotWriteFile(s) => with_detail("Could not write to file ", s),
            Error::CouldNotOpenFile(s) => with_detail("Could not open file ", s),
            Error::InvalidConfig(s) => with_detail("Invalid configuration sequence: ", s),
            Error::InvalidCtrlSequence(s) => with_detail("Invalid control sequence: ", s),
            Error::TooManyHeadings => "Too many heading symbols '#'".to_owned(),
            Error::UnexpectedEof => "Unexpected end of file when parsing".to_owned(),
            Error::ExpectedOpen(s) => with_detail(
                "Expected opening brace '{', bracket '[', or parenthesis '(', but got ",
                s,
            ),
            Error::CouldNotParse(s) => with_detail("Could not parse near token ", s),
            Error::ExpectedHeading(s) => with_detail("Expected heading, got token ", s),
            Error::ExpectedParen(s) => with_detail("Expected opening parenthesis '(' but got ", s),
        }
    }
}

} // verus!
