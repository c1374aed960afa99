//! Provides a simple Cobalt tokenizer.
//!
//! Tokenizing is one pass over the characters of the source. Between tokens
//! the scanner skips separators and comments; the first character after them
//! decides which token follows. What the pass produces is stated by
//! [`tokenize`], a function from the source text to its tokens.

pub mod laws;
pub mod token;

use vstd::prelude::*;
use crate::error::{Error, ErrorView};
pub use token::{Token, TokenType, TokenView};

verus! {

/// A set of characters at which a scan stops.
#[derive(Clone, Copy, Debug)]
pub enum CharClass {
    /// The one character given.
    Is(char),
    /// Every character but the one given.
    IsNot(char),
    /// The characters that separate tokens: tab and newline.
    Separator,
    /// The characters that end a paragraph: `\`, `#` and `[`.
    ControlCharacter,
    /// The characters that end a control keyword: space, parentheses, brackets
    /// and braces.
    EndOfControl,
}

impl CharClass {
    /// Whether `c` belongs to the class.
    pub open spec fn contains(self, c: char) -> bool {
        match self {
            CharClass::Is(d) => c == d,
            CharClass::IsNot(d) => c != d,
            CharClass::Separator => c == '\t' || c == '\n',
            CharClass::ControlCharacter => c == '\\' || c == '#' || c == '[',
            CharClass::EndOfControl => {
                c == ' ' || c == '(' || c == ')' || c == '[' || c == ']' || c == '{' || c == '}'
            },
        }
    }

    /// Tests whether `c` belongs to the class.
    pub fn has(self, c: char) -> (r: bool)
        ensures
            r == self.contains(c),
    {
        match self {
            CharClass::Is(d) => c == d,
            CharClass::IsNot(d) => c != d,
            CharClass::Separator => c == '\t' || c == '\n',
            CharClass::ControlCharacter => c == '\\' || c == '#' || c == '[',
            CharClass::EndOfControl => {
                c == ' ' || c == '(' || c == ')' || c == '[' || c == ']' || c == '{' || c == '}'
            },
        }
    }
}

/// The number of characters at the head of `s` that come before the first
/// one in `stop`; all of `s` where none is in `stop`.
pub open spec fn span_until(s: Seq<char>, stop: CharClass) -> nat
    decreases s.len(),
{
    if s.len() == 0 || stop.contains(s[0]) {
        0
    } else {
        1 + span_until(s.skip(1), stop)
    }
}

/// `span_until` is the position of the first character in `stop`.
pub proof fn lemma_span_until(s: Seq<char>, stop: CharClass)
    ensures
        span_until(s, stop) <= s.len(),
        span_until(s, stop) < s.len() ==> stop.contains(s[span_until(s, stop) as int]),
        forall|i: int| 0 <= i < span_until(s, stop) ==> !stop.contains(#[trigger] s[i]),
    decreases s.len(),
{
    if s.len() == 0 || stop.contains(s[0]) {
    } else {
        let rest = s.skip(1);
        lemma_span_until(rest, stop);
        assert forall|i: int| 0 <= i < span_until(s, stop) implies !stop.contains(
            #[trigger] s[i],
        ) by {
            if i > 0 {
                assert(s[i] == rest[i - 1]);
            }
        }
    }
}

/// Whether `s` begins with the two slashes that open a comment.
pub open spec fn starts_comment(s: Seq<char>) -> bool {
    s.len() >= 2 && s[0] == '/' && s[1] == '/'
}

/// The number of characters at the head of `s` that the scanner skips before
/// it looks for a token: separators, and comments up to the newline that ends
/// them.
pub open spec fn blank_length(s: Seq<char>) -> nat
    decreases s.len(),
{
    if s.len() == 0 {
        0
    } else if CharClass::Separator.contains(s[0]) {
        1 + blank_length(s.skip(1))
    } else if starts_comment(s) {
        let n = span_until(s, CharClass::Is('\n'));
        proof {
            lemma_comment_length(s);
        }
        n + blank_length(s.skip(n as int))
    } else {
        0
    }
}

/// A comment is at least its two slashes long and ends within the text.
pub proof fn lemma_comment_length(s: Seq<char>)
    requires
        starts_comment(s),
    ensures
        2 <= span_until(s, CharClass::Is('\n')) <= s.len(),
{
    lemma_span_until(s, CharClass::Is('\n'));
    let n = span_until(s, CharClass::Is('\n'));
    if n < 2 {
        assert(CharClass::Is('\n').contains(s[n as int]));
    }
}

/// The scanner never skips more than there is.
pub proof fn lemma_blank_length(s: Seq<char>)
    ensures
        blank_length(s) <= s.len(),
    decreases s.len(),
{
    if s.len() == 0 {
    } else if CharClass::Separator.contains(s[0]) {
        lemma_blank_length(s.skip(1));
    } else if starts_comment(s) {
        lemma_comment_length(s);
        lemma_blank_length(s.skip(span_until(s, CharClass::Is('\n')) as int));
    }
}

/// The text at the head of `s` up to the first `close`, and the number of
/// characters that it takes up: the text, and the `close` that ends it where
/// there is one. Nothing nests and nothing escapes: the first `close` ends
/// the text.
pub open spec fn text_until(s: Seq<char>, close: char) -> (Seq<char>, nat) {
    let n = span_until(s, CharClass::Is(close));
    (s.take(n as int), if n < s.len() { n + 1 } else { n })
}

/// The type of a heading with `hashes` leading `#`, if there is one.
pub open spec fn heading_type(hashes: nat) -> Option<TokenType> {
    if hashes == 1 {
        Some(TokenType::H1)
    } else if hashes == 2 {
        Some(TokenType::H2)
    } else if hashes == 3 {
        Some(TokenType::H3)
    } else if hashes == 4 {
        Some(TokenType::H4)
    } else if hashes == 5 {
        Some(TokenType::H5)
    } else if hashes == 6 {
        Some(TokenType::H6)
    } else {
        None
    }
}

/// The token that begins at the head of `s`, and the number of characters
/// that it takes up. The first character of `s` decides what the token is:
///
/// - `\`: a control keyword, up to the first character that ends one;
/// - `#`: a heading: the run of `#` gives the level (more than six is an
///   error), one space after it is dropped, and the text runs through the
///   end of the line;
/// - `[`, `(`, `{`: a delimited text, through the matching closing character;
/// - anything else: a paragraph, from this character up to the next control
///   character.
pub open spec fn first_token(s: Seq<char>) -> Result<(TokenView, nat), ErrorView>
    recommends
        s.len() > 0,
{
    let c = s[0];
    let rest = s.skip(1);
    if c == '\\' {
        let n = span_until(rest, CharClass::EndOfControl);
        Ok((TokenView { t: TokenType::Ctrl, v: rest.take(n as int) }, 1 + n))
    } else if c == '#' {
        let hashes = span_until(s, CharClass::IsNot('#'));
        let after = s.skip(hashes as int);
        let space: nat = if after.len() > 0 && after[0] == ' ' {
            1
        } else {
            0
        };
        let (text, n) = text_until(after.skip(space as int), '\n');
        match heading_type(hashes) {
            Some(t) => Ok((TokenView { t, v: text }, hashes + space + n)),
            None => Err(ErrorView::TooManyHeadings),
        }
    } else if c == '[' {
        let (text, n) = text_until(rest, ']');
        Ok((TokenView { t: TokenType::Bracket, v: text }, 1 + n))
    } else if c == '(' {
        let (text, n) = text_until(rest, ')');
        Ok((TokenView { t: TokenType::Paren, v: text }, 1 + n))
    } else if c == '{' {
        let (text, n) = text_until(rest, '}');
        Ok((TokenView { t: TokenType::Brace, v: text }, 1 + n))
    } else {
        let n = span_until(rest, CharClass::ControlCharacter);
        Ok((TokenView { t: TokenType::Paragraph, v: s.take(1 + n as int) }, 1 + n))
    }
}

/// A token takes up at least one character, and no more than there are.
pub proof fn lemma_first_token_length(s: Seq<char>)
    requires
        s.len() > 0,
    ensures
        first_token(s) matches Ok((_, n)) ==> 1 <= n <= s.len(),
{
    let rest = s.skip(1);
    lemma_span_until(rest, CharClass::EndOfControl);
    lemma_span_until(rest, CharClass::ControlCharacter);
    lemma_span_until(rest, CharClass::Is(']'));
    lemma_span_until(rest, CharClass::Is(')'));
    lemma_span_until(rest, CharClass::Is('}'));
    if s[0] == '#' {
        lemma_span_until(s, CharClass::IsNot('#'));
        let hashes = span_until(s, CharClass::IsNot('#'));
        let after = s.skip(hashes as int);
        let space: nat = if after.len() > 0 && after[0] == ' ' {
            1
        } else {
            0
        };
        lemma_span_until(after.skip(space as int), CharClass::Is('\n'));
    }
}

/// The tokens of the source text `s`, in order, or the error that stops the
/// scan. The scanner skips what is blank, reads one token, and goes on with
/// what follows it until nothing is left.
pub open spec fn tokenize(s: Seq<char>) -> Result<Seq<TokenView>, ErrorView>
    decreases s.len(),
{
    let rest = s.skip(blank_length(s) as int);
    if rest.len() == 0 {
        Ok(Seq::empty())
    } else {
        match first_token(rest) {
            Err(e) => Err(e),
            Ok((token, n)) => {
                proof {
                    lemma_blank_length(s);
                    lemma_first_token_length(rest);
                }
                match tokenize(rest.skip(n as int)) {
                    Err(e) => Err(e),
                    Ok(tokens) => Ok(seq![token] + tokens),
                }
            },
        }
    }
}

/// The mathematical values of a sequence of tokens.
pub open spec fn token_views(tokens: Seq<Token>) -> Seq<TokenView> {
    tokens.map_values(|t: Token| t@)
}

/// Provides `peek()` and `next()` methods on characters coming in from the Cobalt source file.
pub struct Charstream {
    chars: Vec<char>,
    index: usize,
}

impl Charstream {
    #[verifier::type_invariant]
    spec fn in_bounds(self) -> bool {
        self.index <= self.chars.len()
    }

    /// The characters that the stream has not handed out yet.
    pub closed spec fn remaining(&self) -> Seq<char> {
        self.chars@.skip(self.index as int)
    }

    /// Constructs a new `Charstream` from a `String`.
    pub fn new(source: String) -> (r: Self)
        ensures
            r.remaining() == source@,
    {
        let mut chars: Vec<char> = Vec::new();
        for c in it: source.as_str().chars()
            invariant
                chars@ == it.seq().take(it.index()),
                it.seq() == source@,
        {
            chars.push(c);
        }
        Self { chars, index: 0 }
    }

    /// Returns the next character in the stream, if available, without advancing the stream.
    pub fn peek(&self) -> (r: Option<char>)
        ensures
            r == (if self.remaining().len() > 0 {
                Some(self.remaining()[0])
            } else {
                None
            }),
    {
        proof {
            use_type_invariant(self);
        }
        if self.index >= self.chars.len() {
            None
        } else {
            Some(self.chars[self.index])
        }
    }

    /// Returns the nth character in the stream, if available, without advancing the stream.
    pub fn look_ahead(&self, n: usize) -> (r: Option<char>)
        ensures
            r == (if n < self.remaining().len() {
                Some(self.remaining()[n as int])
            } else {
                None
            }),
    {
        proof {
            use_type_invariant(self);
        }
        if n >= self.chars.len() - self.index {
            None
        } else {
            Some(self.chars[self.index + n])
        }
    }

    /// Returns the next character in the stream, if available.
    pub fn next(&mut self) -> (r: Option<char>)
        ensures
            old(self).remaining().len() > 0 ==> {
                &&& r == Some(old(self).remaining()[0])
                &&& final(self).remaining() == old(self).remaining().skip(1)
            },
            old(self).remaining().len() == 0 ==> {
                &&& r.is_none()
                &&& final(self).remaining() == old(self).remaining()
            },
    {
        proof {
            use_type_invariant(&*self);
        }
        let chr = self.peek();
        if self.index < self.chars.len() {
            self.index += 1;
            assert(self.chars@.skip(self.index as int) =~= self.chars@.skip(
                self.index as int - 1,
            ).skip(1));
        }
        chr
    }
}

/// Tokenizes the Cobalt source file and prepares it for parsing.
pub struct Tokenizer {
    tokens: Vec<Token>,
    index: usize,
}

impl Tokenizer {
    #[verifier::type_invariant]
    spec fn in_bounds(self) -> bool {
        self.index <= self.tokens.len()
    }

    /// All the tokens of the source, whether handed out yet or not.
    pub closed spec fn tokens(&self) -> Seq<TokenView> {
        token_views(self.tokens@)
    }

    /// The tokens that have not been handed out yet.
    pub closed spec fn remaining(&self) -> Seq<TokenView> {
        token_views(self.tokens@).skip(self.index as int)
    }

    /// Constructs a new `Tokenizer` from a `String`: it holds the tokens of
    /// the whole source, none of them handed out.
    pub fn new(source: String) -> (r: Result<Self, Error>)
        ensures
            match tokenize(source@) {
                Ok(tokens) => r matches Ok(t) && t.tokens() == tokens && t.remaining() == tokens,
                Err(e) => r matches Err(x) && x@ == e,
            },
    {
        let mut charstream = Charstream::new(source);
        let mut tokens: Vec<Token> = Vec::new();
        loop
            invariant
                match tokenize(charstream.remaining()) {
                    Ok(more) => tokenize(source@) == Ok::<Seq<TokenView>, ErrorView>(
                        token_views(tokens@) + more,
                    ),
                    Err(e) => tokenize(source@) == Err::<Seq<TokenView>, ErrorView>(e),
                },
            decreases charstream.remaining().len(),
        {
            let ghost s = charstream.remaining();
            proof {
                lemma_blank_length(s);
                if s.skip(blank_length(s) as int).len() > 0 {
                    lemma_first_token_length(s.skip(blank_length(s) as int));
                }
            }
            match Self::next_token(&mut charstream) {
                Err(e) => {
                    return Err(e);
                },
                Ok(None) => {
                    assert(token_views(tokens@) + Seq::<TokenView>::empty() =~= token_views(
                        tokens@,
                    ));
                    assert(token_views(tokens@).skip(0) =~= token_views(tokens@));
                    return Ok(Self { tokens, index: 0 });
                },
                Ok(Some(t)) => {
                    let ghost before = token_views(tokens@);
                    tokens.push(t);
                    proof {
                        assert(token_views(tokens@) =~= before.push(t@));
                        if let Ok(more) = tokenize(charstream.remaining()) {
                            assert(before + (seq![t@] + more) =~= before.push(t@) + more);
                        }
                    }
                },
            }
        }
    }

    /// Skips comments and whitespace.
    pub fn skip_whitespace(charstream: &mut Charstream)
        ensures
            final(charstream).remaining() == old(charstream).remaining().skip(
                blank_length(old(charstream).remaining()) as int,
            ),
    {
        let ghost s = charstream.remaining();
        let ghost mut k: nat = 0;
        assert(s.skip(0) =~= s);
        loop
            invariant
                k <= s.len(),
                charstream.remaining() == s.skip(k as int),
                blank_length(s) == k + blank_length(s.skip(k as int)),
            ensures
                k <= s.len(),
                charstream.remaining() == s.skip(k as int),
                blank_length(s) == k,
            decreases charstream.remaining().len(),
        {
            let ghost here = charstream.remaining();
            match charstream.peek() {
                None => {
                    break ;
                },
                Some(c) => {
                    if CharClass::Separator.has(c) {
                        charstream.next();
                        proof {
                            assert(s.skip(k as int).skip(1) =~= s.skip(k as int + 1));
                            k = k + 1;
                        }
                    } else if c == '/' && charstream.look_ahead(1) == Some('/') {
                        // This is a comment: advance the stream up to `\n`.
                        Self::skip_until(charstream, CharClass::Is('\n'));
                        proof {
                            lemma_comment_length(here);
                            let n = span_until(here, CharClass::Is('\n'));
                            assert(s.skip(k as int).skip(n as int) =~= s.skip(k as int + n));
                            k = k + n;
                        }
                    } else {
                        // A token begins here.
                        break ;
                    }
                },
            }
        }
    }

    /// Drops characters from the stream, up to the first one in `stop`, which
    /// stays in the stream.
    fn skip_until(charstream: &mut Charstream, stop: CharClass)
        ensures
            final(charstream).remaining() == old(charstream).remaining().skip(
                span_until(old(charstream).remaining(), stop) as int,
            ),
    {
        let ghost s = charstream.remaining();
        let ghost mut k: nat = 0;
        assert(s.skip(0) =~= s);
        loop
            invariant
                k <= s.len(),
                charstream.remaining() == s.skip(k as int),
                span_until(s, stop) == k + span_until(s.skip(k as int), stop),
            ensures
                k == span_until(s, stop),
                charstream.remaining() == s.skip(k as int),
            decreases charstream.remaining().len(),
        {
            match charstream.peek() {
                None => {
                    break ;
                },
                Some(c) => {
                    if stop.has(c) {
                        break ;
                    }
                    charstream.next();
                    proof {
                        assert(s.skip(k as int).skip(1) =~= s.skip(k as int + 1));
                        k = k + 1;
                    }
                },
            }
        }
    }

    /// Moves characters from the stream to the end of `current`, up to the
    /// first one in `stop`, which stays in the stream.
    fn take_until(charstream: &mut Charstream, stop: CharClass, current: &mut String)
        ensures
            final(current)@ == old(current)@ + old(charstream).remaining().take(
                span_until(old(charstream).remaining(), stop) as int,
            ),
            final(charstream).remaining() == old(charstream).remaining().skip(
                span_until(old(charstream).remaining(), stop) as int,
            ),
    {
        let ghost s = charstream.remaining();
        let ghost before = current@;
        let ghost mut k: nat = 0;
        assert(s.skip(0) =~= s);
        assert(before + s.take(0) =~= before);
        loop
            invariant
                k <= s.len(),
                charstream.remaining() == s.skip(k as int),
                current@ == before + s.take(k as int),
                span_until(s, stop) == k + span_until(s.skip(k as int), stop),
            ensures
                k == span_until(s, stop),
                charstream.remaining() == s.skip(k as int),
                current@ == before + s.take(k as int),
            decreases charstream.remaining().len(),
        {
            match charstream.peek() {
                None => {
                    break ;
                },
                Some(c) => {
                    if stop.has(c) {
                        break ;
                    }
                    charstream.next();
                    current.push(c);
                    proof {
                        assert(s.skip(k as int).skip(1) =~= s.skip(k as int + 1));
                        assert(before + s.take(k as int + 1) =~= (before + s.take(k as int)).push(
                            c,
                        ));
                        k = k + 1;
                    }
                },
            }
        }
    }

    /// Reads a text from the stream through the first `close`: the text is
    /// returned, the `close` is dropped.
    fn take_through(charstream: &mut Charstream, close: char) -> (r: String)
        ensures
            r@ == text_until(old(charstream).remaining(), close).0,
            final(charstream).remaining() == old(charstream).remaining().skip(
                text_until(old(charstream).remaining(), close).1 as int,
            ),
    {
        let ghost s = charstream.remaining();
        let mut current = String::new();
        Self::take_until(charstream, CharClass::Is(close), &mut current);
        proof {
            lemma_span_until(s, CharClass::Is(close));
            let n = span_until(s, CharClass::Is(close));
            assert(Seq::<char>::empty() + s.take(n as int) =~= s.take(n as int));
            if n < s.len() {
                assert(s.skip(n as int).skip(1) =~= s.skip(n as int + 1));
            }
        }
        charstream.next();
        current
    }

    /// Gets the next token from a character stream, if available.
    pub fn next_token(charstream: &mut Charstream) -> (r: Result<Option<Token>, Error>)
        ensures
            ({
                let s = old(charstream).remaining();
                let rest = s.skip(blank_length(s) as int);
                if rest.len() == 0 {
                    r matches Ok(None) && final(charstream).remaining() == rest
                } else {
                    match first_token(rest) {
                        Ok((token, n)) => {
                            &&& r matches Ok(Some(t)) && t@ == token
                            &&& final(charstream).remaining() == rest.skip(n as int)
                        },
                        Err(e) => r matches Err(x) && x@ == e,
                    }
                }
            }),
    {
        Self::skip_whitespace(charstream);
        let ghost rest = charstream.remaining();

        let nextchar = match charstream.next() {
            Some(n) => n,
            None => {
                return Ok(None);
            },
        };
        let ghost tail = rest.skip(1);

        let token = if nextchar == '\\' {
            // This is Cobalt's primary control operator.
            let mut current = String::new();
            Self::take_until(charstream, CharClass::EndOfControl, &mut current);
            proof {
                let n = span_until(tail, CharClass::EndOfControl);
                lemma_span_until(tail, CharClass::EndOfControl);
                assert(Seq::<char>::empty() + tail.take(n as int) =~= tail.take(n as int));
                assert(rest.skip(1).skip(n as int) =~= rest.skip(1 + n as int));
            }
            Token::new(TokenType::Ctrl, current)
        } else if nextchar == '#' {
            // This represents a heading.
            let mut n: u8 = 1;
            let ghost mut hashes: nat = 1;
            proof {
                assert(rest.skip(0) =~= rest);
            }
            loop
                invariant
                    1 <= hashes <= rest.len(),
                    n == (if hashes < 7 { hashes } else { 7 }),
                    charstream.remaining() == rest.skip(hashes as int),
                    span_until(rest, CharClass::IsNot('#')) == hashes + span_until(
                        rest.skip(hashes as int),
                        CharClass::IsNot('#'),
                    ),
                ensures
                    1 <= hashes <= rest.len(),
                    n == (if hashes < 7 { hashes } else { 7 }),
                    charstream.remaining() == rest.skip(hashes as int),
                    span_until(rest, CharClass::IsNot('#')) == hashes,
                decreases charstream.remaining().len(),
            {
                if charstream.peek() == Some('#') {
                    charstream.next();
                    if n < 7 {
                        n += 1;
                    }
                    proof {
                        assert(rest.skip(hashes as int).skip(1) =~= rest.skip(hashes as int + 1));
                        hashes = hashes + 1;
                    }
                } else {
                    break ;
                }
            }
            let ghost after = charstream.remaining();
            let ghost space: nat = if after.len() > 0 && after[0] == ' ' {
                1
            } else {
                0
            };
            if charstream.peek() == Some(' ') {
                charstream.next();
            }
            proof {
                assert(after.skip(0) =~= after);
            }
            let ghost body = after.skip(space as int);
            let current = Self::take_through(charstream, '\n');
            proof {
                let m = text_until(body, '\n').1;
                lemma_span_until(body, CharClass::Is('\n'));
                assert(rest.skip(hashes as int).skip(space as int).skip(m as int) =~= rest.skip(
                    (hashes + space + m) as int,
                ));
            }
            let t = if n == 1 {
                TokenType::H1
            } else if n == 2 {
                TokenType::H2
            } else if n == 3 {
                TokenType::H3
            } else if n == 4 {
                TokenType::H4
            } else if n == 5 {
                TokenType::H5
            } else if n == 6 {
                TokenType::H6
            } else {
                return Err(Error::TooManyHeadings);
            };
            Token::new(t, current)
        } else if nextchar == '[' {
            // This is a hyperlink's text, or an ID.
            let current = Self::take_through(charstream, ']');
            proof {
                let m = text_until(tail, ']').1;
                lemma_span_until(tail, CharClass::Is(']'));
                assert(rest.skip(1).skip(m as int) =~= rest.skip(1 + m as int));
            }
            Token::new(TokenType::Bracket, current)
        } else if nextchar == '(' {
            // This is a class or a URL.
            let current = Self::take_through(charstream, ')');
            proof {
                let m = text_until(tail, ')').1;
                lemma_span_until(tail, CharClass::Is(')'));
                assert(rest.skip(1).skip(m as int) =~= rest.skip(1 + m as int));
            }
            Token::new(TokenType::Paren, current)
        } else if nextchar == '{' {
            // This is an argument.
            let current = Self::take_through(charstream, '}');
            proof {
                let m = text_until(tail, '}').1;
                lemma_span_until(tail, CharClass::Is('}'));
                assert(rest.skip(1).skip(m as int) =~= rest.skip(1 + m as int));
            }
            Token::new(TokenType::Brace, current)
        } else {
            let mut current = String::new();
            current.push(nextchar);
            Self::take_until(charstream, CharClass::ControlCharacter, &mut current);
            proof {
                let n = span_until(tail, CharClass::ControlCharacter);
                lemma_span_until(tail, CharClass::ControlCharacter);
                assert(Seq::<char>::empty().push(nextchar) + tail.take(n as int) =~= rest.take(
                    1 + n as int,
                ));
                assert(rest.skip(1).skip(n as int) =~= rest.skip(1 + n as int));
            }
            Token::new(TokenType::Paragraph, current)
        };

        Ok(Some(token))
    }

    /// Peeks at the next token in the stream, if available.
    pub fn peek(&self) -> (r: Option<Token>)
        ensures
            match r {
                Some(t) => self.remaining().len() > 0 && t@ == self.remaining()[0],
                None => self.remaining().len() == 0,
            },
    {
        proof {
            use_type_invariant(self);
        }
        if self.index >= self.tokens.len() {
            None
        } else {
            Some(self.tokens[self.index].clone())
        }
    }

    /// Peeks at the next token if available and reports an unexpected end of
    /// file otherwise.
    pub fn peek_unwrap(&self) -> (r: Result<Token, Error>)
        ensures
            match r {
                Ok(t) => self.remaining().len() > 0 && t@ == self.remaining()[0],
                Err(e) => self.remaining().len() == 0 && e == Error::UnexpectedEof,
            },
    {
        match self.peek() {
            Some(t) => Ok(t),
            None => Err(Error::UnexpectedEof),
        }
    }

    /// Gets the next token in the stream, if available.
    pub fn next(&mut self) -> (r: Option<Token>)
        ensures
            final(self).tokens() == old(self).tokens(),
            match r {
                Some(t) => old(self).remaining().len() > 0 && t@ == old(self).remaining()[0]
                    && final(self).remaining() == old(self).remaining().skip(1),
                None => {
                    &&& old(self).remaining().len() == 0
                    &&& final(self).remaining() == old(self).remaining()
                },
            },
    {
        proof {
            use_type_invariant(&*self);
        }
        let token = self.peek();
        if self.index < self.tokens.len() {
            self.index += 1;
            assert(token_views(self.tokens@).skip(self.index as int) =~= token_views(
                self.tokens@,
            ).skip(self.index as int - 1).skip(1));
        }
        token
    }

    /// Gets the next token if available and reports an unexpected end of file
    /// otherwise.
    pub fn next_unwrap(&mut self) -> (r: Result<Token, Error>)
        ensures
            final(self).tokens() == old(self).tokens(),
            match r {
                Ok(t) => old(self).remaining().len() > 0 && t@ == old(self).remaining()[0]
                    && final(self).remaining() == old(self).remaining().skip(1),
                Err(e) => old(self).remaining().len() == 0 && e == Error::UnexpectedEof
                    && final(self).remaining() == old(self).remaining(),
            },
    {
        match self.next() {
            Some(t) => Ok(t),
            None => Err(Error::UnexpectedEof),
        }
    }

    /// Collects all tokens into a `Vec`.  This *does not* consume the tokenizer.
    pub fn collect(&self) -> (r: Vec<Token>)
        ensures
            token_views(r@) == self.tokens(),
    {
        let mut all: Vec<Token> = Vec::new();
        let mut i: usize = 0;
        while i < self.tokens.len()
            invariant
                i <= self.tokens.len(),
                token_views(all@) == token_views(self.tokens@).take(i as int),
            decreases self.tokens.len() - i,
        {
            let ghost before = token_views(all@);
            let token = self.tokens[i].clone();
            all.push(token);
            i += 1;
            assert(token_views(all@) =~= before.push(token@));
            assert(token_views(self.tokens@).take(i as int) =~= before.push(token@));
        }
        assert(token_views(self.tokens@).take(i as int) =~= token_views(self.tokens@));
        all
    }
}

} // verus!
