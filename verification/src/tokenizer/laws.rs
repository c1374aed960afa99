//! Laws of the scan: what holds of the tokens of every source text.

use vstd::prelude::*;
use crate::error::ErrorView;
use crate::tokenizer::{
    blank_length,
    first_token,
    heading_type,
    lemma_blank_length,
    lemma_comment_length,
    lemma_first_token_length,
    lemma_span_until,
    span_until,
    starts_comment,
    text_until,
    tokenize,
    CharClass,
    TokenView,
};

verus! {

/// The characters of the source that one step of the scan takes: those from
/// `from` up to `start` are skipped as blank, and those from `start` up to
/// `end` are read as one token.
pub struct Span {
    pub from: int,
    pub start: int,
    pub end: int,
}

/// The spans of the tokens of `s` that the scanner reads from position `at`
/// on, in order.
pub open spec fn spans_from(s: Seq<char>, at: int) -> Seq<Span>
    decreases s.len() - at,
{
    if 0 <= at <= s.len() {
        let start = at + blank_length(s.skip(at));
        if start >= s.len() {
            Seq::empty()
        } else {
            match first_token(s.skip(start)) {
                Err(_) => Seq::empty(),
                Ok((_, n)) => {
                    proof {
                        lemma_first_token_length(s.skip(start));
                    }
                    seq![Span { from: at, start, end: start + n }] + spans_from(s, start + n)
                },
            }
        }
    } else {
        Seq::empty()
    }
}

/// The position up to which spans that begin at `at` reach.
pub open spec fn reach(spans: Seq<Span>, at: int) -> int {
    if spans.len() == 0 {
        at
    } else {
        spans.last().end
    }
}

/// The scan from position `at` on: the spans of the tokens lie one after
/// the other from `at`, each is read as the token in its place, and what
/// follows the last of them is blank.
proof fn lemma_spans_from(s: Seq<char>, at: int)
    requires
        0 <= at <= s.len(),
        tokenize(s.skip(at)) is Ok,
    ensures
        ({
            let tokens = tokenize(s.skip(at))->Ok_0;
            let spans = spans_from(s, at);
            &&& spans.len() == tokens.len()
            &&& forall|k: int|
                0 <= k < spans.len() ==> {
                    &&& (#[trigger] spans[k]).from == reach(spans.take(k), at)
                    &&& spans[k].from <= spans[k].start < spans[k].end <= s.len()
                    &&& spans[k].start == spans[k].from + blank_length(s.skip(spans[k].from))
                    &&& first_token(s.skip(spans[k].start)) == Ok::<(TokenView, nat), ErrorView>(
                        (tokens[k], (spans[k].end - spans[k].start) as nat),
                    )
                }
            &&& at <= reach(spans, at) <= s.len()
            &&& reach(spans, at) + blank_length(s.skip(reach(spans, at))) == s.len()
        }),
    decreases s.len() - at,
{
    let here = s.skip(at);
    lemma_blank_length(here);
    let start = at + blank_length(here);
    assert(here.skip(blank_length(here) as int) =~= s.skip(start));
    let rest = s.skip(start);
    if rest.len() == 0 {
    } else {
        lemma_first_token_length(rest);
        let (token, n) = first_token(rest)->Ok_0;
        let end = start + n;
        assert(rest.skip(n as int) =~= s.skip(end));
        lemma_spans_from(s, end);
        let first = Span { from: at, start, end };
        let later = spans_from(s, end);
        let spans = spans_from(s, at);
        let tokens = tokenize(here)->Ok_0;
        let later_tokens = tokenize(s.skip(end))->Ok_0;
        assert(spans == seq![first] + later);
        assert(tokens == seq![token] + later_tokens);
        assert forall|k: int| 0 <= k < spans.len() implies {
            &&& (#[trigger] spans[k]).from == reach(spans.take(k), at)
            &&& spans[k].from <= spans[k].start < spans[k].end <= s.len()
            &&& spans[k].start == spans[k].from + blank_length(s.skip(spans[k].from))
            &&& first_token(s.skip(spans[k].start)) == Ok::<(TokenView, nat), ErrorView>(
                (tokens[k], (spans[k].end - spans[k].start) as nat),
            )
        } by {
            if k == 0 {
                assert(spans.take(0).len() == 0);
            } else {
                assert(spans[k] == later[k - 1]);
                assert(tokens[k] == later_tokens[k - 1]);
                if k == 1 {
                    assert(later.take(0).len() == 0);
                    assert(spans.take(1).last() == first);
                } else {
                    assert(spans.take(k).last() == later.take(k - 1).last());
                }
            }
        }
        if later.len() > 0 {
            assert(spans.last() == later.last());
        }
    }
}

/// The scan covers the source from left to right, with no gap and no
/// overlap. The spans of the tokens lie one after the other: the first
/// begins at the start of the source, each of the others where the one
/// before it ends, and every one holds at least one character. Each span is
/// the blank that the scanner skips and then the characters of the token in
/// its place. What follows the last span, up to the end of the source, is
/// blank.
pub proof fn lemma_scan_covers(s: Seq<char>)
    requires
        tokenize(s) is Ok,
    ensures
        ({
            let tokens = tokenize(s)->Ok_0;
            let spans = spans_from(s, 0);
            let end = reach(spans, 0);
            &&& spans.len() == tokens.len()
            &&& spans.len() > 0 ==> spans[0].from == 0
            &&& forall|k: int|
                0 < k < spans.len() ==> (#[trigger] spans[k]).from == spans[k - 1].end
            &&& forall|k: int|
                0 <= k < spans.len() ==> {
                    &&& (#[trigger] spans[k]).from <= spans[k].start < spans[k].end <= s.len()
                    &&& spans[k].start == spans[k].from + blank_length(s.skip(spans[k].from))
                    &&& first_token(s.skip(spans[k].start)) == Ok::<(TokenView, nat), ErrorView>(
                        (tokens[k], (spans[k].end - spans[k].start) as nat),
                    )
                }
            &&& 0 <= end <= s.len()
            &&& end + blank_length(s.skip(end)) == s.len()
        }),
{
    assert(s.skip(0) =~= s);
    lemma_spans_from(s, 0);
    let spans = spans_from(s, 0);
    if spans.len() > 0 {
        assert(spans.take(0).len() == 0);
    }
    assert forall|k: int| 0 < k < spans.len() implies (#[trigger] spans[k]).from == spans[k
        - 1].end by {
        assert(spans.take(k).last() == spans[k - 1]);
    }
}

/// A heading has at most six `#`: a run of `hashes` of them at the head of
/// `s` gives a heading of that level where `hashes` is at most six, and is
/// an error where it is more.
pub proof fn lemma_heading_level(s: Seq<char>)
    requires
        s.len() > 0,
        s[0] == '#',
    ensures
        ({
            let hashes = span_until(s, CharClass::IsNot('#'));
            &&& hashes >= 1
            &&& hashes <= 6 ==> (first_token(s) matches Ok((token, _)) && token.t.level() == hashes)
            &&& hashes > 6 ==> first_token(s) == Err::<(TokenView, nat), ErrorView>(
                ErrorView::TooManyHeadings,
            )
        }),
{
    let hashes = span_until(s, CharClass::IsNot('#'));
    assert(heading_type(hashes) is Some <==> 1 <= hashes <= 6);
}

/// The position of the first character in `stop` is `span_until`: where no
/// character of `s` before position `k` is in `stop`, and the one at `k` is,
/// or `s` ends there, `span_until` is `k`.
pub proof fn lemma_span_until_is(s: Seq<char>, stop: CharClass, k: int)
    requires
        0 <= k <= s.len(),
        forall|i: int| 0 <= i < k ==> !stop.contains(#[trigger] s[i]),
        k < s.len() ==> stop.contains(s[k]),
    ensures
        span_until(s, stop) == k,
    decreases k,
{
    if k > 0 {
        let rest = s.skip(1);
        assert(!stop.contains(s[0]));
        assert forall|i: int| 0 <= i < k - 1 implies !stop.contains(#[trigger] rest[i]) by {
            assert(rest[i] == s[i + 1]);
        }
        lemma_span_until_is(rest, stop, k - 1);
    }
}

/// A span that ends before position `m` is the same in every text with the
/// same first `m` characters.
proof fn lemma_span_until_agrees(a: Seq<char>, b: Seq<char>, stop: CharClass, m: int)
    requires
        0 <= m <= a.len(),
        m <= b.len(),
        forall|i: int| 0 <= i < m ==> a[i] == b[i],
        span_until(a, stop) < m,
    ensures
        span_until(b, stop) == span_until(a, stop),
{
    lemma_span_until(a, stop);
    let k = span_until(a, stop) as int;
    assert forall|i: int| 0 <= i < k implies !stop.contains(#[trigger] b[i]) by {
        assert(b[i] == a[i]);
    }
    assert(b[k] == a[k]);
    lemma_span_until_is(b, stop, k);
}

/// A span that reaches no further than position `m`, where a character
/// stands that is not in `stop`, ends before `m`.
proof fn lemma_span_until_before(a: Seq<char>, b: Seq<char>, stop: CharClass, m: int)
    requires
        0 <= m < a.len(),
        m <= b.len(),
        forall|i: int| 0 <= i < m ==> a[i] == b[i],
        !stop.contains(a[m]),
        span_until(a, stop) <= m,
    ensures
        span_until(a, stop) < m,
        span_until(b, stop) == span_until(a, stop),
{
    lemma_span_until(a, stop);
    lemma_span_until_agrees(a, b, stop, m);
}

/// A text that is closed within the first `m` characters is the same in
/// every text with the same first `m` characters.
proof fn lemma_text_until_agrees(a: Seq<char>, b: Seq<char>, close: char, m: int)
    requires
        0 <= m < a.len(),
        m <= b.len(),
        forall|i: int| 0 <= i < m ==> a[i] == b[i],
        text_until(a, close).1 <= m,
    ensures
        text_until(b, close) == text_until(a, close),
{
    lemma_span_until(a, CharClass::Is(close));
    lemma_span_until_agrees(a, b, CharClass::Is(close), m);
    let r = span_until(a, CharClass::Is(close)) as int;
    assert(a.take(r) =~= b.take(r));
}

/// A token that ends within the first `m` characters of `a`, with a slash
/// after them, is the same token in every text with the same first `m`
/// characters.
proof fn lemma_first_token_agrees(a: Seq<char>, b: Seq<char>, m: int)
    requires
        1 <= m < a.len(),
        m <= b.len(),
        forall|i: int| 0 <= i < m ==> a[i] == b[i],
        a[m] == '/',
        first_token(a) matches Ok((_, n)) && n <= m,
    ensures
        first_token(b) == first_token(a),
{
    let c = a[0];
    assert(b[0] == c);
    let rest_a = a.skip(1);
    let rest_b = b.skip(1);
    assert forall|i: int| 0 <= i < m - 1 implies rest_a[i] == rest_b[i] by {
        assert(rest_a[i] == a[i + 1]);
        assert(rest_b[i] == b[i + 1]);
    }
    assert(rest_a[m - 1] == '/');
    if c == '\\' {
        lemma_span_until_before(rest_a, rest_b, CharClass::EndOfControl, m - 1);
        let r = span_until(rest_a, CharClass::EndOfControl) as int;
        assert(rest_a.take(r) =~= rest_b.take(r));
    } else if c == '#' {
        let stop = CharClass::IsNot('#');
        lemma_span_until(a, stop);
        let h = span_until(a, stop) as int;
        let after_a = a.skip(h);
        let space_a: nat = if after_a.len() > 0 && after_a[0] == ' ' {
            1
        } else {
            0
        };
        let body_a = after_a.skip(space_a as int);
        lemma_span_until(body_a, CharClass::Is('\n'));
        assert(h + space_a + text_until(body_a, '\n').1 <= m);
        if h + space_a == m {
            assert(body_a =~= a.skip(m));
            assert(body_a[0] == '/');
            assert(span_until(body_a, CharClass::Is('\n')) >= 1);
        }
        assert(h + space_a < m);
        lemma_span_until_agrees(a, b, stop, m);
        let after_b = b.skip(h);
        assert(after_b[0] == after_a[0]);
        let body_b = after_b.skip(space_a as int);
        assert(body_a =~= a.skip(h + space_a));
        assert(body_b =~= b.skip(h + space_a));
        let w = m - h - space_a;
        assert forall|i: int| 0 <= i < w implies body_a[i] == body_b[i] by {
            assert(body_a[i] == a[i + h + space_a]);
            assert(body_b[i] == b[i + h + space_a]);
        }
        lemma_text_until_agrees(body_a, body_b, '\n', w);
    } else if c == '[' {
        lemma_text_until_agrees(rest_a, rest_b, ']', m - 1);
    } else if c == '(' {
        lemma_text_until_agrees(rest_a, rest_b, ')', m - 1);
    } else if c == '{' {
        lemma_text_until_agrees(rest_a, rest_b, '}', m - 1);
    } else {
        lemma_span_until_before(rest_a, rest_b, CharClass::ControlCharacter, m - 1);
        let r = span_until(rest_a, CharClass::ControlCharacter) as int;
        assert(a.take(1 + r) =~= b.take(1 + r));
    }
}

/// A run of `#` that is too long within the first `m` characters of `a`,
/// with a slash after them, is too long in every text with the same first
/// `m` characters and no `#` after them.
proof fn lemma_first_token_fails(a: Seq<char>, b: Seq<char>, m: int)
    requires
        1 <= m < a.len(),
        m < b.len(),
        forall|i: int| 0 <= i < m ==> a[i] == b[i],
        a[m] == '/',
        b[m] != '#',
        first_token(a) is Err,
    ensures
        first_token(b) == first_token(a),
{
    let stop = CharClass::IsNot('#');
    assert(b[0] == a[0]);
    lemma_span_until(a, stop);
    let h = span_until(a, stop) as int;
    if h > m {
        assert(!stop.contains(a[m]));
    }
    if h < m {
        lemma_span_until_agrees(a, b, stop, m);
    } else {
        assert forall|i: int| 0 <= i < m implies !stop.contains(#[trigger] b[i]) by {
            assert(b[i] == a[i]);
        }
        lemma_span_until_is(b, stop, m);
    }
}

/// A separator at the head of the source changes no token.
pub proof fn lemma_tokenize_separator(s: Seq<char>)
    requires
        s.len() > 0,
        CharClass::Separator.contains(s[0]),
    ensures
        tokenize(s) == tokenize(s.skip(1)),
{
    let rest = s.skip(1);
    lemma_blank_length(rest);
    assert(s.skip(blank_length(s) as int) =~= rest.skip(blank_length(rest) as int));
}

/// A comment at the head of the source changes no token: the scan goes on
/// at the newline that ends it.
pub proof fn lemma_tokenize_comment(s: Seq<char>)
    requires
        starts_comment(s),
    ensures
        tokenize(s) == tokenize(s.skip(span_until(s, CharClass::Is('\n')) as int)),
{
    lemma_comment_length(s);
    let n = span_until(s, CharClass::Is('\n')) as int;
    let rest = s.skip(n);
    lemma_blank_length(rest);
    assert(s.skip(blank_length(s) as int) =~= rest.skip(blank_length(rest) as int));
}

/// Where the source begins with a token, its tokens are that one and those
/// of what follows it.
pub proof fn lemma_tokenize_token(s: Seq<char>)
    requires
        s.len() > 0,
        !CharClass::Separator.contains(s[0]),
        !starts_comment(s),
    ensures
        tokenize(s) == match first_token(s) {
            Err(e) => Err::<Seq<TokenView>, ErrorView>(e),
            Ok((token, n)) => match tokenize(s.skip(n as int)) {
                Err(e) => Err(e),
                Ok(tokens) => Ok(seq![token] + tokens),
            },
        },
{
    assert(s.skip(0) =~= s);
}

/// The source in which a comment, closed by its newline, stands between
/// `text` and `more`.
pub open spec fn with_comment(text: Seq<char>, comment: Seq<char>, more: Seq<char>) -> Seq<char> {
    text + seq!['/', '/'] + comment + seq!['\n'] + more
}

/// Whether a comment can begin at position `p` of `s`: the scanner, reading
/// `s` from its start, has `p` outside every token. That is so where it
/// looks for a token at `p`, where `p` lies in a comment behind its two
/// slashes, and where the scan has failed before `p`, so that no token is
/// read there.
pub open spec fn outside_tokens(s: Seq<char>, p: int) -> bool
    decreases s.len(),
{
    if p <= 0 {
        p == 0
    } else if s.len() == 0 {
        false
    } else if CharClass::Separator.contains(s[0]) {
        outside_tokens(s.skip(1), p - 1)
    } else if starts_comment(s) {
        let n = span_until(s, CharClass::Is('\n'));
        proof {
            lemma_comment_length(s);
        }
        if p < n {
            2 <= p
        } else {
            outside_tokens(s.skip(n as int), p - n)
        }
    } else {
        match first_token(s) {
            Err(_) => true,
            Ok((_, n)) => {
                proof {
                    lemma_first_token_length(s);
                }
                n <= p && outside_tokens(s.skip(n as int), p - n)
            },
        }
    }
}

/// Whether `a` holds, from position `p` on, a comment that its newline
/// closes at position `end`, and `b` is `a` without the comment: the same up
/// to `p`, and from there on what `a` is from `end` on.
spec fn comment_cut(a: Seq<char>, b: Seq<char>, p: int, end: int) -> bool {
    &&& 0 <= p
    &&& p + 2 <= end < a.len()
    &&& p < b.len()
    &&& forall|i: int| 0 <= i < p ==> a[i] == b[i]
    &&& a[p] == '/'
    &&& a[p + 1] == '/'
    &&& forall|i: int| p <= i < end ==> a[i] != '\n'
    &&& a[end] == '\n'
    &&& b[p] == '\n'
    &&& a.skip(end) == b.skip(p)
}

/// A cut comment stays one where the same characters are dropped from the
/// head of both texts.
proof fn lemma_comment_cut_skip(a: Seq<char>, b: Seq<char>, p: int, end: int, k: int)
    requires
        comment_cut(a, b, p, end),
        0 <= k <= p,
    ensures
        comment_cut(a.skip(k), b.skip(k), p - k, end - k),
{
    let a2 = a.skip(k);
    let b2 = b.skip(k);
    assert forall|i: int| 0 <= i < p - k implies a2[i] == b2[i] by {
        assert(a2[i] == a[i + k]);
        assert(b2[i] == b[i + k]);
    }
    assert forall|i: int| p - k <= i < end - k implies a2[i] != '\n' by {
        assert(a2[i] == a[i + k]);
    }
    assert(a2.skip(end - k) =~= a.skip(end));
    assert(b2.skip(p - k) =~= b.skip(p));
}

/// Where the comment stands at the head of the text, the scan goes on
/// behind it.
proof fn lemma_comment_cut_at_head(a: Seq<char>, b: Seq<char>, end: int)
    requires
        comment_cut(a, b, 0, end),
    ensures
        tokenize(a) == tokenize(b),
{
    lemma_span_until_is(a, CharClass::Is('\n'), end);
    lemma_tokenize_comment(a);
    assert(b.skip(0) =~= b);
}

/// Where the comment stands in an earlier comment, behind its slashes, the
/// two are one comment.
proof fn lemma_comment_cut_in_comment(a: Seq<char>, b: Seq<char>, p: int, end: int)
    requires
        comment_cut(a, b, p, end),
        starts_comment(a),
        2 <= p < span_until(a, CharClass::Is('\n')),
    ensures
        tokenize(a) == tokenize(b),
{
    let newline = CharClass::Is('\n');
    lemma_span_until(a, newline);
    lemma_tokenize_comment(a);
    assert forall|i: int| 0 <= i < end implies !newline.contains(#[trigger] a[i]) by {}
    lemma_span_until_is(a, newline, end);
    assert forall|i: int| 0 <= i < p implies !newline.contains(#[trigger] b[i]) by {
        assert(b[i] == a[i]);
    }
    lemma_span_until_is(b, newline, p);
    assert(b[0] == a[0] && b[1] == a[1]);
    lemma_tokenize_comment(b);
}

/// Where an earlier comment ends before the cut one, both texts go on
/// behind it.
proof fn lemma_comment_cut_after_comment(a: Seq<char>, b: Seq<char>, p: int, end: int)
    requires
        comment_cut(a, b, p, end),
        starts_comment(a),
        span_until(a, CharClass::Is('\n')) <= p,
    ensures
        span_until(a, CharClass::Is('\n')) < p,
        tokenize(a) == tokenize(a.skip(span_until(a, CharClass::Is('\n')) as int)),
        tokenize(b) == tokenize(b.skip(span_until(a, CharClass::Is('\n')) as int)),
{
    let newline = CharClass::Is('\n');
    lemma_comment_length(a);
    lemma_span_until(a, newline);
    lemma_tokenize_comment(a);
    lemma_span_until_agrees(a, b, newline, p);
    assert(b[0] == a[0] && b[1] == a[1]);
    lemma_tokenize_comment(b);
}

/// Where a token stands at the head of the text and ends before the cut
/// comment, it stands at the head of both texts; where the scan fails there,
/// it fails in both.
proof fn lemma_comment_cut_after_token(a: Seq<char>, b: Seq<char>, p: int, end: int)
    requires
        comment_cut(a, b, p, end),
        1 <= p,
        !CharClass::Separator.contains(a[0]),
        !starts_comment(a),
        first_token(a) matches Ok((_, n)) ==> n <= p,
    ensures
        first_token(b) == first_token(a),
        b.len() > 0,
        !CharClass::Separator.contains(b[0]),
        !starts_comment(b),
{
    assert(b[0] == a[0]);
    if p >= 2 {
        assert(b[1] == a[1]);
    }
    match first_token(a) {
        Err(_) => {
            lemma_first_token_fails(a, b, p);
        },
        Ok(_) => {
            lemma_first_token_agrees(a, b, p);
        },
    }
}

/// The text with a cut comment has the tokens of the text without it, where
/// the comment begins outside every token.
proof fn lemma_comment_cut(a: Seq<char>, b: Seq<char>, p: int, end: int)
    requires
        comment_cut(a, b, p, end),
        outside_tokens(a, p),
    ensures
        tokenize(a) == tokenize(b),
    decreases p,
{
    if p == 0 {
        lemma_comment_cut_at_head(a, b, end);
    } else if CharClass::Separator.contains(a[0]) {
        assert(b[0] == a[0]);
        lemma_tokenize_separator(a);
        lemma_tokenize_separator(b);
        lemma_comment_cut_skip(a, b, p, end, 1);
        lemma_comment_cut(a.skip(1), b.skip(1), p - 1, end - 1);
    } else if starts_comment(a) {
        let n = span_until(a, CharClass::Is('\n')) as int;
        if p < n {
            lemma_comment_cut_in_comment(a, b, p, end);
        } else {
            lemma_comment_cut_after_comment(a, b, p, end);
            lemma_comment_cut_skip(a, b, p, end, n);
            lemma_comment_cut(a.skip(n), b.skip(n), p - n, end - n);
        }
    } else {
        lemma_comment_cut_after_token(a, b, p, end);
        lemma_tokenize_token(a);
        lemma_tokenize_token(b);
        match first_token(a) {
            Err(_) => {},
            Ok((_, n)) => {
                lemma_first_token_length(a);
                lemma_comment_cut_skip(a, b, p, end, n as int);
                lemma_comment_cut(a.skip(n as int), b.skip(n as int), p - n, end - n);
            },
        }
    }
}

/// A comment contributes nothing to the tokens: the source in which a
/// comment stands between `text` and `more` has the tokens of the source
/// without it, where the comment begins outside every token.
pub proof fn lemma_comment_stripped(text: Seq<char>, comment: Seq<char>, more: Seq<char>)
    requires
        !comment.contains('\n'),
        outside_tokens(with_comment(text, comment, more), text.len() as int),
    ensures
        tokenize(with_comment(text, comment, more)) == tokenize(text + seq!['\n'] + more),
{
    let a = with_comment(text, comment, more);
    let b = text + seq!['\n'] + more;
    let p = text.len() as int;
    let end = p + 2 + comment.len();
    assert forall|i: int| 0 <= i < p implies a[i] == b[i] by {
        assert(a[i] == text[i]);
        assert(b[i] == text[i]);
    }
    assert forall|i: int| p <= i < end implies a[i] != '\n' by {
        if i >= p + 2 {
            assert(a[i] == comment[i - p - 2]);
            assert(comment.contains(comment[i - p - 2]));
        }
    }
    assert(a.skip(end) =~= b.skip(p));
    lemma_comment_cut(a, b, p, end);
}

} // verus!
