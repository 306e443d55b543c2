use vstd::prelude::*;

use crate::lexer::{
    is_qdtext, is_quoted_pair_char, lemma_quoted_scan_bounds, lemma_token_end_bounds, ows_end,
    quoted_scan, token_end, BACKSLASH, DQUOTE, HTAB, SP,
};
use crate::q_value::{digit, QValue, DIGIT_NINE, DIGIT_ZERO};

verus! {

/// The error reported when the input does not follow the expected grammar
/// production at the current position.
#[derive(Debug, PartialEq)]
pub struct ParseError;

pub type ParseResult<O> = Result<O, ParseError>;

/// An index into an input byte slice, advanced monotonically while lexing.
#[derive(Debug, PartialEq, Clone, Copy)]
pub struct Cursor(pub usize);

impl Cursor {
    /// True when the cursor stands at or past the end of `input`.
    pub fn eof(&self, input: &[u8]) -> (r: bool)
        ensures
            r == (self.0 >= input@.len()),
    {
        self.0 >= input.len()
    }

    /// The byte under the cursor, or `None` at end of input.
    pub fn peek(&self, input: &[u8]) -> (r: Option<u8>)
        ensures
            (if self.0 < input@.len() {
                r == Some(input@[self.0 as int])
            } else {
                r is None
            }),
    {
        if self.0 < input.len() {
            Some(input[self.0])
        } else {
            None
        }
    }

    /// Moves the cursor `n` bytes forward.
    pub fn advance(&mut self, n: usize)
        requires
            old(self).0 + n <= usize::MAX,
        ensures
            final(self).0 == old(self).0 + n,
    {
        self.0 = self.0 + n;
    }

    /// The bytes between this cursor and `end`, borrowed from `input`.
    pub fn slice<'a>(&self, input: &'a [u8], end: Cursor) -> (r: &'a [u8])
        requires
            self.0 <= end.0 <= input@.len(),
        ensures
            r@ == input@.subrange(self.0 as int, end.0 as int),
    {
        vstd::slice::slice_subrange(input, self.0, end.0)
    }
}

/// True when `b` is an ASCII decimal digit.
pub fn is_digit(b: u8) -> (r: bool)
    ensures
        r == digit(b),
{
    DIGIT_ZERO <= b && b <= DIGIT_NINE
}

/// Consumes the single byte `b` at the cursor; fails with the cursor
/// unchanged when another byte, or the end of input, stands there.
pub fn byte(input: &[u8], c: &mut Cursor, b: u8) -> (r: ParseResult<()>)
    requires
        old(c).0 <= input@.len(),
    ensures
        (if old(c).0 < input@.len() && input@[old(c).0 as int] == b {
            final(c).0 == old(c).0 + 1 && r is Ok
        } else {
            *final(c) == *old(c) && r is Err
        }),
{
    if c.0 < input.len() && input[c.0] == b {
        c.advance(1);
        Ok(())
    } else {
        Err(ParseError)
    }
}

/// Consumes the run of one-or-more `tchar` bytes at the cursor and hands the
/// consumed bytes back; fails with the cursor unchanged when no `tchar`
/// stands there.
pub fn token<'a>(input: &'a [u8], c: &mut Cursor) -> (r: ParseResult<&'a [u8]>)
    requires
        old(c).0 <= input@.len(),
    ensures
        final(c).0 == token_end(input@, old(c).0 as int),
        old(c).0 <= final(c).0 <= input@.len(),
        (if token_end(input@, old(c).0 as int) == old(c).0 {
            r is Err
        } else {
            (match r {
                Ok(t) => t@ == input@.subrange(
                    old(c).0 as int,
                    token_end(input@, old(c).0 as int),
                ),
                Err(_) => false,
            })
        }),
{
    let c0 = *c;
    skip_token(input, c)?;
    Ok(c0.slice(input, *c))
}

/// Consumes the run of one-or-more `tchar` bytes at the cursor; fails with
/// the cursor unchanged when no `tchar` stands there.
pub fn skip_token(input: &[u8], c: &mut Cursor) -> (r: ParseResult<()>)
    requires
        old(c).0 <= input@.len(),
    ensures
        final(c).0 == token_end(input@, old(c).0 as int),
        old(c).0 <= final(c).0 <= input@.len(),
        r is Ok <==> token_end(input@, old(c).0 as int) != old(c).0,
{
    proof {
        lemma_token_end_bounds(input@, old(c).0 as int);
    }
    let mut i = c.0;
    while i < input.len() && crate::lexer::is_tchar(input[i])
        invariant
            c.0 <= i <= input@.len(),
            token_end(input@, c.0 as int) == token_end(input@, i as int),
        decreases input@.len() - i,
    {
        i = i + 1;
    }
    if i > c.0 {
        let n = i - c.0;
        c.advance(n);
        Ok(())
    } else {
        Err(ParseError)
    }
}

/// Advances the cursor past any run of space and tab bytes.
pub fn ows(input: &[u8], c: &mut Cursor)
    requires
        old(c).0 <= input@.len(),
    ensures
        final(c).0 == ows_end(input@, old(c).0 as int),
        old(c).0 <= final(c).0 <= input@.len(),
{
    proof {
        crate::lexer::lemma_ows_end_bounds(input@, old(c).0 as int);
    }
    let mut i = c.0;
    while i < input.len() && (input[i] == SP || input[i] == HTAB)
        invariant
            c.0 <= i <= input@.len(),
            ows_end(input@, c.0 as int) == ows_end(input@, i as int),
        decreases input@.len() - i,
    {
        i = i + 1;
    }
    let n = i - c.0;
    c.advance(n);
}

/// Extent of a strict double-quoted string starting at `p`: the position
/// where parsing stops and whether the whole production was consumed.
pub open spec fn quoted_string_at(s: Seq<u8>, p: int) -> (int, bool) {
    if 0 <= p < s.len() && s[p] == DQUOTE {
        quoted_scan(s, p + 1)
    } else {
        (p, false)
    }
}

/// Consumes a strict double-quoted string at the cursor: an opening quote,
/// `qdtext` bytes interleaved with backslash-escaped pairs, and a closing
/// quote.  On failure the cursor is left where scanning stopped.
pub fn quoted_string(input: &[u8], c: &mut Cursor) -> (r: ParseResult<()>)
    requires
        old(c).0 <= input@.len(),
    ensures
        final(c).0 == quoted_string_at(input@, old(c).0 as int).0,
        old(c).0 <= final(c).0 <= input@.len(),
        r is Ok <==> quoted_string_at(input@, old(c).0 as int).1,
        r is Ok ==> old(c).0 + 2 <= final(c).0,
{
    byte(input, c, DQUOTE)?;
    proof {
        lemma_quoted_scan_bounds(input@, c.0 as int);
    }
    let mut i = c.0;
    loop
        invariant
            old(c).0 < input@.len(),
            input@[old(c).0 as int] == DQUOTE,
            c.0 == old(c).0 + 1,
            c.0 <= i <= input@.len(),
            quoted_scan(input@, c.0 as int) == quoted_scan(input@, i as int),
        decreases input@.len() - i,
    {
        proof {
            lemma_quoted_scan_bounds(input@, i as int);
        }
        if i < input.len() && is_qdtext(input[i]) {
            i = i + 1;
        } else if i < input.len() && input[i] == BACKSLASH {
            if i + 1 < input.len() && is_quoted_pair_char(input[i + 1]) {
                i = i + 2;
            } else {
                let n = i + 1 - c.0;
                c.advance(n);
                return Err(ParseError);
            }
        } else if i < input.len() && input[i] == DQUOTE {
            let n = i + 1 - c.0;
            c.advance(n);
            return Ok(());
        } else {
            let n = i - c.0;
            c.advance(n);
            return Err(ParseError);
        }
    }
}

/// Consumes a quality value at the cursor per the bounded-precision grammar;
/// fails with the cursor unchanged when none starts there.
pub fn q_value(input: &[u8], c: &mut Cursor) -> (r: ParseResult<QValue>)
    requires
        old(c).0 <= input@.len(),
    ensures
        (match crate::lexer::qvalue_at(input@, old(c).0 as int) {
            Some(q) => final(c).0 == q.0 && r == Ok::<QValue, ParseError>(QValue { millis: q.1 }),
            None => *final(c) == *old(c) && r is Err,
        }),
        old(c).0 <= final(c).0 <= input@.len(),
        r is Ok ==> old(c).0 < final(c).0,
{
    proof {
        crate::lexer::lemma_qvalue_at_bounds(input@, old(c).0 as int);
    }
    let (e, v) = crate::lexer::q_value(input, c.0);
    match v {
        Some(crate::lexer::LexerToken::QValue(q)) => {
            let n = e - c.0;
            c.advance(n);
            Ok(q)
        },
        _ => Err(ParseError),
    }
}

} // verus!
