use vstd::prelude::*;

use crate::q_value::{digit, frac_value, QValue, DIGIT_NINE, DIGIT_ONE, DIGIT_ZERO, PERIOD};

verus! {

/// ` ` in ASCII.
pub const SP: u8 = 32;

/// Horizontal tab.
pub const HTAB: u8 = 9;

/// `,` in ASCII.
pub const COMMA: u8 = 44;

/// `;` in ASCII.
pub const SEMICOLON: u8 = 59;

/// `=` in ASCII.
pub const EQUAL_SIGN: u8 = 61;

/// `/` in ASCII.
pub const SLASH: u8 = 47;

/// `"` in ASCII.
pub const DQUOTE: u8 = 34;

/// `\` in ASCII.
pub const BACKSLASH: u8 = 92;

/// `*` in ASCII.
pub const ASTERISK: u8 = 42;

/// A position in the input byte slice.
pub type Position = usize;

/// One grammatical unit recognized by the lexer, borrowing the input bytes.
#[derive(Debug, PartialEq)]
pub enum LexerToken<'a> {
    Token(&'a [u8]),
    DoubleQuotedString(&'a [u8]),
    Comma,
    Semicolon,
    Equal,
    QValue(QValue),
    Slash,
}

/// True when `b` is a space or horizontal tab, the optional-whitespace bytes.
pub open spec fn ows_byte(b: u8) -> bool {
    b == SP || b == HTAB
}

/// True when `b` is a `tchar`: a letter, a digit, or one of the fixed
/// punctuation set of the token grammar.
pub open spec fn tchar(b: u8) -> bool {
    b == 33 || (35 <= b <= 39) || b == ASTERISK || b == 43 || b == 45 || b == PERIOD || (48 <= b
        <= 57) || (65 <= b <= 90) || (94 <= b <= 96) || (97 <= b <= 122) || b == 124 || b == 126
}

/// Position just past the run of whitespace bytes that starts at `p`.
pub open spec fn ows_end(s: Seq<u8>, p: int) -> int
    decreases s.len() - p,
    when 0 <= p <= s.len()
{
    if p < s.len() && ows_byte(s[p]) {
        ows_end(s, p + 1)
    } else {
        p
    }
}

pub proof fn lemma_ows_end_bounds(s: Seq<u8>, p: int)
    requires
        0 <= p <= s.len(),
    ensures
        p <= ows_end(s, p) <= s.len(),
    decreases s.len() - p,
{
    if p < s.len() && ows_byte(s[p]) {
        lemma_ows_end_bounds(s, p + 1);
    }
}

/// Position just past the run of `tchar` bytes that starts at `p`.
pub open spec fn token_end(s: Seq<u8>, p: int) -> int
    decreases s.len() - p,
    when 0 <= p <= s.len()
{
    if p < s.len() && tchar(s[p]) {
        token_end(s, p + 1)
    } else {
        p
    }
}

pub proof fn lemma_token_end_bounds(s: Seq<u8>, p: int)
    requires
        0 <= p <= s.len(),
    ensures
        p <= token_end(s, p) <= s.len(),
    decreases s.len() - p,
{
    if p < s.len() && tchar(s[p]) {
        lemma_token_end_bounds(s, p + 1);
    }
}

/// True when `b` may stand unescaped inside a double-quoted string: tab,
/// space, `!`, most printable bytes save `"` and `\`, and every high byte.
pub open spec fn qdtext(b: u8) -> bool {
    b == HTAB || b == SP || b == 33 || (35 <= b <= 91) || (93 <= b <= 126) || b >= 128
}

/// True when `b` may follow a backslash inside a double-quoted string: tab,
/// space, any visible ASCII byte, and every high byte.
pub open spec fn quoted_pair_char(b: u8) -> bool {
    b == HTAB || (SP <= b <= 126) || b >= 128
}

/// True when `b` is a `qdtext` byte.
pub fn is_qdtext(c: u8) -> (r: bool)
    ensures
        r == qdtext(c),
{
    c == HTAB || c == SP || c == 33 || (35 <= c && c <= 91) || (93 <= c && c <= 126) || c >= 128
}

/// True when `b` is a quoted-pair byte.
pub fn is_quoted_pair_char(c: u8) -> (r: bool)
    ensures
        r == quoted_pair_char(c),
{
    c == HTAB || (SP <= c && c <= 126) || c >= 128
}

/// Scan of the interior of a double-quoted string starting at `p` (just past
/// the opening quote): the position where scanning stops and whether a
/// closing quote was found there.  Interior bytes must be `qdtext`, or a
/// backslash followed by a quoted-pair byte; a backslash followed by
/// anything else stops the scan just past the backslash with failure.
pub open spec fn quoted_scan(s: Seq<u8>, p: int) -> (int, bool)
    decreases s.len() - p,
    when 0 <= p <= s.len()
{
    if p < s.len() && qdtext(s[p]) {
        quoted_scan(s, p + 1)
    } else if p < s.len() && s[p] == BACKSLASH {
        if p + 1 < s.len() && quoted_pair_char(s[p + 1]) {
            quoted_scan(s, p + 2)
        } else {
            (p + 1, false)
        }
    } else if p < s.len() && s[p] == DQUOTE {
        (p + 1, true)
    } else {
        (p, false)
    }
}

pub proof fn lemma_quoted_scan_bounds(s: Seq<u8>, p: int)
    requires
        0 <= p <= s.len(),
    ensures
        p <= quoted_scan(s, p).0 <= s.len(),
        quoted_scan(s, p).1 ==> p < quoted_scan(s, p).0,
    decreases s.len() - p,
{
    if p < s.len() && qdtext(s[p]) {
        lemma_quoted_scan_bounds(s, p + 1);
    } else if p < s.len() && s[p] == BACKSLASH {
        if p + 1 < s.len() && quoted_pair_char(s[p + 1]) {
            lemma_quoted_scan_bounds(s, p + 2);
        }
    }
}

/// Extent of a double-quoted string starting at `p`: the position just past
/// the closing quote, or `None` when no opening quote stands at `p`, an
/// interior byte falls outside the `qdtext` and quoted-pair classes, or the
/// string never closes.
pub open spec fn dq_end(s: Seq<u8>, p: int) -> Option<int> {
    if 0 <= p < s.len() && s[p] == DQUOTE && quoted_scan(s, p + 1).1 {
        Some(quoted_scan(s, p + 1).0)
    } else {
        None
    }
}

/// Position just past a run of at most `max` decimal digits starting at `p`.
pub open spec fn digit_run_end(s: Seq<u8>, p: int, max: int) -> int
    decreases max,
    when 0 <= p <= s.len()
{
    if max > 0 && p < s.len() && digit(s[p]) {
        digit_run_end(s, p + 1, max - 1)
    } else {
        p
    }
}

pub proof fn lemma_digit_run_end_bounds(s: Seq<u8>, p: int, max: int)
    requires
        0 <= p <= s.len(),
        0 <= max,
    ensures
        p <= digit_run_end(s, p, max) <= s.len(),
        digit_run_end(s, p, max) - p <= max,
        forall|i: int| p <= i < digit_run_end(s, p, max) ==> digit(s[i]),
    decreases max,
{
    if max > 0 && p < s.len() && digit(s[p]) {
        lemma_digit_run_end_bounds(s, p + 1, max - 1);
    }
}

/// Position just past a run of at most `max` `0` digits starting at `p`.
pub open spec fn zeros_run_end(s: Seq<u8>, p: int, max: int) -> int
    decreases max,
    when 0 <= p <= s.len()
{
    if max > 0 && p < s.len() && s[p] == DIGIT_ZERO {
        zeros_run_end(s, p + 1, max - 1)
    } else {
        p
    }
}

pub proof fn lemma_zeros_run_end_bounds(s: Seq<u8>, p: int, max: int)
    requires
        0 <= p <= s.len(),
        0 <= max,
    ensures
        p <= zeros_run_end(s, p, max) <= s.len(),
        zeros_run_end(s, p, max) - p <= max,
    decreases max,
{
    if max > 0 && p < s.len() && s[p] == DIGIT_ZERO {
        lemma_zeros_run_end_bounds(s, p + 1, max - 1);
    }
}

/// The quality-value production starting at `p`: `Some((e, m))` when the
/// bytes from `p` spell `0`, `1`, or either followed by a period and up to
/// three fraction digits (`1` takes only `0` digits), where `e` is the
/// position just past the consumed bytes and `m` the denoted thousandths.
pub open spec fn qvalue_at(s: Seq<u8>, p: int) -> Option<(int, u16)> {
    if !(0 <= p < s.len()) {
        None
    } else if s[p] == DIGIT_ZERO {
        if p + 1 < s.len() && s[p + 1] == PERIOD {
            Some(
                (
                    digit_run_end(s, p + 2, 3),
                    frac_value(s, p + 2, digit_run_end(s, p + 2, 3)) as u16,
                ),
            )
        } else {
            Some((p + 1, 0u16))
        }
    } else if s[p] == DIGIT_ONE {
        if p + 1 < s.len() && s[p + 1] == PERIOD {
            Some((zeros_run_end(s, p + 2, 3), 1000u16))
        } else {
            Some((p + 1, 1000u16))
        }
    } else {
        None
    }
}

pub proof fn lemma_qvalue_at_bounds(s: Seq<u8>, p: int)
    requires
        0 <= p <= s.len(),
    ensures
        (match qvalue_at(s, p) {
            Some(r) => p < r.0 <= s.len() && r.1 <= 1000,
            None => true,
        }),
{
    if p < s.len() {
        if s[p] == DIGIT_ZERO && p + 1 < s.len() && s[p + 1] == PERIOD {
            lemma_digit_run_end_bounds(s, p + 2, 3);
        }
        if s[p] == DIGIT_ONE && p + 1 < s.len() && s[p + 1] == PERIOD {
            lemma_zeros_run_end_bounds(s, p + 2, 3);
        }
    }
}

/// True when `b` is a `tchar`.
pub fn is_tchar(c: u8) -> (r: bool)
    ensures
        r == tchar(c),
{
    c == 33 || (35 <= c && c <= 39) || c == ASTERISK || c == 43 || c == 45 || c == PERIOD || (48
        <= c && c <= 57) || (65 <= c && c <= 90) || (94 <= c && c <= 96) || (97 <= c && c <= 122)
        || c == 124 || c == 126
}

/// Advances past any run of space and tab bytes starting at `pos`.
pub fn ows(input: &[u8], pos: Position) -> (r: Position)
    requires
        pos <= input@.len(),
    ensures
        r == ows_end(input@, pos as int),
        pos <= r <= input@.len(),
{
    proof {
        lemma_ows_end_bounds(input@, pos as int);
    }
    let mut p = pos;
    while p < input.len() && (input[p] == SP || input[p] == HTAB)
        invariant
            pos <= p <= input@.len(),
            ows_end(input@, pos as int) == ows_end(input@, p as int),
        decreases input@.len() - p,
    {
        p = p + 1;
    }
    p
}

/// Consumes a single `/` at `pos`, if one is there.
pub fn slash<'a>(input: &'a [u8], pos: Position) -> (r: (Position, Option<LexerToken<'a>>))
    requires
        pos <= input@.len(),
    ensures
        (if pos < input@.len() && input@[pos as int] == SLASH {
            r.0 == pos + 1 && r.1 == Some(LexerToken::Slash)
        } else {
            r.0 == pos && r.1 is None
        }),
{
    if pos < input.len() && input[pos] == SLASH {
        (pos + 1, Some(LexerToken::Slash))
    } else {
        (pos, None)
    }
}

/// Consumes a single `,` at `pos`, if one is there.
pub fn comma<'a>(input: &'a [u8], pos: Position) -> (r: (Position, Option<LexerToken<'a>>))
    requires
        pos <= input@.len(),
    ensures
        (if pos < input@.len() && input@[pos as int] == COMMA {
            r.0 == pos + 1 && r.1 == Some(LexerToken::Comma)
        } else {
            r.0 == pos && r.1 is None
        }),
{
    if pos < input.len() && input[pos] == COMMA {
        (pos + 1, Some(LexerToken::Comma))
    } else {
        (pos, None)
    }
}

/// Consumes a single `;` at `pos`, if one is there.
pub fn semicolon<'a>(input: &'a [u8], pos: Position) -> (r: (Position, Option<LexerToken<'a>>))
    requires
        pos <= input@.len(),
    ensures
        (if pos < input@.len() && input@[pos as int] == SEMICOLON {
            r.0 == pos + 1 && r.1 == Some(LexerToken::Semicolon)
        } else {
            r.0 == pos && r.1 is None
        }),
{
    if pos < input.len() && input[pos] == SEMICOLON {
        (pos + 1, Some(LexerToken::Semicolon))
    } else {
        (pos, None)
    }
}

/// Consumes a single `=` at `pos`, if one is there.
pub fn equal<'a>(input: &'a [u8], pos: Position) -> (r: (Position, Option<LexerToken<'a>>))
    requires
        pos <= input@.len(),
    ensures
        (if pos < input@.len() && input@[pos as int] == EQUAL_SIGN {
            r.0 == pos + 1 && r.1 == Some(LexerToken::Equal)
        } else {
            r.0 == pos && r.1 is None
        }),
{
    if pos < input.len() && input[pos] == EQUAL_SIGN {
        (pos + 1, Some(LexerToken::Equal))
    } else {
        (pos, None)
    }
}

/// Consumes the run of one-or-more `tchar` bytes at `pos`; reports failure
/// with the position unchanged when no `tchar` stands there.
pub fn token<'a>(input: &'a [u8], pos: Position) -> (r: (Position, Option<LexerToken<'a>>))
    requires
        pos <= input@.len(),
    ensures
        r.0 == token_end(input@, pos as int),
        pos <= r.0 <= input@.len(),
        (if token_end(input@, pos as int) == pos {
            r.1 is None
        } else {
            (match r.1 {
                Some(LexerToken::Token(t)) => t@ == input@.subrange(
                    pos as int,
                    token_end(input@, pos as int),
                ),
                _ => false,
            })
        }),
{
    proof {
        lemma_token_end_bounds(input@, pos as int);
    }
    let mut i = pos;
    while i < input.len() && is_tchar(input[i])
        invariant
            pos <= i <= input@.len(),
            token_end(input@, pos as int) == token_end(input@, i as int),
        decreases input@.len() - i,
    {
        i = i + 1;
    }
    if i == pos {
        (i, None)
    } else {
        let v = vstd::slice::slice_subrange(input, pos, i);
        (i, Some(LexerToken::Token(v)))
    }
}

/// Consumes a double-quoted string at `pos`: an opening quote, `qdtext`
/// bytes interleaved with backslash-escaped pairs, and a closing quote.
/// Reports failure with the position unchanged when the string is absent,
/// holds a byte outside those classes, or never closes.
pub fn double_quoted_string<'a>(input: &'a [u8], pos: Position) -> (r: (
    Position,
    Option<LexerToken<'a>>,
))
    requires
        pos <= input@.len(),
    ensures
        pos <= r.0 <= input@.len(),
        r.1 is Some ==> pos < r.0,
        (match dq_end(input@, pos as int) {
            Some(e) => r.0 == e && (match r.1 {
                Some(LexerToken::DoubleQuotedString(t)) => t@ == input@.subrange(pos as int, e),
                _ => false,
            }),
            None => r.0 == pos && r.1 is None,
        }),
{
    if pos < input.len() && input[pos] == DQUOTE {
        proof {
            lemma_quoted_scan_bounds(input@, pos as int + 1);
        }
        let mut i = pos + 1;
        loop
            invariant
                pos < input@.len(),
                input@[pos as int] == DQUOTE,
                pos + 1 <= i <= input@.len(),
                quoted_scan(input@, pos as int + 1) == quoted_scan(input@, i as int),
            decreases input@.len() - i,
        {
            if i < input.len() && is_qdtext(input[i]) {
                i = i + 1;
            } else if i < input.len() && input[i] == BACKSLASH {
                if i + 1 < input.len() && is_quoted_pair_char(input[i + 1]) {
                    i = i + 2;
                } else {
                    return (pos, None);
                }
            } else if i < input.len() && input[i] == DQUOTE {
                let v = vstd::slice::slice_subrange(input, pos, i + 1);
                return (i + 1, Some(LexerToken::DoubleQuotedString(v)));
            } else {
                return (pos, None);
            }
        }
    } else {
        (pos, None)
    }
}

/// Consumes a parameter value at `pos`: a token, or failing that a
/// double-quoted string.
pub fn parameter_value<'a>(input: &'a [u8], pos: Position) -> (r: (
    Position,
    Option<LexerToken<'a>>,
))
    requires
        pos <= input@.len(),
    ensures
        pos <= r.0 <= input@.len(),
        r.1 is Some ==> pos < r.0,
        (if token_end(input@, pos as int) != pos {
            r.0 == token_end(input@, pos as int) && (match r.1 {
                Some(LexerToken::Token(t)) => t@ == input@.subrange(
                    pos as int,
                    token_end(input@, pos as int),
                ),
                _ => false,
            })
        } else {
            (match dq_end(input@, pos as int) {
                Some(e) => r.0 == e && (match r.1 {
                    Some(LexerToken::DoubleQuotedString(t)) => t@ == input@.subrange(
                        pos as int,
                        e,
                    ),
                    _ => false,
                }),
                None => r.0 == pos && r.1 is None,
            })
        }),
{
    let (pos2, v) = token(input, pos);
    if v.is_some() {
        (pos2, v)
    } else {
        double_quoted_string(input, pos)
    }
}

/// Consumes a quality value at `pos` per the bounded-precision grammar;
/// reports failure with the position unchanged when none starts there.
pub fn q_value<'a>(input: &'a [u8], pos: Position) -> (r: (Position, Option<LexerToken<'a>>))
    requires
        pos <= input@.len(),
    ensures
        pos <= r.0 <= input@.len(),
        r.1 is Some ==> pos < r.0,
        (match qvalue_at(input@, pos as int) {
            Some(q) => r.0 == q.0 && r.1 == Some(LexerToken::QValue(QValue { millis: q.1 })),
            None => r.0 == pos && r.1 is None,
        }),
{
    if pos >= input.len() {
        return (pos, None);
    }
    let first = input[pos];
    if first != DIGIT_ZERO && first != DIGIT_ONE {
        return (pos, None);
    }
    let mut i = pos + 1;
    if i < input.len() && input[i] == PERIOD {
        i = i + 1;
        let ghost b: int = i as int;
        if first == DIGIT_ZERO {
            proof {
                reveal_with_fuel(digit_run_end, 4);
            }
            let mut millis: u16 = 0;
            if !(i < input.len() && input[i] >= DIGIT_ZERO && input[i] <= DIGIT_NINE) {
                proof {
                    assert(digit_run_end(input@, b, 3) == b);
                }
                return (i, Some(LexerToken::QValue(QValue { millis })));
            }
            millis = (input[i] - DIGIT_ZERO) as u16 * 100;
            i = i + 1;
            if !(i < input.len() && input[i] >= DIGIT_ZERO && input[i] <= DIGIT_NINE) {
                proof {
                    assert(digit_run_end(input@, b, 3) == b + 1);
                }
                return (i, Some(LexerToken::QValue(QValue { millis })));
            }
            millis = millis + (input[i] - DIGIT_ZERO) as u16 * 10;
            i = i + 1;
            if !(i < input.len() && input[i] >= DIGIT_ZERO && input[i] <= DIGIT_NINE) {
                proof {
                    assert(digit_run_end(input@, b, 3) == b + 2);
                }
                return (i, Some(LexerToken::QValue(QValue { millis })));
            }
            millis = millis + (input[i] - DIGIT_ZERO) as u16;
            i = i + 1;
            proof {
                assert(digit_run_end(input@, b, 3) == b + 3);
            }
            (i, Some(LexerToken::QValue(QValue { millis })))
        } else {
            proof {
                reveal_with_fuel(zeros_run_end, 4);
            }
            if i < input.len() && input[i] == DIGIT_ZERO {
                i = i + 1;
                if i < input.len() && input[i] == DIGIT_ZERO {
                    i = i + 1;
                    if i < input.len() && input[i] == DIGIT_ZERO {
                        i = i + 1;
                    }
                }
            }
            proof {
                assert(zeros_run_end(input@, b, 3) == i as int);
            }
            (i, Some(LexerToken::QValue(QValue { millis: 1000 })))
        }
    } else {
        let millis: u16 = if first == DIGIT_ZERO {
            0
        } else {
            1000
        };
        (i, Some(LexerToken::QValue(QValue { millis })))
    }
}

} // verus!
