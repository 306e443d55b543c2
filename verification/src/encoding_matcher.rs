use vstd::prelude::*;

use crate::byte_slice::{byte_eq_ci, byte_eq_ignore_case, bytes_eq_ci, bytes_eq_ignore_case};
use crate::cursor::{byte, ows, q_value, quoted_string, quoted_string_at, skip_token, token, Cursor};
use crate::lexer::{
    lemma_ows_end_bounds, lemma_quoted_scan_bounds, lemma_qvalue_at_bounds, lemma_token_end_bounds,
    ows_end, qvalue_at, token_end, ASTERISK, COMMA, EQUAL_SIGN, SEMICOLON,
};
use crate::q_value::QValue;

verus! {

/// How strongly an alternative matched: a bare `*` ranks below a literal
/// (or aliased) encoding name.
#[derive(Debug, PartialEq, Eq, PartialOrd, Ord, Copy, Clone)]
pub enum EncodingMatchType {
    Wildcard,
    Exact,
}

/// The verdict for one encoding: how it matched, and with what quality.
#[derive(Debug, PartialEq, Eq, PartialOrd, Ord, Copy, Clone)]
pub struct EncodingMatch {
    pub match_type: EncodingMatchType,
    pub q: QValue,
}

/// The states of the finite-state walk over one header value.
#[derive(Debug, Copy, Clone)]
pub enum State {
    SearchingEncoding,
    SeenEncoding,
    SeenSemicolon,
    SeenParameterName,
    SeenEqual,
    SeenParameterValue,
}

/// Numeric strength of a match type; a larger rank wins.
pub open spec fn rank(t: EncodingMatchType) -> int {
    match t {
        EncodingMatchType::Wildcard => 0,
        EncodingMatchType::Exact => 1,
    }
}

/// The strict total-order comparison of two verdicts: match type first,
/// quality second.
pub open spec fn match_gt(a: EncodingMatch, b: EncodingMatch) -> bool {
    rank(a.match_type) > rank(b.match_type) || (rank(a.match_type) == rank(b.match_type)
        && a.q.millis > b.q.millis)
}

/// The better of the current candidate and the best seen so far; only a
/// strictly greater candidate replaces the best, so ties keep the old one.
pub open spec fn better(cur: Option<EncodingMatch>, best: Option<EncodingMatch>) -> Option<
    EncodingMatch,
> {
    match cur {
        Some(c) => match best {
            Some(b) => if match_gt(c, b) {
                cur
            } else {
                best
            },
            None => cur,
        },
        None => best,
    }
}

/// `gzip`, ASCII case-insensitively.
pub open spec fn name_gzip(t: Seq<u8>) -> bool {
    t.len() == 4 && byte_eq_ci(t[0], 103) && byte_eq_ci(t[1], 122) && byte_eq_ci(t[2], 105)
        && byte_eq_ci(t[3], 112)
}

/// `x-gzip`, ASCII case-insensitively.
pub open spec fn name_x_gzip(t: Seq<u8>) -> bool {
    t.len() == 6 && byte_eq_ci(t[0], 120) && byte_eq_ci(t[1], 45) && byte_eq_ci(t[2], 103)
        && byte_eq_ci(t[3], 122) && byte_eq_ci(t[4], 105) && byte_eq_ci(t[5], 112)
}

/// `compress`, ASCII case-insensitively.
pub open spec fn name_compress(t: Seq<u8>) -> bool {
    t.len() == 8 && byte_eq_ci(t[0], 99) && byte_eq_ci(t[1], 111) && byte_eq_ci(t[2], 109)
        && byte_eq_ci(t[3], 112) && byte_eq_ci(t[4], 114) && byte_eq_ci(t[5], 101) && byte_eq_ci(
        t[6],
        115,
    ) && byte_eq_ci(t[7], 115)
}

/// `x-compress`, ASCII case-insensitively.
pub open spec fn name_x_compress(t: Seq<u8>) -> bool {
    t.len() == 10 && byte_eq_ci(t[0], 120) && byte_eq_ci(t[1], 45) && byte_eq_ci(t[2], 99)
        && byte_eq_ci(t[3], 111) && byte_eq_ci(t[4], 109) && byte_eq_ci(t[5], 112) && byte_eq_ci(
        t[6],
        114,
    ) && byte_eq_ci(t[7], 101) && byte_eq_ci(t[8], 115) && byte_eq_ci(t[9], 115)
}

/// `q`, ASCII case-insensitively.
pub open spec fn name_q(t: Seq<u8>) -> bool {
    t.len() == 1 && byte_eq_ci(t[0], 113)
}

/// A lone `*`, byte-exactly.
pub open spec fn wildcard_token(t: Seq<u8>) -> bool {
    t.len() == 1 && t[0] == ASTERISK
}

/// The candidate verdict for the alternative whose name is `tok` when the
/// wanted encoding is `enc`: an exact match on a case-insensitive name
/// match (`x-gzip` counts for `gzip`, `x-compress` for `compress`), a
/// wildcard match on a lone `*`, and no candidate otherwise.  Either match
/// starts with the default quality of 1.
pub open spec fn classify(tok: Seq<u8>, enc: Seq<u8>) -> Option<EncodingMatch> {
    if bytes_eq_ci(tok, enc) || (name_gzip(enc) && name_x_gzip(tok)) || (name_compress(enc)
        && name_x_compress(tok)) {
        Some(EncodingMatch { match_type: EncodingMatchType::Exact, q: QValue { millis: 1000 } })
    } else if wildcard_token(tok) {
        Some(EncodingMatch { match_type: EncodingMatchType::Wildcard, q: QValue { millis: 1000 } })
    } else {
        None
    }
}

/// The current candidate with its quality overwritten by `m`, when there is
/// one.
pub open spec fn set_q(cur: Option<EncodingMatch>, m: u16) -> Option<EncodingMatch> {
    match cur {
        Some(c) => Some(EncodingMatch { match_type: c.match_type, q: QValue { millis: m } }),
        None => None,
    }
}

/// One configuration of the matcher's state machine, run to completion: the
/// result of scanning `s` from position `p` in state `st`, with `is_q`
/// telling whether the parameter under scrutiny is named `q`, `cur` the
/// candidate for the alternative being scanned and `best` the best completed
/// alternative.  Reaching the end of the input, even across optional
/// whitespace, finalizes the candidate against the best; any byte that
/// breaks the grammar yields `None` for the whole header.
pub open spec fn matcher_step(
    s: Seq<u8>,
    enc: Seq<u8>,
    p: int,
    st: State,
    is_q: bool,
    cur: Option<EncodingMatch>,
    best: Option<EncodingMatch>,
) -> Option<EncodingMatch>
    decreases s.len() - p,
    when 0 <= p <= s.len()
    via matcher_step_decreases
{
    if p >= s.len() {
        better(cur, best)
    } else {
        match st {
            State::SearchingEncoding => {
                let e = token_end(s, p);
                if e == p {
                    None
                } else {
                    matcher_step(
                        s,
                        enc,
                        e,
                        State::SeenEncoding,
                        is_q,
                        classify(s.subrange(p, e), enc),
                        best,
                    )
                }
            },
            State::SeenEncoding => {
                let w = ows_end(s, p);
                if w >= s.len() {
                    better(cur, best)
                } else if s[w] == SEMICOLON {
                    matcher_step(s, enc, ows_end(s, w + 1), State::SeenSemicolon, is_q, cur, best)
                } else if s[w] == COMMA {
                    matcher_step(
                        s,
                        enc,
                        ows_end(s, w + 1),
                        State::SearchingEncoding,
                        is_q,
                        None,
                        better(cur, best),
                    )
                } else {
                    None
                }
            },
            State::SeenSemicolon => {
                let e = token_end(s, p);
                if e == p {
                    None
                } else {
                    matcher_step(
                        s,
                        enc,
                        e,
                        State::SeenParameterName,
                        name_q(s.subrange(p, e)),
                        cur,
                        best,
                    )
                }
            },
            State::SeenParameterName => {
                if s[p] == EQUAL_SIGN {
                    matcher_step(s, enc, p + 1, State::SeenEqual, is_q, cur, best)
                } else {
                    None
                }
            },
            State::SeenEqual => {
                if is_q {
                    match qvalue_at(s, p) {
                        Some(q) => matcher_step(
                            s,
                            enc,
                            q.0,
                            State::SeenParameterValue,
                            is_q,
                            set_q(cur, q.1),
                            best,
                        ),
                        None => None,
                    }
                } else {
                    let e = token_end(s, p);
                    if e != p {
                        matcher_step(s, enc, e, State::SeenParameterValue, is_q, cur, best)
                    } else {
                        let qs = quoted_string_at(s, p);
                        if qs.1 {
                            matcher_step(s, enc, qs.0, State::SeenParameterValue, is_q, cur, best)
                        } else {
                            None
                        }
                    }
                }
            },
            State::SeenParameterValue => {
                let w = ows_end(s, p);
                if w >= s.len() {
                    better(cur, best)
                } else if s[w] == COMMA {
                    matcher_step(
                        s,
                        enc,
                        ows_end(s, w + 1),
                        State::SearchingEncoding,
                        is_q,
                        None,
                        better(cur, best),
                    )
                } else if s[w] == SEMICOLON {
                    matcher_step(s, enc, ows_end(s, w + 1), State::SeenSemicolon, is_q, cur, best)
                } else {
                    None
                }
            },
        }
    }
}

#[via_fn]
proof fn matcher_step_decreases(
    s: Seq<u8>,
    enc: Seq<u8>,
    p: int,
    st: State,
    is_q: bool,
    cur: Option<EncodingMatch>,
    best: Option<EncodingMatch>,
) {
    if p < s.len() {
        lemma_token_end_bounds(s, p);
        lemma_ows_end_bounds(s, p);
        let w = ows_end(s, p);
        if w + 1 <= s.len() {
            lemma_ows_end_bounds(s, w + 1);
        }
        lemma_qvalue_at_bounds(s, p);
        lemma_quoted_scan_bounds(s, p + 1);
    }
}

/// The verdict for the whole header value `s` against the wanted encoding
/// `enc`: the state machine run from the start, with no candidate and no
/// best result yet.
pub open spec fn match_encoding_spec(s: Seq<u8>, enc: Seq<u8>) -> Option<EncodingMatch> {
    matcher_step(s, enc, 0, State::SearchingEncoding, false, None, None)
}

/// Numeric strength of a match type; a larger rank wins.
pub fn match_type_rank(t: EncodingMatchType) -> (r: u8)
    ensures
        r as int == rank(t),
{
    match t {
        EncodingMatchType::Wildcard => 0,
        EncodingMatchType::Exact => 1,
    }
}

/// Compares two verdicts under the total order: match type first, quality
/// second.
pub fn encoding_match_gt(a: &EncodingMatch, b: &EncodingMatch) -> (r: bool)
    ensures
        r == match_gt(*a, *b),
{
    let ra = match_type_rank(a.match_type);
    let rb = match_type_rank(b.match_type);
    ra > rb || (ra == rb && a.q.millis > b.q.millis)
}

/// True when candidate `a` ranks strictly above candidate `b`; no verdict
/// at all ranks below any match.
pub open spec fn opt_gt(a: Option<EncodingMatch>, b: Option<EncodingMatch>) -> bool {
    match a {
        Some(av) => match b {
            Some(bv) => match_gt(av, bv),
            None => true,
        },
        None => false,
    }
}

/// True when candidate `a` ranks strictly above candidate `b`, a missing
/// verdict ranking below any match.
pub fn is_better(a: &Option<EncodingMatch>, b: &Option<EncodingMatch>) -> (r: bool)
    ensures
        r == opt_gt(*a, *b),
{
    match *a {
        Some(av) => match *b {
            Some(bv) => encoding_match_gt(&av, &bv),
            None => true,
        },
        None => false,
    }
}

/// Replaces the best result with the current candidate when the candidate
/// ranks strictly higher, and clears the candidate slot.
fn may_update_best_result(
    cur_result: &mut Option<EncodingMatch>,
    best_result: &mut Option<EncodingMatch>,
)
    ensures
        *final(best_result) == better(*old(cur_result), *old(best_result)),
        *final(cur_result) is None,
{
    let update = match *cur_result {
        Some(cv) => match *best_result {
            Some(bv) => encoding_match_gt(&cv, &bv),
            None => true,
        },
        None => false,
    };
    if update {
        *best_result = *cur_result;
    }
    *cur_result = None;
}

/// Scans the whole `Accept-Encoding`-style header value `input` and hands
/// back the strongest verdict for the wanted `encoding`, or `None` when no
/// alternative matches or the header breaks the grammar anywhere.
pub fn match_for_encoding(input: &[u8], encoding: &[u8]) -> (r: Option<EncodingMatch>)
    ensures
        r == match_encoding_spec(input@, encoding@),
        opt_wf(r),
{
    proof {
        lemma_match_encoding_wf(input@, encoding@);
    }
    let ghost s = input@;
    let ghost enc = encoding@;

    let mut state = State::SearchingEncoding;
    let mut cur_result: Option<EncodingMatch> = None;
    let mut best_result: Option<EncodingMatch> = None;

    let is_gzip = is_gzip_name(encoding);
    let is_compress = is_compress_name(encoding);

    let mut is_q_param = false;
    let mut c = Cursor(0);
    while c.0 < input.len()
        invariant
            c.0 <= s.len(),
            s == input@,
            enc == encoding@,
            is_gzip == name_gzip(enc),
            is_compress == name_compress(enc),
            matcher_step(s, enc, c.0 as int, state, is_q_param, cur_result, best_result)
                == match_encoding_spec(s, enc),
        decreases s.len() - c.0,
    {
        let ghost p0: int = c.0 as int;
        let ghost st0 = state;
        let ghost q0 = is_q_param;
        let ghost cur0 = cur_result;
        let ghost best0 = best_result;
        match state {
            State::SearchingEncoding => {
                let c1 = c;
                match token(input, &mut c) {
                    Ok(tok) => {
                        cur_result = if bytes_eq_ignore_case(tok, encoding) || (is_gzip
                            && is_x_gzip_name(tok)) || (is_compress && is_x_compress_name(tok)) {
                            Some(
                                EncodingMatch {
                                    match_type: EncodingMatchType::Exact,
                                    q: QValue { millis: 1000 },
                                },
                            )
                        } else if tok.len() == 1 && tok[0] == ASTERISK {
                            Some(
                                EncodingMatch {
                                    match_type: EncodingMatchType::Wildcard,
                                    q: QValue { millis: 1000 },
                                },
                            )
                        } else {
                            None
                        };
                        state = State::SeenEncoding;
                        proof {
                            assert(cur_result == classify(s.subrange(p0, c.0 as int), enc));
                        }
                    },
                    Err(_) => {
                        return None;
                    },
                }
            },
            State::SeenEncoding => {
                ows(input, &mut c);
                if c.0 >= input.len() {
                    // end of input after optional whitespace: the loop exits
                    // and the candidate is finalized below
                } else if byte(input, &mut c, SEMICOLON).is_ok() {
                    ows(input, &mut c);
                    state = State::SeenSemicolon;
                } else if byte(input, &mut c, COMMA).is_ok() {
                    ows(input, &mut c);
                    may_update_best_result(&mut cur_result, &mut best_result);
                    state = State::SearchingEncoding;
                } else {
                    return None;
                }
            },
            State::SeenSemicolon => {
                match token(input, &mut c) {
                    Ok(param_name) => {
                        is_q_param = param_name.len() == 1 && byte_eq_ignore_case(
                            param_name[0],
                            113,
                        );
                        state = State::SeenParameterName;
                    },
                    Err(_) => {
                        return None;
                    },
                }
            },
            State::SeenParameterName => {
                if byte(input, &mut c, EQUAL_SIGN).is_err() {
                    return None;
                }
                state = State::SeenEqual;
            },
            State::SeenEqual => {
                if is_q_param {
                    match q_value(input, &mut c) {
                        Ok(q) => {
                            cur_result = match cur_result {
                                Some(cv) => Some(
                                    EncodingMatch { match_type: cv.match_type, q },
                                ),
                                None => None,
                            };
                            state = State::SeenParameterValue;
                        },
                        Err(_) => {
                            return None;
                        },
                    }
                } else {
                    if skip_token(input, &mut c).is_err() {
                        if quoted_string(input, &mut c).is_err() {
                            return None;
                        }
                    }
                    state = State::SeenParameterValue;
                }
            },
            State::SeenParameterValue => {
                ows(input, &mut c);
                if c.0 >= input.len() {
                    // end of input after optional whitespace: the loop exits
                    // and the candidate is finalized below
                } else if byte(input, &mut c, COMMA).is_ok() {
                    ows(input, &mut c);
                    may_update_best_result(&mut cur_result, &mut best_result);
                    state = State::SearchingEncoding;
                } else if byte(input, &mut c, SEMICOLON).is_ok() {
                    ows(input, &mut c);
                    state = State::SeenSemicolon;
                } else {
                    return None;
                }
            },
        }
        proof {
            assert(matcher_step(s, enc, p0, st0, q0, cur0, best0) == matcher_step(
                s,
                enc,
                c.0 as int,
                state,
                is_q_param,
                cur_result,
                best_result,
            ));
        }
    }
    may_update_best_result(&mut cur_result, &mut best_result);
    best_result
}

/// A candidate that is well-formed: its quality never leaves [0, 1000].
pub open spec fn opt_wf(o: Option<EncodingMatch>) -> bool {
    match o {
        Some(m) => crate::q_value::q_wf(m.q),
        None => true,
    }
}

/// Two verdicts of the same kind order by quality alone: the one with the
/// higher quality compares greater.
pub proof fn lemma_order_same_kind(a: EncodingMatch, b: EncodingMatch)
    requires
        a.match_type == b.match_type,
    ensures
        match_gt(a, b) <==> a.q.millis > b.q.millis,
{
}

/// An exact match always compares greater than a wildcard match, whatever
/// the qualities.
pub proof fn lemma_exact_beats_wildcard(a: EncodingMatch, b: EncodingMatch)
    requires
        a.match_type == EncodingMatchType::Exact,
        b.match_type == EncodingMatchType::Wildcard,
    ensures
        match_gt(a, b),
        !match_gt(b, a),
{
}

/// Only a strictly greater candidate replaces the best result: on a tie,
/// or when the candidate ranks lower, the old best stays.
pub proof fn lemma_ties_keep_best(cur: EncodingMatch, best: EncodingMatch)
    requires
        !match_gt(cur, best),
    ensures
        better(Some(cur), Some(best)) == Some(best),
{
}

/// The matcher is a function of its inputs alone: two runs over the same
/// header and encoding yield the same verdict.
pub proof fn lemma_match_for_encoding_deterministic(
    r1: Option<EncodingMatch>,
    r2: Option<EncodingMatch>,
    s: Seq<u8>,
    enc: Seq<u8>,
)
    requires
        r1 == match_encoding_spec(s, enc),
        r2 == match_encoding_spec(s, enc),
    ensures
        r1 == r2,
{
}

/// From any configuration with well-formed candidate and best slots, the
/// state machine yields a well-formed result, with a quality in [0, 1000].
pub proof fn lemma_matcher_step_wf(
    s: Seq<u8>,
    enc: Seq<u8>,
    p: int,
    st: State,
    is_q: bool,
    cur: Option<EncodingMatch>,
    best: Option<EncodingMatch>,
)
    requires
        0 <= p <= s.len(),
        opt_wf(cur),
        opt_wf(best),
    ensures
        opt_wf(matcher_step(s, enc, p, st, is_q, cur, best)),
    decreases s.len() - p,
{
    if p < s.len() {
        lemma_token_end_bounds(s, p);
        lemma_ows_end_bounds(s, p);
        let w = ows_end(s, p);
        if w + 1 <= s.len() {
            lemma_ows_end_bounds(s, w + 1);
        }
        lemma_qvalue_at_bounds(s, p);
        lemma_quoted_scan_bounds(s, p + 1);
        match st {
            State::SearchingEncoding => {
                let e = token_end(s, p);
                if e != p {
                    lemma_matcher_step_wf(
                        s,
                        enc,
                        e,
                        State::SeenEncoding,
                        is_q,
                        classify(s.subrange(p, e), enc),
                        best,
                    );
                }
            },
            State::SeenEncoding => {
                if w < s.len() && s[w] == SEMICOLON {
                    lemma_matcher_step_wf(
                        s,
                        enc,
                        ows_end(s, w + 1),
                        State::SeenSemicolon,
                        is_q,
                        cur,
                        best,
                    );
                } else if w < s.len() && s[w] == COMMA {
                    lemma_matcher_step_wf(
                        s,
                        enc,
                        ows_end(s, w + 1),
                        State::SearchingEncoding,
                        is_q,
                        None,
                        better(cur, best),
                    );
                }
            },
            State::SeenSemicolon => {
                let e = token_end(s, p);
                if e != p {
                    lemma_matcher_step_wf(
                        s,
                        enc,
                        e,
                        State::SeenParameterName,
                        name_q(s.subrange(p, e)),
                        cur,
                        best,
                    );
                }
            },
            State::SeenParameterName => {
                if s[p] == EQUAL_SIGN {
                    lemma_matcher_step_wf(s, enc, p + 1, State::SeenEqual, is_q, cur, best);
                }
            },
            State::SeenEqual => {
                if is_q {
                    match qvalue_at(s, p) {
                        Some(q) => {
                            lemma_matcher_step_wf(
                                s,
                                enc,
                                q.0,
                                State::SeenParameterValue,
                                is_q,
                                set_q(cur, q.1),
                                best,
                            );
                        },
                        None => {},
                    }
                } else {
                    let e = token_end(s, p);
                    if e != p {
                        lemma_matcher_step_wf(
                            s,
                            enc,
                            e,
                            State::SeenParameterValue,
                            is_q,
                            cur,
                            best,
                        );
                    } else {
                        let qs = quoted_string_at(s, p);
                        if qs.1 {
                            lemma_matcher_step_wf(
                                s,
                                enc,
                                qs.0,
                                State::SeenParameterValue,
                                is_q,
                                cur,
                                best,
                            );
                        }
                    }
                }
            },
            State::SeenParameterValue => {
                if w < s.len() && s[w] == COMMA {
                    lemma_matcher_step_wf(
                        s,
                        enc,
                        ows_end(s, w + 1),
                        State::SearchingEncoding,
                        is_q,
                        None,
                        better(cur, best),
                    );
                } else if w < s.len() && s[w] == SEMICOLON {
                    lemma_matcher_step_wf(
                        s,
                        enc,
                        ows_end(s, w + 1),
                        State::SeenSemicolon,
                        is_q,
                        cur,
                        best,
                    );
                }
            },
        }
    }
}

/// Whatever bytes come in, a verdict carries a quality in [0, 1000]: the
/// quality-value invariant holds of every result.
pub proof fn lemma_match_encoding_wf(s: Seq<u8>, enc: Seq<u8>)
    ensures
        opt_wf(match_encoding_spec(s, enc)),
{
    lemma_matcher_step_wf(s, enc, 0, State::SearchingEncoding, false, None, None);
}

/// True when `t` spells `gzip`, ASCII case-insensitively.
fn is_gzip_name(t: &[u8]) -> (r: bool)
    ensures
        r == name_gzip(t@),
{
    t.len() == 4 && byte_eq_ignore_case(t[0], 103) && byte_eq_ignore_case(t[1], 122)
        && byte_eq_ignore_case(t[2], 105) && byte_eq_ignore_case(t[3], 112)
}

/// True when `t` spells `x-gzip`, ASCII case-insensitively.
fn is_x_gzip_name(t: &[u8]) -> (r: bool)
    ensures
        r == name_x_gzip(t@),
{
    t.len() == 6 && byte_eq_ignore_case(t[0], 120) && byte_eq_ignore_case(t[1], 45)
        && byte_eq_ignore_case(t[2], 103) && byte_eq_ignore_case(t[3], 122) && byte_eq_ignore_case(
        t[4],
        105,
    ) && byte_eq_ignore_case(t[5], 112)
}

/// True when `t` spells `compress`, ASCII case-insensitively.
fn is_compress_name(t: &[u8]) -> (r: bool)
    ensures
        r == name_compress(t@),
{
    t.len() == 8 && byte_eq_ignore_case(t[0], 99) && byte_eq_ignore_case(t[1], 111)
        && byte_eq_ignore_case(t[2], 109) && byte_eq_ignore_case(t[3], 112) && byte_eq_ignore_case(
        t[4],
        114,
    ) && byte_eq_ignore_case(t[5], 101) && byte_eq_ignore_case(t[6], 115) && byte_eq_ignore_case(
        t[7],
        115,
    )
}

/// True when `t` spells `x-compress`, ASCII case-insensitively.
fn is_x_compress_name(t: &[u8]) -> (r: bool)
    ensures
        r == name_x_compress(t@),
{
    t.len() == 10 && byte_eq_ignore_case(t[0], 120) && byte_eq_ignore_case(t[1], 45)
        && byte_eq_ignore_case(t[2], 99) && byte_eq_ignore_case(t[3], 111) && byte_eq_ignore_case(
        t[4],
        109,
    ) && byte_eq_ignore_case(t[5], 112) && byte_eq_ignore_case(t[6], 114) && byte_eq_ignore_case(
        t[7],
        101,
    ) && byte_eq_ignore_case(t[8], 115) && byte_eq_ignore_case(t[9], 115)
}

} // verus!
