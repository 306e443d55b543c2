use vstd::prelude::*;

use crate::byte_slice::{byte_eq_ci, byte_eq_ignore_case, bytes_eq_ci, bytes_eq_ignore_case};
use crate::lexer::{
    comma, dq_end, equal, lemma_ows_end_bounds, lemma_quoted_scan_bounds, lemma_qvalue_at_bounds,
    lemma_token_end_bounds, ows, ows_end, parameter_value, q_value, qvalue_at, semicolon, slash,
    token, token_end, LexerToken, Position, ASTERISK, COMMA, EQUAL_SIGN, SEMICOLON, SLASH,
};
use crate::q_value::QValue;

verus! {

/// How strongly an alternative matched: `*/*` ranks below `type/*`, which
/// ranks below a full `type/subtype` match.
#[derive(Debug, PartialEq, Eq, PartialOrd, Ord, Copy, Clone)]
pub enum MimeTypeMatchType {
    MainTypeWildcard,
    SubTypeWildcard,
    Exact,
}

/// The verdict for one media type: how it matched, and with what quality.
#[derive(Debug, PartialEq, Eq, PartialOrd, Ord, Copy, Clone)]
pub struct MimeTypeMatch {
    pub match_type: MimeTypeMatchType,
    pub q: QValue,
}

/// The states of the finite-state walk over one header value.
#[derive(Debug, Copy, Clone)]
pub enum State {
    SearchingMainType,
    SeenMainType,
    SeenSlash,
    SeenSubType,
    SeenSemicolon,
    SeenParameterName,
    SeenEqual,
    SeenParameterValue,
}

/// Numeric strength of a match type; a larger rank wins.
pub open spec fn rank(t: MimeTypeMatchType) -> int {
    match t {
        MimeTypeMatchType::MainTypeWildcard => 0,
        MimeTypeMatchType::SubTypeWildcard => 1,
        MimeTypeMatchType::Exact => 2,
    }
}

/// The strict total-order comparison of two verdicts: match type first,
/// quality second.
pub open spec fn match_gt(a: MimeTypeMatch, b: MimeTypeMatch) -> bool {
    rank(a.match_type) > rank(b.match_type) || (rank(a.match_type) == rank(b.match_type)
        && a.q.millis > b.q.millis)
}

/// The better of the current candidate and the best seen so far; only a
/// strictly greater candidate replaces the best, so ties keep the old one.
pub open spec fn better(cur: Option<MimeTypeMatch>, best: Option<MimeTypeMatch>) -> Option<
    MimeTypeMatch,
> {
    match cur {
        Some(c) => match best {
            Some(b) => if match_gt(c, b) {
                cur
            } else {
                best
            },
            None => cur,
        },
        None => best,
    }
}

/// True when candidate `a` ranks strictly above candidate `b`; no verdict
/// at all ranks below any match.
pub open spec fn opt_gt(a: Option<MimeTypeMatch>, b: Option<MimeTypeMatch>) -> bool {
    match a {
        Some(av) => match b {
            Some(bv) => match_gt(av, bv),
            None => true,
        },
        None => false,
    }
}

/// A lone `*`, byte-exactly.
pub open spec fn star(t: Seq<u8>) -> bool {
    t.len() == 1 && t[0] == ASTERISK
}

/// `q`, ASCII case-insensitively.
pub open spec fn q_name(t: Seq<u8>) -> bool {
    t.len() == 1 && byte_eq_ci(t[0], 113)
}

/// The index of the first `/` in `t` at or after `i`, if any.
pub open spec fn find_slash(t: Seq<u8>, i: int) -> Option<int>
    decreases t.len() - i,
    when 0 <= i <= t.len()
{
    if i >= t.len() {
        None
    } else if t[i] == SLASH {
        Some(i)
    } else {
        find_slash(t, i + 1)
    }
}

pub proof fn lemma_find_slash_bounds(t: Seq<u8>, i: int)
    requires
        0 <= i <= t.len(),
    ensures
        (match find_slash(t, i) {
            Some(j) => i <= j < t.len() && t[j] == SLASH,
            None => true,
        }),
    decreases t.len() - i,
{
    if i < t.len() && t[i] != SLASH {
        lemma_find_slash_bounds(t, i + 1);
    }
}

/// The wanted media type split on its first `/` into main type and subtype,
/// or `None` when it holds no `/` at all.
pub open spec fn split_mime(t: Seq<u8>) -> Option<(Seq<u8>, Seq<u8>)> {
    match find_slash(t, 0) {
        Some(i) => Some((t.subrange(0, i), t.subrange(i + 1, t.len() as int))),
        None => None,
    }
}

/// The classification of one `main/sub` alternative against the wanted
/// `want_main/want_sub`: `*/*` is a main-type wildcard, a case-insensitive
/// main-type match combines with an exact subtype into an exact match or
/// with `*` into a subtype wildcard, and anything else does not match.
/// The `*` comparisons are byte-exact, never case-folded.
pub open spec fn match_kind(
    main: Seq<u8>,
    sub: Seq<u8>,
    want_main: Seq<u8>,
    want_sub: Seq<u8>,
) -> Option<MimeTypeMatchType> {
    if star(main) {
        if star(sub) {
            Some(MimeTypeMatchType::MainTypeWildcard)
        } else {
            None
        }
    } else if bytes_eq_ci(main, want_main) {
        if bytes_eq_ci(sub, want_sub) {
            Some(MimeTypeMatchType::Exact)
        } else if star(sub) {
            Some(MimeTypeMatchType::SubTypeWildcard)
        } else {
            None
        }
    } else {
        None
    }
}

/// The current candidate with its quality overwritten by `m`, when there is
/// one.
pub open spec fn set_q(cur: Option<MimeTypeMatch>, m: u16) -> Option<MimeTypeMatch> {
    match cur {
        Some(c) => Some(MimeTypeMatch { match_type: c.match_type, q: QValue { millis: m } }),
        None => None,
    }
}

/// One configuration of the matcher's state machine, run to completion: the
/// result of scanning `s` from position `p` in state `st`, with `main` the
/// main type of the alternative being scanned, `is_q` telling whether the
/// parameter under scrutiny is named `q`, `cur` the candidate for the
/// alternative being scanned and `best` the best completed alternative.
/// Reaching the end of the input, even across optional whitespace,
/// finalizes the candidate against the best; any byte that breaks the
/// grammar yields `None` for the whole header.
pub open spec fn matcher_step(
    s: Seq<u8>,
    want_main: Seq<u8>,
    want_sub: Seq<u8>,
    p: int,
    st: State,
    main: Seq<u8>,
    is_q: bool,
    cur: Option<MimeTypeMatch>,
    best: Option<MimeTypeMatch>,
) -> Option<MimeTypeMatch>
    decreases s.len() - p,
    when 0 <= p <= s.len()
    via matcher_step_decreases
{
    if p >= s.len() {
        better(cur, best)
    } else {
        match st {
            State::SearchingMainType => {
                let e = token_end(s, p);
                if e == p {
                    None
                } else {
                    matcher_step(
                        s,
                        want_main,
                        want_sub,
                        e,
                        State::SeenMainType,
                        s.subrange(p, e),
                        is_q,
                        cur,
                        best,
                    )
                }
            },
            State::SeenMainType => {
                if s[p] == SLASH {
                    matcher_step(s, want_main, want_sub, p + 1, State::SeenSlash, main, is_q, cur, best)
                } else {
                    None
                }
            },
            State::SeenSlash => {
                let e = token_end(s, p);
                if e == p {
                    None
                } else {
                    matcher_step(
                        s,
                        want_main,
                        want_sub,
                        e,
                        State::SeenSubType,
                        main,
                        is_q,
                        (match match_kind(main, s.subrange(p, e), want_main, want_sub) {
                            Some(k) => Some(MimeTypeMatch { match_type: k, q: QValue { millis: 1000 } }),
                            None => None,
                        }),
                        best,
                    )
                }
            },
            State::SeenSubType => {
                let w = ows_end(s, p);
                if w >= s.len() {
                    better(cur, best)
                } else if s[w] == SEMICOLON {
                    matcher_step(
                        s,
                        want_main,
                        want_sub,
                        ows_end(s, w + 1),
                        State::SeenSemicolon,
                        main,
                        is_q,
                        cur,
                        best,
                    )
                } else if s[w] == COMMA {
                    matcher_step(
                        s,
                        want_main,
                        want_sub,
                        ows_end(s, w + 1),
                        State::SearchingMainType,
                        main,
                        is_q,
                        None,
                        better(cur, best),
                    )
                } else {
                    None
                }
            },
            State::SeenSemicolon => {
                let e = token_end(s, p);
                if e == p {
                    None
                } else {
                    matcher_step(
                        s,
                        want_main,
                        want_sub,
                        e,
                        State::SeenParameterName,
                        main,
                        q_name(s.subrange(p, e)),
                        cur,
                        best,
                    )
                }
            },
            State::SeenParameterName => {
                if s[p] == EQUAL_SIGN {
                    matcher_step(s, want_main, want_sub, p + 1, State::SeenEqual, main, is_q, cur, best)
                } else {
                    None
                }
            },
            State::SeenEqual => {
                if is_q {
                    match qvalue_at(s, p) {
                        Some(q) => matcher_step(
                            s,
                            want_main,
                            want_sub,
                            q.0,
                            State::SeenParameterValue,
                            main,
                            is_q,
                            set_q(cur, q.1),
                            best,
                        ),
                        None => None,
                    }
                } else {
                    let e = token_end(s, p);
                    if e != p {
                        matcher_step(
                            s,
                            want_main,
                            want_sub,
                            e,
                            State::SeenParameterValue,
                            main,
                            is_q,
                            cur,
                            best,
                        )
                    } else {
                        match dq_end(s, p) {
                            Some(e2) => matcher_step(
                                s,
                                want_main,
                                want_sub,
                                e2,
                                State::SeenParameterValue,
                                main,
                                is_q,
                                cur,
                                best,
                            ),
                            None => None,
                        }
                    }
                }
            },
            State::SeenParameterValue => {
                let w = ows_end(s, p);
                if w >= s.len() {
                    better(cur, best)
                } else if s[w] == COMMA {
                    matcher_step(
                        s,
                        want_main,
                        want_sub,
                        ows_end(s, w + 1),
                        State::SearchingMainType,
                        main,
                        is_q,
                        None,
                        better(cur, best),
                    )
                } else if s[w] == SEMICOLON {
                    matcher_step(
                        s,
                        want_main,
                        want_sub,
                        ows_end(s, w + 1),
                        State::SeenSemicolon,
                        main,
                        is_q,
                        cur,
                        best,
                    )
                } else {
                    None
                }
            },
        }
    }
}

#[via_fn]
proof fn matcher_step_decreases(
    s: Seq<u8>,
    want_main: Seq<u8>,
    want_sub: Seq<u8>,
    p: int,
    st: State,
    main: Seq<u8>,
    is_q: bool,
    cur: Option<MimeTypeMatch>,
    best: Option<MimeTypeMatch>,
) {
    if p < s.len() {
        lemma_token_end_bounds(s, p);
        lemma_ows_end_bounds(s, p);
        let w = ows_end(s, p);
        if w + 1 <= s.len() {
            lemma_ows_end_bounds(s, w + 1);
        }
        lemma_qvalue_at_bounds(s, p);
        lemma_quoted_scan_bounds(s, p + 1);
    }
}

/// The verdict for the whole header value `s` against the wanted media type
/// `mime`: `None` outright when `mime` cannot be split on a `/`, else the
/// state machine run from the start with no candidate and no best result.
pub open spec fn match_mime_type_spec(s: Seq<u8>, mime: Seq<u8>) -> Option<MimeTypeMatch> {
    match split_mime(mime) {
        Some(parts) => matcher_step(
            s,
            parts.0,
            parts.1,
            0,
            State::SearchingMainType,
            Seq::empty(),
            false,
            None,
            None,
        ),
        None => None,
    }
}

/// A candidate that is well-formed: its quality never leaves [0, 1000].
pub open spec fn opt_wf(o: Option<MimeTypeMatch>) -> bool {
    match o {
        Some(m) => crate::q_value::q_wf(m.q),
        None => true,
    }
}

/// Two verdicts of the same kind order by quality alone: the one with the
/// higher quality compares greater.
pub proof fn lemma_order_same_kind(a: MimeTypeMatch, b: MimeTypeMatch)
    requires
        a.match_type == b.match_type,
    ensures
        match_gt(a, b) <==> a.q.millis > b.q.millis,
{
}

/// A stronger match kind always compares greater, whatever the qualities:
/// exact above subtype wildcard above main-type wildcard.
pub proof fn lemma_stronger_kind_wins(a: MimeTypeMatch, b: MimeTypeMatch)
    requires
        rank(a.match_type) > rank(b.match_type),
    ensures
        match_gt(a, b),
        !match_gt(b, a),
{
}

/// The matcher is a function of its inputs alone: two runs over the same
/// header and media type yield the same verdict.
pub proof fn lemma_match_for_mime_type_deterministic(
    r1: Option<MimeTypeMatch>,
    r2: Option<MimeTypeMatch>,
    s: Seq<u8>,
    mime: Seq<u8>,
)
    requires
        r1 == match_mime_type_spec(s, mime),
        r2 == match_mime_type_spec(s, mime),
    ensures
        r1 == r2,
{
}

/// From any configuration with well-formed candidate and best slots, the
/// state machine yields a well-formed result, with a quality in [0, 1000].
pub proof fn lemma_matcher_step_wf(
    s: Seq<u8>,
    want_main: Seq<u8>,
    want_sub: Seq<u8>,
    p: int,
    st: State,
    main: Seq<u8>,
    is_q: bool,
    cur: Option<MimeTypeMatch>,
    best: Option<MimeTypeMatch>,
)
    requires
        0 <= p <= s.len(),
        opt_wf(cur),
        opt_wf(best),
    ensures
        opt_wf(matcher_step(s, want_main, want_sub, p, st, main, is_q, cur, best)),
    decreases s.len() - p,
{
    if p < s.len() {
        lemma_token_end_bounds(s, p);
        lemma_ows_end_bounds(s, p);
        let w = ows_end(s, p);
        if w + 1 <= s.len() {
            lemma_ows_end_bounds(s, w + 1);
        }
        lemma_qvalue_at_bounds(s, p);
        lemma_quoted_scan_bounds(s, p + 1);
        let e = token_end(s, p);
        match st {
            State::SearchingMainType => {
                if e != p {
                    lemma_matcher_step_wf(
                        s,
                        want_main,
                        want_sub,
                        e,
                        State::SeenMainType,
                        s.subrange(p, e),
                        is_q,
                        cur,
                        best,
                    );
                }
            },
            State::SeenMainType => {
                if s[p] == SLASH {
                    lemma_matcher_step_wf(
                        s,
                        want_main,
                        want_sub,
                        p + 1,
                        State::SeenSlash,
                        main,
                        is_q,
                        cur,
                        best,
                    );
                }
            },
            State::SeenSlash => {
                if e != p {
                    lemma_matcher_step_wf(
                        s,
                        want_main,
                        want_sub,
                        e,
                        State::SeenSubType,
                        main,
                        is_q,
                        (match match_kind(main, s.subrange(p, e), want_main, want_sub) {
                            Some(k) => Some(
                                MimeTypeMatch { match_type: k, q: QValue { millis: 1000 } },
                            ),
                            None => None,
                        }),
                        best,
                    );
                }
            },
            State::SeenSubType => {
                if w < s.len() && s[w] == SEMICOLON {
                    lemma_matcher_step_wf(
                        s,
                        want_main,
                        want_sub,
                        ows_end(s, w + 1),
                        State::SeenSemicolon,
                        main,
                        is_q,
                        cur,
                        best,
                    );
                } else if w < s.len() && s[w] == COMMA {
                    lemma_matcher_step_wf(
                        s,
                        want_main,
                        want_sub,
                        ows_end(s, w + 1),
                        State::SearchingMainType,
                        main,
                        is_q,
                        None,
                        better(cur, best),
                    );
                }
            },
            State::SeenSemicolon => {
                if e != p {
                    lemma_matcher_step_wf(
                        s,
                        want_main,
                        want_sub,
                        e,
                        State::SeenParameterName,
                        main,
                        q_name(s.subrange(p, e)),
                        cur,
                        best,
                    );
                }
            },
            State::SeenParameterName => {
                if s[p] == EQUAL_SIGN {
                    lemma_matcher_step_wf(
                        s,
                        want_main,
                        want_sub,
                        p + 1,
                        State::SeenEqual,
                        main,
                        is_q,
                        cur,
                        best,
                    );
                }
            },
            State::SeenEqual => {
                if is_q {
                    match qvalue_at(s, p) {
                        Some(q) => {
                            lemma_matcher_step_wf(
                                s,
                                want_main,
                                want_sub,
                                q.0,
                                State::SeenParameterValue,
                                main,
                                is_q,
                                set_q(cur, q.1),
                                best,
                            );
                        },
                        None => {},
                    }
                } else {
                    if e != p {
                        lemma_matcher_step_wf(
                            s,
                            want_main,
                            want_sub,
                            e,
                            State::SeenParameterValue,
                            main,
                            is_q,
                            cur,
                            best,
                        );
                    } else {
                        match dq_end(s, p) {
                            Some(e2) => {
                                lemma_matcher_step_wf(
                                    s,
                                    want_main,
                                    want_sub,
                                    e2,
                                    State::SeenParameterValue,
                                    main,
                                    is_q,
                                    cur,
                                    best,
                                );
                            },
                            None => {},
                        }
                    }
                }
            },
            State::SeenParameterValue => {
                if w < s.len() && s[w] == COMMA {
                    lemma_matcher_step_wf(
                        s,
                        want_main,
                        want_sub,
                        ows_end(s, w + 1),
                        State::SearchingMainType,
                        main,
                        is_q,
                        None,
                        better(cur, best),
                    );
                } else if w < s.len() && s[w] == SEMICOLON {
                    lemma_matcher_step_wf(
                        s,
                        want_main,
                        want_sub,
                        ows_end(s, w + 1),
                        State::SeenSemicolon,
                        main,
                        is_q,
                        cur,
                        best,
                    );
                }
            },
        }
    }
}

/// Whatever bytes come in, a verdict carries a quality in [0, 1000]: the
/// quality-value invariant holds of every result.
pub proof fn lemma_match_mime_type_wf(s: Seq<u8>, mime: Seq<u8>)
    ensures
        opt_wf(match_mime_type_spec(s, mime)),
{
    match split_mime(mime) {
        Some(parts) => {
            lemma_matcher_step_wf(
                s,
                parts.0,
                parts.1,
                0,
                State::SearchingMainType,
                Seq::empty(),
                false,
                None,
                None,
            );
        },
        None => {},
    }
}

/// Compares two verdicts under the total order: match type first, quality
/// second.
pub fn mime_type_match_gt(a: &MimeTypeMatch, b: &MimeTypeMatch) -> (r: bool)
    ensures
        r == match_gt(*a, *b),
{
    let ra: u8 = match a.match_type {
        MimeTypeMatchType::MainTypeWildcard => 0,
        MimeTypeMatchType::SubTypeWildcard => 1,
        MimeTypeMatchType::Exact => 2,
    };
    let rb: u8 = match b.match_type {
        MimeTypeMatchType::MainTypeWildcard => 0,
        MimeTypeMatchType::SubTypeWildcard => 1,
        MimeTypeMatchType::Exact => 2,
    };
    ra > rb || (ra == rb && a.q.millis > b.q.millis)
}

/// True when candidate `a` ranks strictly above candidate `b`, a missing
/// verdict ranking below any match.
pub fn is_better(a: &Option<MimeTypeMatch>, b: &Option<MimeTypeMatch>) -> (r: bool)
    ensures
        r == opt_gt(*a, *b),
{
    match *a {
        Some(av) => match *b {
            Some(bv) => mime_type_match_gt(&av, &bv),
            None => true,
        },
        None => false,
    }
}

/// Replaces the best result with the current candidate when the candidate
/// ranks strictly higher, and clears the candidate slot.
fn may_update_best_result(
    cur_result: &mut Option<MimeTypeMatch>,
    best_result: &mut Option<MimeTypeMatch>,
)
    ensures
        *final(best_result) == better(*old(cur_result), *old(best_result)),
        *final(cur_result) is None,
{
    let update = match *cur_result {
        Some(cv) => match *best_result {
            Some(bv) => mime_type_match_gt(&cv, &bv),
            None => true,
        },
        None => false,
    };
    if update {
        *best_result = *cur_result;
    }
    *cur_result = None;
}

/// Splits a media type on its first `/` into main type and subtype; hands
/// back `None` when it holds no `/`.
pub fn split_mime_type(mime_type: &[u8]) -> (r: Option<(&[u8], &[u8])>)
    ensures
        (match split_mime(mime_type@) {
            Some(parts) => (match r {
                Some(pair) => pair.0@ == parts.0 && pair.1@ == parts.1,
                None => false,
            }),
            None => r is None,
        }),
{
    proof {
        lemma_find_slash_bounds(mime_type@, 0);
    }
    let mut i: usize = 0;
    while i < mime_type.len() && mime_type[i] != SLASH
        invariant
            0 <= i <= mime_type@.len(),
            find_slash(mime_type@, 0) == find_slash(mime_type@, i as int),
        decreases mime_type@.len() - i,
    {
        i = i + 1;
    }
    if i < mime_type.len() {
        let main_type = vstd::slice::slice_subrange(mime_type, 0, i);
        let subtype = vstd::slice::slice_subrange(mime_type, i + 1, mime_type.len());
        Some((main_type, subtype))
    } else {
        None
    }
}

/// Classifies one `main/sub` alternative against the wanted pair.
pub fn get_mime_type_match_type(
    main_type: &[u8],
    subtype: &[u8],
    want_main_type: &[u8],
    want_subtype: &[u8],
) -> (r: Option<MimeTypeMatchType>)
    ensures
        r == match_kind(main_type@, subtype@, want_main_type@, want_subtype@),
{
    let main_is_star = main_type.len() == 1 && main_type[0] == ASTERISK;
    let sub_is_star = subtype.len() == 1 && subtype[0] == ASTERISK;
    if main_is_star {
        if sub_is_star {
            Some(MimeTypeMatchType::MainTypeWildcard)
        } else {
            None
        }
    } else if bytes_eq_ignore_case(main_type, want_main_type) {
        if bytes_eq_ignore_case(subtype, want_subtype) {
            Some(MimeTypeMatchType::Exact)
        } else if sub_is_star {
            Some(MimeTypeMatchType::SubTypeWildcard)
        } else {
            None
        }
    } else {
        None
    }
}

/// Scans the whole `Accept`-style header value `input` and hands back the
/// strongest verdict for the wanted `mime_type` (which must be a plain
/// `type/subtype` to stand any chance), or `None` when no alternative
/// matches or the header breaks the grammar anywhere.
pub fn match_for_mime_type(header_value: &[u8], mime_type: &[u8]) -> (r: Option<MimeTypeMatch>)
    ensures
        r == match_mime_type_spec(header_value@, mime_type@),
        opt_wf(r),
{
    proof {
        lemma_match_mime_type_wf(header_value@, mime_type@);
    }
    let ghost s = header_value@;

    let (want_main_type, want_subtype) = match split_mime_type(mime_type) {
        Some(parts) => parts,
        None => {
            return None;
        },
    };
    let ghost wm = want_main_type@;
    let ghost ws = want_subtype@;

    let mut state = State::SearchingMainType;
    let mut cur_result: Option<MimeTypeMatch> = None;
    let mut best_result: Option<MimeTypeMatch> = None;

    let mut cur_main_type: Option<&[u8]> = None;
    let ghost mut main_g: Seq<u8> = Seq::empty();
    let mut is_q_param = false;
    let mut pos: Position = 0;
    while pos < header_value.len()
        invariant
            pos <= s.len(),
            s == header_value@,
            wm == want_main_type@,
            ws == want_subtype@,
            split_mime(mime_type@) == Some::<(Seq<u8>, Seq<u8>)>((wm, ws)),
            (match state {
                State::SeenMainType | State::SeenSlash => (match cur_main_type {
                    Some(m) => m@ == main_g,
                    None => false,
                }),
                _ => true,
            }),
            matcher_step(s, wm, ws, pos as int, state, main_g, is_q_param, cur_result, best_result)
                == matcher_step(
                s,
                wm,
                ws,
                0,
                State::SearchingMainType,
                Seq::empty(),
                false,
                None,
                None,
            ),
        decreases s.len() - pos,
    {
        let ghost p0: int = pos as int;
        let ghost st0 = state;
        let ghost q0 = is_q_param;
        let ghost cur0 = cur_result;
        let ghost best0 = best_result;
        let ghost main0 = main_g;
        match state {
            State::SearchingMainType => {
                let (pos2, t) = token(header_value, pos);
                match t {
                    Some(LexerToken::Token(tok)) => {
                        pos = pos2;
                        cur_main_type = Some(tok);
                        proof {
                            main_g = tok@;
                        }
                        state = State::SeenMainType;
                    },
                    _ => {
                        return None;
                    },
                }
            },
            State::SeenMainType => {
                let (pos2, t) = slash(header_value, pos);
                match t {
                    Some(LexerToken::Slash) => {
                        pos = pos2;
                        state = State::SeenSlash;
                    },
                    _ => {
                        return None;
                    },
                }
            },
            State::SeenSlash => {
                let (pos2, t) = token(header_value, pos);
                match t {
                    Some(LexerToken::Token(subtype)) => {
                        pos = pos2;
                        let main_type = match cur_main_type {
                            Some(m) => m,
                            None => {
                                return None;
                            },
                        };
                        cur_result = match get_mime_type_match_type(
                            main_type,
                            subtype,
                            want_main_type,
                            want_subtype,
                        ) {
                            Some(k) => Some(
                                MimeTypeMatch { match_type: k, q: QValue { millis: 1000 } },
                            ),
                            None => None,
                        };
                        state = State::SeenSubType;
                    },
                    _ => {
                        return None;
                    },
                }
            },
            State::SeenSubType => {
                pos = ows(header_value, pos);
                if pos >= header_value.len() {
                    // end of input after optional whitespace: the loop exits
                    // and the candidate is finalized below
                    continue;
                }
                let (pos2, t) = semicolon(header_value, pos);
                if t.is_some() {
                    pos = ows(header_value, pos2);
                    state = State::SeenSemicolon;
                } else {
                    let (pos3, t2) = comma(header_value, pos);
                    if t2.is_some() {
                        pos = ows(header_value, pos3);
                        may_update_best_result(&mut cur_result, &mut best_result);
                        state = State::SearchingMainType;
                    } else {
                        return None;
                    }
                }
            },
            State::SeenSemicolon => {
                let (pos2, t) = token(header_value, pos);
                match t {
                    Some(LexerToken::Token(param_name)) => {
                        pos = pos2;
                        is_q_param = param_name.len() == 1 && byte_eq_ignore_case(
                            param_name[0],
                            113,
                        );
                        state = State::SeenParameterName;
                    },
                    _ => {
                        return None;
                    },
                }
            },
            State::SeenParameterName => {
                let (pos2, t) = equal(header_value, pos);
                if t.is_some() {
                    pos = pos2;
                    state = State::SeenEqual;
                } else {
                    return None;
                }
            },
            State::SeenEqual => {
                if is_q_param {
                    let (pos2, t) = q_value(header_value, pos);
                    match t {
                        Some(LexerToken::QValue(q)) => {
                            pos = pos2;
                            cur_result = match cur_result {
                                Some(cv) => Some(MimeTypeMatch { match_type: cv.match_type, q }),
                                None => None,
                            };
                        },
                        _ => {
                            return None;
                        },
                    }
                } else {
                    let (pos2, t) = parameter_value(header_value, pos);
                    if t.is_some() {
                        pos = pos2;
                    } else {
                        return None;
                    }
                }
                state = State::SeenParameterValue;
            },
            State::SeenParameterValue => {
                pos = ows(header_value, pos);
                if pos >= header_value.len() {
                    // end of input after optional whitespace: the loop exits
                    // and the candidate is finalized below
                    continue;
                }
                let (pos2, t) = comma(header_value, pos);
                if t.is_some() {
                    pos = ows(header_value, pos2);
                    may_update_best_result(&mut cur_result, &mut best_result);
                    state = State::SearchingMainType;
                } else {
                    let (pos3, t2) = semicolon(header_value, pos);
                    if t2.is_some() {
                        pos = ows(header_value, pos3);
                        state = State::SeenSemicolon;
                    } else {
                        return None;
                    }
                }
            },
        }
        proof {
            assert(matcher_step(s, wm, ws, p0, st0, main0, q0, cur0, best0) == matcher_step(
                s,
                wm,
                ws,
                pos as int,
                state,
                main_g,
                is_q_param,
                cur_result,
                best_result,
            ));
        }
    }
    may_update_best_result(&mut cur_result, &mut best_result);
    best_result
}

} // verus!
