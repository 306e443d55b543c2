use vstd::prelude::*;
use vstd::string::StringSliceAdditionalSpecFns;

verus! {

/// `0` in ASCII.
pub const DIGIT_ZERO: u8 = 48;

/// `9` in ASCII.
pub const DIGIT_NINE: u8 = 57;

/// `1` in ASCII.
pub const DIGIT_ONE: u8 = 49;

/// `.` in ASCII.
pub const PERIOD: u8 = 46;

/// The largest quality value, expressed in thousandths.
pub const MAX_MILLIS: u16 = 1000;

/// True when `b` is an ASCII decimal digit.
pub open spec fn digit(b: u8) -> bool {
    DIGIT_ZERO <= b <= DIGIT_NINE
}

/// A quality weight in the closed interval [0, 1], held as a count of
/// thousandths so that comparisons are plain integer comparisons.
#[derive(Debug, PartialOrd, Ord, PartialEq, Eq, Copy, Clone)]
pub struct QValue {
    pub millis: u16,
}

/// The error reported when a candidate quality value lies outside [0, 1]
/// or its text does not follow the quality-value grammar.
#[derive(Debug, PartialEq)]
pub struct InvaliQValueError;

/// Well-formedness of a quality value: at most 1000 thousandths.
pub open spec fn q_wf(q: QValue) -> bool {
    q.millis <= MAX_MILLIS
}

/// The number of thousandths denoted by the (at most three) fraction digits
/// `s[p..e]`, read as if padded with zeros to three digits.
pub open spec fn frac_value(s: Seq<u8>, p: int, e: int) -> int {
    if e - p <= 0 {
        0
    } else if e - p == 1 {
        (s[p] - DIGIT_ZERO) * 100
    } else if e - p == 2 {
        (s[p] - DIGIT_ZERO) * 100 + (s[p + 1] - DIGIT_ZERO) * 10
    } else {
        (s[p] - DIGIT_ZERO) * 100 + (s[p + 1] - DIGIT_ZERO) * 10 + (s[p + 2] - DIGIT_ZERO)
    }
}

/// True when every byte of `s[p..e]` is an ASCII decimal digit.
pub open spec fn all_digits(s: Seq<u8>, p: int, e: int) -> bool {
    forall|i: int| p <= i < e ==> digit(s[i])
}

/// The number of thousandths denoted by a whole string under the strict
/// quality-value grammar `("0" ["." 0*3DIGIT]) / ("1" ["." 0*3"0"])`,
/// or `None` when the string breaks the grammar.
pub open spec fn q_millis_from_text(v: Seq<u8>) -> Option<u16> {
    if v.len() == 0 {
        None
    } else if v[0] == DIGIT_ZERO {
        if (v.len() > 1 && v[1] != PERIOD) || v.len() > 5 {
            None
        } else if all_digits(v, 2, v.len() as int) {
            Some(frac_value(v, 2, v.len() as int) as u16)
        } else {
            None
        }
    } else if v[0] == DIGIT_ONE {
        if (v.len() > 1 && v[1] != PERIOD) || v.len() > 5 {
            None
        } else if forall|i: int| 2 <= i < v.len() ==> v[i] == DIGIT_ZERO {
            Some(MAX_MILLIS)
        } else {
            None
        }
    } else {
        None
    }
}

/// Every quality value the grammar yields lies in [0, 1000].
pub proof fn lemma_q_millis_from_text_wf(v: Seq<u8>)
    ensures
        (match q_millis_from_text(v) {
            Some(m) => m <= MAX_MILLIS,
            None => true,
        }),
{
}

impl QValue {
    /// Builds a quality value from a count of thousandths, rejecting
    /// anything above 1000.
    pub fn from_millis(millis: u16) -> (r: Result<Self, InvaliQValueError>)
        ensures
            millis <= MAX_MILLIS ==> r == Ok::<QValue, InvaliQValueError>(QValue { millis }),
            millis > MAX_MILLIS ==> r == Err::<QValue, InvaliQValueError>(InvaliQValueError),
    {
        if millis <= MAX_MILLIS {
            Ok(Self { millis })
        } else {
            Err(InvaliQValueError)
        }
    }
}

impl<'a> TryFrom<&'a str> for QValue {
    type Error = InvaliQValueError;

    /// Parses a whole string under the strict quality-value grammar.
    fn try_from(s: &'a str) -> (r: Result<Self, Self::Error>) {
        let v = s.as_bytes();
        let n = v.len();
        if n == 0 {
            return Err(InvaliQValueError);
        }
        if v[0] == DIGIT_ZERO {
            if (n > 1 && v[1] != PERIOD) || n > 5 {
                return Err(InvaliQValueError);
            }
            let mut millis: u16 = 0;
            if n > 2 {
                let b = v[2];
                if b < DIGIT_ZERO || b > DIGIT_NINE {
                    return Err(InvaliQValueError);
                }
                millis = (b - DIGIT_ZERO) as u16 * 100;
            }
            if n > 3 {
                let b = v[3];
                if b < DIGIT_ZERO || b > DIGIT_NINE {
                    return Err(InvaliQValueError);
                }
                millis = millis + (b - DIGIT_ZERO) as u16 * 10;
            }
            if n > 4 {
                let b = v[4];
                if b < DIGIT_ZERO || b > DIGIT_NINE {
                    return Err(InvaliQValueError);
                }
                millis = millis + (b - DIGIT_ZERO) as u16;
            }
            Ok(Self { millis })
        } else if v[0] == DIGIT_ONE {
            if (n > 1 && v[1] != PERIOD) || n > 5 {
                return Err(InvaliQValueError);
            }
            if n > 2 && v[2] != DIGIT_ZERO {
                return Err(InvaliQValueError);
            }
            if n > 3 && v[3] != DIGIT_ZERO {
                return Err(InvaliQValueError);
            }
            if n > 4 && v[4] != DIGIT_ZERO {
                return Err(InvaliQValueError);
            }
            Ok(Self { millis: MAX_MILLIS })
        } else {
            Err(InvaliQValueError)
        }
    }
}

impl<'a> vstd::std_specs::convert::TryFromSpecImpl<&'a str> for QValue {
    open spec fn obeys_try_from_spec() -> bool {
        true
    }

    open spec fn try_from_spec(s: &'a str) -> Result<QValue, InvaliQValueError> {
        match q_millis_from_text(s.spec_bytes()) {
            Some(m) => Ok(QValue { millis: m }),
            None => Err(InvaliQValueError),
        }
    }
}

} // verus!
