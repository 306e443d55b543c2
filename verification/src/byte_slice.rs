use vstd::prelude::*;

verus! {

/// `b` with an ASCII upper-case letter folded to its lower-case form;
/// every other byte is left as it is.
pub open spec fn fold_lower(b: u8) -> u8 {
    if 65 <= b <= 90 {
        (b + 32) as u8
    } else {
        b
    }
}

/// ASCII case-insensitive equality of two bytes.
pub open spec fn byte_eq_ci(b1: u8, b2: u8) -> bool {
    fold_lower(b1) == fold_lower(b2)
}

/// ASCII case-insensitive equality of two byte sequences.
pub open spec fn bytes_eq_ci(s1: Seq<u8>, s2: Seq<u8>) -> bool {
    s1.len() == s2.len() && forall|i: int| 0 <= i < s1.len() ==> byte_eq_ci(s1[i], s2[i])
}

/// Compares two bytes for ASCII case-insensitive equality.
///
/// Either the bytes are equal outright, or OR-ing both with 0x20 yields the
/// same lower-case letter; the OR only folds upper to lower for ASCII letters,
/// so the result is checked to lie in `a`..=`z`.
pub fn byte_eq_ignore_case(b1: u8, b2: u8) -> (r: bool)
    ensures
        r == byte_eq_ci(b1, b2),
{
    let b1_not_upper: u8 = b1 | 0b010_0000;
    let b2_not_upper: u8 = b2 | 0b010_0000;
    let r = b1 == b2 || (97 <= b1_not_upper && b1_not_upper <= 122 && b1_not_upper == b2_not_upper);
    proof {
        assert((b1 == b2 || (97 <= (b1 | 0b010_0000) && (b1 | 0b010_0000) <= 122 && (b1
            | 0b010_0000) == (b2 | 0b010_0000))) == ((if 65 <= b1 <= 90 {
            (b1 + 32) as u8
        } else {
            b1
        }) == (if 65 <= b2 <= 90 {
            (b2 + 32) as u8
        } else {
            b2
        }))) by (bit_vector);
    }
    r
}

/// Compares two byte slices for ASCII case-insensitive equality.
pub fn bytes_eq_ignore_case(bytes1: &[u8], bytes2: &[u8]) -> (r: bool)
    ensures
        r == bytes_eq_ci(bytes1@, bytes2@),
{
    if bytes1.len() != bytes2.len() {
        return false;
    }
    let n = bytes1.len();
    let mut i: usize = 0;
    while i < n
        invariant
            0 <= i <= n,
            n == bytes1@.len() == bytes2@.len(),
            forall|j: int| 0 <= j < i ==> byte_eq_ci(bytes1@[j], bytes2@[j]),
        decreases n - i,
    {
        if !byte_eq_ignore_case(bytes1[i], bytes2[i]) {
            return false;
        }
        i = i + 1;
    }
    true
}

} // verus!
