//! Reading a decimal integer from the front of a string, as the C library's
//! `atoi` does, with values out of the range of `i32` held at its bounds.
use vstd::prelude::*;
use crate::cstr::{cstr_view, lemma_nul_index, nul_index};

verus! {

/// A white space character of C `isspace`.
pub open spec fn is_space(c: u8) -> bool {
    c == 32 || (9 <= c <= 13)
}

pub open spec fn is_digit(c: u8) -> bool {
    48 <= c <= 57
}

/// The first position from `i` on that holds no white space.
pub open spec fn skip_spaces(v: Seq<u8>, i: int) -> int
    decreases v.len() - i,
{
    if 0 <= i < v.len() && is_space(v[i]) { skip_spaces(v, i + 1) } else { i }
}

/// The value of the digits from position `i` on, after the value `acc` of
/// those before.
pub open spec fn digits_value(v: Seq<u8>, i: int, acc: int) -> int
    decreases v.len() - i,
{
    if 0 <= i < v.len() && is_digit(v[i]) { digits_value(v, i + 1, acc * 10 + (v[i] - 48)) } else { acc }
}

/// `x` held inside the range of `i32`.
pub open spec fn clamp_i32(x: int) -> int {
    if x < i32::MIN { i32::MIN as int } else if x > i32::MAX { i32::MAX as int } else { x }
}

/// The integer at the front of the string held in `s`: white space, an
/// optional sign, then decimal digits; 0 when there are no digits.
pub open spec fn atoi_spec(s: Seq<u8>) -> int {
    let v = cstr_view(s);
    let i = skip_spaces(v, 0);
    let neg = i < v.len() && v[i] == 45;
    let j = if i < v.len() && (v[i] == 45 || v[i] == 43) { i + 1 } else { i };
    let n = digits_value(v, j, 0);
    clamp_i32(if neg { -n } else { n })
}

proof fn lemma_digits_grow(v: Seq<u8>, i: int, acc: int)
    requires
        acc >= 0,
    ensures
        digits_value(v, i, acc) >= acc,
    decreases v.len() - i,
{
    if 0 <= i < v.len() && is_digit(v[i]) {
        lemma_digits_grow(v, i + 1, acc * 10 + (v[i] - 48));
    }
}

/// Largest digit value kept exactly while reading.
pub const DIGITS_CAP: i64 = 0x8000_0000;

/// Reads the integer at the front of the string held in `s` (C `atoi`,
/// with out of range values held at the bounds of `i32`).
pub fn c_atoi(s: &[u8]) -> (r: i32)
    ensures
        r == atoi_spec(s@),
{
    proof { lemma_nul_index(s@); }
    let ghost v = cstr_view(s@);
    let len = crate::cstr::c_strlen(s);
    proof {
        assert(v.len() == len);
        assert forall|k: int| 0 <= k < len implies v[k] == s@[k] by {}
    }
    let mut i: usize = 0;
    while i < len && (s[i] == 32 || (9 <= s[i] && s[i] <= 13))
        invariant
            len == v.len(),
            len <= s@.len(),
            v == cstr_view(s@),
            forall|k: int| 0 <= k < len ==> v[k] == s@[k],
            i <= len,
            skip_spaces(v, i as int) == skip_spaces(v, 0),
        decreases len - i,
    {
        i = i + 1;
    }
    let mut neg = false;
    if i < len && (s[i] == 45 || s[i] == 43) {
        neg = s[i] == 45;
        i = i + 1;
    }
    let ghost j = i as int;
    let ghost total = digits_value(v, j, 0);
    let mut acc: i64 = 0;
    while i < len && 48 <= s[i] && s[i] <= 57
        invariant
            len == v.len(),
            len <= s@.len(),
            forall|k: int| 0 <= k < len ==> v[k] == s@[k],
            j <= i <= len,
            total == digits_value(v, j, 0),
            0 <= acc <= DIGITS_CAP + 1,
            acc <= DIGITS_CAP ==> digits_value(v, i as int, acc as int) == total,
            acc == DIGITS_CAP + 1 ==> total > DIGITS_CAP,
        decreases len - i,
    {
        let d = (s[i] - 48) as i64;
        if acc <= DIGITS_CAP {
            let next = acc * 10 + d;
            proof {
                assert(digits_value(v, i as int, acc as int) == digits_value(v, i + 1, next as int));
            }
            if next > DIGITS_CAP {
                proof {
                    lemma_digits_grow(v, i + 1, next as int);
                }
                acc = DIGITS_CAP + 1;
            } else {
                acc = next;
            }
        }
        i = i + 1;
    }
    proof {
        if acc <= DIGITS_CAP {
            assert(digits_value(v, i as int, acc as int) == acc);
        }
    }
    let r: i64 = if neg { -acc } else { acc };
    if r < i32::MIN as i64 {
        i32::MIN
    } else if r > i32::MAX as i64 {
        i32::MAX
    } else {
        r as i32
    }
}

} // verus!
