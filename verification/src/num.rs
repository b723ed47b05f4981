//! Numeric field parsing.
//!
//! Two grammars are used by the pipeline. Ordinals, vote counts and
//! years are plain digit strings (`spec_parse_u32`); the rating score is
//! a decimal with an optional fractional part (`spec_parse_decimal`),
//! held exactly as an integer digit string plus a scale, so that the
//! core never touches floating point. A value that does not match its
//! grammar, or does not fit its type, does not parse; whether that skips
//! a field or aborts the run is the caller's policy.

use vstd::prelude::*;

verus! {

/// A decimal digit.
pub open spec fn is_digit_char(c: char) -> bool {
    '0' as u32 <= c as u32 && c as u32 <= '9' as u32
}

/// The numeric value of a digit character.
pub open spec fn digit_val(c: char) -> nat {
    (c as u32 - '0' as u32) as nat
}

/// Every character of `s` is a digit.
pub open spec fn all_digits(s: Seq<char>) -> bool {
    forall|k: int| 0 <= k < s.len() ==> is_digit_char(s[k])
}

/// The value of a digit string, most significant digit first.
pub open spec fn digits_val(s: Seq<char>) -> nat
    decreases s.len(),
{
    if s.len() == 0 {
        0
    } else {
        digits_val(s.drop_last()) * 10 + digit_val(s.last())
    }
}

/// Strict parse of a non-negative integer: one or more digits, nothing
/// else, and the value fits `u32`.
pub open spec fn spec_parse_u32(s: Seq<char>) -> Option<u32> {
    if s.len() > 0 && all_digits(s) && digits_val(s) <= u32::MAX {
        Some(digits_val(s) as u32)
    } else {
        None
    }
}

/// Strict parse of a non-negative integer: one or more digits, nothing
/// else, and the value fits `u64`.
pub open spec fn spec_parse_u64(s: Seq<char>) -> Option<u64> {
    if s.len() > 0 && all_digits(s) && digits_val(s) <= u64::MAX {
        Some(digits_val(s) as u64)
    } else {
        None
    }
}

proof fn lemma_digits_val_prefix_le(s: Seq<char>, j: int)
    requires
        0 <= j <= s.len(),
    ensures
        digits_val(s.take(j)) <= digits_val(s),
    decreases s.len(),
{
    if j == s.len() {
        assert(s.take(j) =~= s);
    } else {
        lemma_digits_val_prefix_le(s.drop_last(), j);
        assert(s.drop_last().take(j) =~= s.take(j));
    }
}

/// Parses a digit string as a `u64`.
pub fn parse_u64_digits(s: &str) -> (r: Option<u64>)
    ensures
        r == spec_parse_u64(s@),
{
    let n: usize = s.unicode_len();
    if n == 0 {
        return None;
    }
    let mut acc: u128 = 0;
    let mut i: usize = 0;
    while i < n
        invariant
            0 <= i <= n,
            n == s@.len(),
            n > 0,
            forall|k: int| 0 <= k < i ==> is_digit_char(s@[k]),
            acc == digits_val(s@.take(i as int)),
            acc <= u64::MAX,
        decreases n - i,
    {
        let cv: u32 = s.get_char(i) as u32;
        if cv < '0' as u32 || cv > '9' as u32 {
            assert(!is_digit_char(s@[i as int]));
            return None;
        }
        acc = acc * 10 + (cv - '0' as u32) as u128;
        proof {
            assert(s@.take(i + 1).drop_last() =~= s@.take(i as int));
            assert(s@.take(i + 1).last() == s@[i as int]);
        }
        if acc > u64::MAX as u128 {
            proof {
                lemma_digits_val_prefix_le(s@, i + 1);
            }
            return None;
        }
        i = i + 1;
    }
    proof {
        assert(s@.take(n as int) =~= s@);
    }
    Some(acc as u64)
}

/// Parses a digit string as a `u32`.
pub fn parse_u32_digits(s: &str) -> (r: Option<u32>)
    ensures
        r == spec_parse_u32(s@),
{
    match parse_u64_digits(s) {
        Some(v) => {
            if v <= u32::MAX as u64 {
                Some(v as u32)
            } else {
                None
            }
        },
        None => None,
    }
}

/// An exact non-negative decimal number: the digit string `digits`
/// scaled down by `scale` decimal places, so the score `8.5` is held as
/// `{ digits: 85, scale: 1 }`.
#[derive(Clone, Copy, Debug, PartialEq, Eq, Structural)]
pub struct Decimal {
    pub digits: u64,
    pub scale: u32,
}

/// Strict parse of a decimal score: digits, optionally one point
/// followed by more digits, with both digit runs non-empty and the
/// combined digit string fitting `u64`.
pub open spec fn spec_parse_decimal(s: Seq<char>) -> Option<Decimal> {
    let parts = crate::text::spec_split(s, '.');
    if parts.len() == 1 {
        match spec_parse_u64(parts[0]) {
            Some(d) => Some(Decimal { digits: d, scale: 0 }),
            None => None,
        }
    } else if parts.len() == 2 {
        if parts[0].len() > 0 && parts[1].len() > 0 && parts[1].len() <= u32::MAX {
            match spec_parse_u64(parts[0] + parts[1]) {
                Some(d) => Some(Decimal { digits: d, scale: parts[1].len() as u32 }),
                None => None,
            }
        } else {
            None
        }
    } else {
        None
    }
}

/// Parses a decimal score string.
pub fn parse_decimal(s: &str) -> (r: Option<Decimal>)
    ensures
        r == spec_parse_decimal(s@),
{
    let parts = crate::text::split_str(s, '.');
    proof {
        if parts@.len() > 0 {
            assert(parts@[0]@ == parts.deep_view()[0]);
        }
        if parts@.len() > 1 {
            assert(parts@[1]@ == parts.deep_view()[1]);
        }
    }
    if parts.len() == 1 {
        match parse_u64_digits(parts[0].as_str()) {
            Some(d) => Some(Decimal { digits: d, scale: 0 }),
            None => None,
        }
    } else if parts.len() == 2 {
        let frac_len: usize = parts[1].as_str().unicode_len();
        if parts[0].as_str().unicode_len() == 0 || frac_len == 0 || frac_len > u32::MAX as usize {
            return None;
        }
        let joined = parts[0].clone().concat(parts[1].as_str());
        match parse_u64_digits(joined.as_str()) {
            Some(d) => Some(Decimal { digits: d, scale: frac_len as u32 }),
            None => None,
        }
    } else {
        None
    }
}

} // verus!
