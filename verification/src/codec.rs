//! Shared helpers for the text codecs: ASCII decimal digits.

use vstd::prelude::*;

use crate::currency::MAX_UNITS;

verus! {

/// The ASCII code of the digit zero.
pub const ASCII_ZERO: u8 = 48;

/// Whether `b` is an ASCII decimal digit.
pub open spec fn is_ascii_digit(b: u8) -> bool {
    48 <= b <= 57
}

/// Whether every byte of `s` is an ASCII decimal digit.
pub open spec fn all_digits(s: Seq<u8>) -> bool {
    forall|i: int| 0 <= i < s.len() ==> is_ascii_digit(#[trigger] s[i])
}

/// The non-negative integer denoted by a sequence of ASCII digits, most
/// significant first.
pub open spec fn digits_value(s: Seq<u8>) -> int
    decreases s.len(),
{
    if s.len() == 0 {
        0
    } else {
        digits_value(s.drop_last()) * 10 + (s.last() - 48)
    }
}

/// Ten to the `n`th power.
pub open spec fn pow10(n: nat) -> int
    decreases n,
{
    if n == 0 {
        1
    } else {
        10 * pow10((n - 1) as nat)
    }
}

/// A sequence of `n` digits denotes a value below ten to the `n`th power.
pub proof fn lemma_digits_value_upper(s: Seq<u8>)
    requires
        all_digits(s),
    ensures
        digits_value(s) < pow10(s.len()),
    decreases s.len(),
{
    if s.len() > 0 {
        assert(all_digits(s.drop_last())) by {
            assert(forall|i: int|
                0 <= i < s.drop_last().len() ==> s.drop_last()[i] == s[i]);
        }
        lemma_digits_value_upper(s.drop_last());
    }
}

/// The value of a digit sequence is non-negative.
pub proof fn lemma_digits_value_nonneg(s: Seq<u8>)
    requires
        all_digits(s),
    ensures
        digits_value(s) >= 0,
    decreases s.len(),
{
    if s.len() > 0 {
        assert(all_digits(s.drop_last())) by {
            assert(forall|i: int|
                0 <= i < s.drop_last().len() ==> s.drop_last()[i] == s[i]);
        }
        lemma_digits_value_nonneg(s.drop_last());
    }
}

/// A prefix of a digit sequence denotes at most the whole sequence's value.
pub proof fn lemma_digits_take_le(s: Seq<u8>, n: int)
    requires
        all_digits(s),
        0 <= n <= s.len(),
    ensures
        digits_value(s.take(n)) <= digits_value(s),
    decreases s.len(),
{
    if n == s.len() {
        assert(s.take(n) =~= s);
    } else {
        assert(all_digits(s.drop_last())) by {
            assert(forall|i: int|
                0 <= i < s.drop_last().len() ==> s.drop_last()[i] == s[i]);
        }
        assert(s.drop_last().take(n) =~= s.take(n));
        lemma_digits_take_le(s.drop_last(), n);
        lemma_digits_value_nonneg(s.drop_last());
    }
}

/// Parse `s[from..to)` as ASCII digits into a value of at most `max`.
///
/// Returns the denoted value exactly when the range is non-empty, holds
/// digits only, and denotes a value within `max`; returns `None` otherwise.
pub fn parse_digits_capped(s: &[u8], from: usize, to: usize, max: i128) -> (r: Option<i128>)
    requires
        from <= to <= s@.len(),
        0 <= max <= MAX_UNITS,
    ensures
        match r {
            Some(v) => {
                &&& from < to
                &&& all_digits(s@.subrange(from as int, to as int))
                &&& v == digits_value(s@.subrange(from as int, to as int))
                &&& 0 <= v <= max
            },
            None => !{
                &&& from < to
                &&& all_digits(s@.subrange(from as int, to as int))
                &&& digits_value(s@.subrange(from as int, to as int)) <= max
            },
        },
{
    let ghost whole = s@.subrange(from as int, to as int);
    if from == to {
        return None;
    }
    let mut acc: i128 = 0;
    let mut i: usize = from;
    while i < to
        invariant
            from <= i <= to <= s@.len(),
            0 <= max <= MAX_UNITS,
            whole == s@.subrange(from as int, to as int),
            all_digits(s@.subrange(from as int, i as int)),
            acc == digits_value(s@.subrange(from as int, i as int)),
            0 <= acc <= max,
        decreases to - i,
    {
        let b = s[i];
        if b < 48 || b > 57 {
            proof {
                assert(whole[i - from] == b);
            }
            return None;
        }
        let next = acc * 10 + ((b - 48) as i128);
        proof {
            assert(s@.subrange(from as int, i as int + 1).drop_last() =~= s@.subrange(
                from as int,
                i as int,
            ));
            assert(s@.subrange(from as int, i as int + 1).last() == b);
        }
        if next > max {
            proof {
                if all_digits(whole) && digits_value(whole) <= max {
                    lemma_digits_take_le(whole, i - from + 1);
                    assert(whole.take(i - from + 1) =~= s@.subrange(from as int, i as int + 1));
                }
            }
            return None;
        }
        acc = next;
        i += 1;
    }
    Some(acc)
}

/// The index of the first occurrence of `needle` in `s[from..)`, if any.
pub fn find_first(s: &[u8], from: usize, needle: u8) -> (r: Option<usize>)
    requires
        from <= s@.len(),
    ensures
        match r {
            Some(i) => {
                &&& from <= i < s@.len()
                &&& s@[i as int] == needle
                &&& forall|j: int| from <= j < i ==> s@[j] != needle
            },
            None => forall|j: int| from <= j < s@.len() ==> s@[j] != needle,
        },
{
    let mut i: usize = from;
    while i < s.len()
        invariant
            from <= i <= s@.len(),
            forall|j: int| from <= j < i ==> s@[j] != needle,
        decreases s@.len() - i,
    {
        if s[i] == needle {
            return Some(i);
        }
        i += 1;
    }
    None
}

} // verus!
