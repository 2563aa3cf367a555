//! Exact base-10 fixed-point monetary amounts.
//!
//! A [`Currency`] holds an integer count of ten-thousandths, giving four
//! fractional digits of canonical precision. Arithmetic is exact: no binary
//! floating point is involved anywhere, so balances derived from sums and
//! differences of amounts stay internally consistent.

use vstd::prelude::*;

use crate::codec::{
    all_digits, digits_value, find_first, is_ascii_digit, lemma_digits_value_nonneg,
    lemma_digits_value_upper, parse_digits_capped, pow10,
};
use crate::errors::ParseError;

verus! {

/// Count of `units` per whole currency unit (four fractional digits).
pub const UNITS_PER_WHOLE: i128 = 10000;

/// Largest magnitude, in units, that the ledger keeps a balance or an amount
/// within. The bound mirrors a 96-bit integer mantissa, so every value also
/// leaves ample headroom in an `i128` for transient sums and differences.
pub const MAX_UNITS: i128 = 79228162514264337593543950335;

/// The largest whole part a parsed amount may carry: `MAX_UNITS` divided by
/// `UNITS_PER_WHOLE`.
pub const MAX_WHOLE: i128 = 7922816251426433759354395;

/// Count of fractional digits of a fraction field that carry value: at most
/// four.
pub open spec fn frac_len(s: Seq<u8>) -> int {
    if s.len() <= 4 {
        s.len() as int
    } else {
        4
    }
}

/// Whether `s` is a well-formed fraction field: non-empty, digits only, and
/// zero beyond the fourth digit (finer precision than a ten-thousandth
/// cannot be held exactly).
pub open spec fn valid_frac(s: Seq<u8>) -> bool {
    &&& s.len() > 0
    &&& all_digits(s)
    &&& (forall|i: int| 4 <= i < s.len() ==> s[i] == 48)
}

/// The value of a fraction field, in ten-thousandths.
pub open spec fn frac_units(s: Seq<u8>) -> int {
    digits_value(s.take(frac_len(s))) * pow10((4 - frac_len(s)) as nat)
}

/// Whether the unsigned part of an amount is well formed: one or more
/// integer digits, optionally followed by a decimal point and a fraction
/// field.
pub open spec fn valid_unsigned_amount(s: Seq<u8>) -> bool {
    match s.index_of_first(46u8) {
        Some(d) => d >= 1 && all_digits(s.take(d)) && valid_frac(s.skip(d + 1)),
        None => s.len() > 0 && all_digits(s),
    }
}

/// The value, in ten-thousandths, of the unsigned part of an amount.
pub open spec fn unsigned_amount_units(s: Seq<u8>) -> int {
    match s.index_of_first(46u8) {
        Some(d) => digits_value(s.take(d)) * 10000 + frac_units(s.skip(d + 1)),
        None => digits_value(s) * 10000,
    }
}

/// Whether `s` is a well-formed decimal amount: an optional leading minus
/// sign followed by a well-formed unsigned amount.
pub open spec fn valid_amount(s: Seq<u8>) -> bool {
    if s.len() > 0 && s[0] == 45 {
        valid_unsigned_amount(s.skip(1))
    } else {
        valid_unsigned_amount(s)
    }
}

/// The value of a well-formed decimal amount, in ten-thousandths.
pub open spec fn amount_units(s: Seq<u8>) -> int {
    if s.len() > 0 && s[0] == 45 {
        -unsigned_amount_units(s.skip(1))
    } else {
        unsigned_amount_units(s)
    }
}

/// The ASCII decimal digits of a non-negative integer, most significant
/// first, without leading zeros (a single zero digit for zero).
pub open spec fn spec_digits(n: int) -> Seq<u8>
    recommends
        n >= 0,
    decreases n,
{
    if n <= 9 {
        seq![(n + 48) as u8]
    } else {
        spec_digits(n / 10).push((n % 10 + 48) as u8)
    }
}

/// The four zero-padded ASCII digits of a ten-thousandths fraction.
pub open spec fn frac4_digits(f: int) -> Seq<u8> {
    seq![
        (f / 1000 % 10 + 48) as u8,
        (f / 100 % 10 + 48) as u8,
        (f / 10 % 10 + 48) as u8,
        (f % 10 + 48) as u8,
    ]
}

/// `s` without its trailing zero digits.
pub open spec fn trim_trailing_zeros(s: Seq<u8>) -> Seq<u8>
    decreases s.len(),
{
    if s.len() > 0 && s.last() == 48 {
        trim_trailing_zeros(s.drop_last())
    } else {
        s
    }
}

/// The canonical rendering of a non-negative amount of ten-thousandths:
/// integer digits, and a fraction field only when it is non-zero, with its
/// trailing zeros trimmed.
pub open spec fn spec_render_magnitude(units: int) -> Seq<u8> {
    let whole = units / 10000;
    let frac = units % 10000;
    if frac == 0 {
        spec_digits(whole)
    } else {
        spec_digits(whole) + seq![46u8] + trim_trailing_zeros(frac4_digits(frac))
    }
}

/// The canonical decimal rendering of an amount of ten-thousandths: an
/// optional minus sign followed by the rendering of the magnitude.
pub open spec fn spec_render(units: int) -> Seq<u8> {
    if units < 0 {
        seq![45u8] + spec_render_magnitude(-units)
    } else {
        spec_render_magnitude(units)
    }
}

/// An exact fixed-point monetary amount: an integer count of ten-thousandths.
#[derive(Debug, Clone, Copy, PartialEq, Eq, Hash, PartialOrd, Ord, Structural)]
pub struct Currency {
    units: i128,
}

impl View for Currency {
    type V = int;

    /// The mathematical value of this amount, in units of one ten-thousandth.
    closed spec fn view(&self) -> int {
        self.units as int
    }
}

impl Currency {
    /// The zero amount.
    pub fn zero() -> (c: Currency)
        ensures
            c@ == 0,
    {
        Currency { units: 0 }
    }

    /// An amount holding exactly `units` ten-thousandths.
    pub fn from_units(units: i128) -> (c: Currency)
        ensures
            c@ == units,
    {
        Currency { units }
    }

    /// The count of ten-thousandths this amount holds.
    pub fn units(&self) -> (u: i128)
        ensures
            u == self@,
    {
        self.units
    }

    /// Whether this amount is strictly below zero.
    pub fn is_negative(&self) -> (r: bool)
        ensures
            r == (self@ < 0),
    {
        self.units < 0
    }

    /// Exact sum of two amounts.
    pub fn add(self, rhs: Currency) -> (r: Currency)
        requires
            i128::MIN <= self@ + rhs@ <= i128::MAX,
        ensures
            r@ == self@ + rhs@,
    {
        Currency { units: self.units + rhs.units }
    }

    /// Exact difference of two amounts.
    pub fn sub(self, rhs: Currency) -> (r: Currency)
        requires
            i128::MIN <= self@ - rhs@ <= i128::MAX,
        ensures
            r@ == self@ - rhs@,
    {
        Currency { units: self.units - rhs.units }
    }

    /// Whether this amount is strictly below `rhs`.
    pub fn lt(&self, rhs: &Currency) -> (r: bool)
        ensures
            r == (self@ < rhs@),
    {
        self.units < rhs.units
    }

    /// Parse a decimal amount: an optional minus sign, integer digits, and
    /// an optional fraction of up to four significant digits. Returns
    /// `InvalidAmount` on any malformed input and on a magnitude beyond
    /// [`MAX_UNITS`].
    pub fn parse(s: &[u8]) -> (r: Result<Currency, ParseError>)
        ensures
            match r {
                Ok(c) => {
                    &&& valid_amount(s@)
                    &&& -(MAX_UNITS as int) <= amount_units(s@) <= MAX_UNITS as int
                    &&& c@ == amount_units(s@)
                },
                Err(e) => {
                    &&& e == ParseError::InvalidAmount
                    &&& !{
                        &&& valid_amount(s@)
                        &&& -(MAX_UNITS as int) <= amount_units(s@) <= MAX_UNITS as int
                    }
                },
            },
    {
        let negative = s.len() > 0 && s[0] == 45;
        let start: usize = if negative {
            1
        } else {
            0
        };
        proof {
            if !negative {
                assert(s@.skip(0) =~= s@);
            }
        }
        match parse_unsigned_amount(s, start) {
            Some(units) => Ok(Currency { units: if negative { -units } else { units } }),
            None => Err(ParseError::InvalidAmount),
        }
    }

    /// The canonical text of this amount: an optional minus sign, the whole
    /// part's digits, and a non-zero fraction with trailing zeros trimmed.
    pub fn render(&self) -> (out: Vec<u8>)
        requires
            self@ > i128::MIN as int,
        ensures
            out@ == spec_render(self@),
    {
        let mut out: Vec<u8> = Vec::new();
        let magnitude: i128 = if self.units < 0 {
            out.push(45);
            -self.units
        } else {
            self.units
        };
        let whole = magnitude / UNITS_PER_WHOLE;
        let frac = magnitude % UNITS_PER_WHOLE;
        push_digits(&mut out, whole);
        if frac != 0 {
            out.push(46);
            let mut fd: Vec<u8> = Vec::new();
            fd.push(((frac / 1000 % 10) + 48) as u8);
            fd.push(((frac / 100 % 10) + 48) as u8);
            fd.push(((frac / 10 % 10) + 48) as u8);
            fd.push(((frac % 10) + 48) as u8);
            proof {
                assert(fd@ =~= frac4_digits(frac as int));
            }
            while fd.len() > 0 && fd[fd.len() - 1] == 48
                invariant
                    trim_trailing_zeros(frac4_digits(frac as int)) == trim_trailing_zeros(fd@),
                decreases fd@.len(),
            {
                let _ = fd.pop();
            }
            let ghost out_before = out@;
            let mut k: usize = 0;
            while k < fd.len()
                invariant
                    0 <= k <= fd@.len(),
                    out@ == out_before + fd@.take(k as int),
                decreases fd@.len() - k,
            {
                out.push(fd[k]);
                proof {
                    assert(fd@.take(k as int + 1) =~= fd@.take(k as int).push(fd@[k as int]));
                }
                k += 1;
            }
            proof {
                assert(fd@.take(fd@.len() as int) =~= fd@);
                assert(out@ =~= spec_render(self@));
            }
        } else {
            proof {
                assert(out@ =~= spec_render(self@));
            }
        }
        out
    }
}

/// Parse the unsigned decimal amount `s[start..)` into ten-thousandths.
fn parse_unsigned_amount(s: &[u8], start: usize) -> (r: Option<i128>)
    requires
        start <= s@.len(),
    ensures
        ({
            let body = s@.skip(start as int);
            match r {
                Some(v) => {
                    &&& valid_unsigned_amount(body)
                    &&& unsigned_amount_units(body) <= MAX_UNITS as int
                    &&& v == unsigned_amount_units(body)
                    &&& 0 <= v
                },
                None => !{
                    &&& valid_unsigned_amount(body)
                    &&& unsigned_amount_units(body) <= MAX_UNITS as int
                },
            }
        }),
{
    let ghost body = s@.skip(start as int);
    proof {
        assert(forall|j: int| 0 <= j < body.len() ==> body[j] == s@[j + start]);
    }
    match find_first(s, start, 46) {
        None => {
            proof {
                body.index_of_first_ensures(46u8);
                if body.index_of_first(46u8) is Some {
                    let w = body.index_of_first(46u8)->Some_0;
                    assert(s@[w + start] == 46);
                }
            }
            match parse_digits_capped(s, start, s.len(), MAX_WHOLE) {
                Some(v) => {
                    proof {
                        assert(s@.subrange(start as int, s@.len() as int) =~= body);
                    }
                    Some(v * UNITS_PER_WHOLE)
                },
                None => {
                    proof {
                        assert(s@.subrange(start as int, s@.len() as int) =~= body);
                        if valid_unsigned_amount(body) {
                            lemma_digits_value_nonneg(body);
                        }
                    }
                    None
                },
            }
        },
        Some(dot) => {
            proof {
                body.index_of_first_ensures(46u8);
                assert(body[dot - start] == 46);
                assert(body.contains(46u8));
                let idx = body.index_of_first(46u8)->Some_0;
                assert(idx == dot - start) by {
                    assert(body[idx] == 46);
                    if idx < dot - start {
                        assert(s@[idx + start] == 46);
                    }
                }
            }
            let ghost dbody = dot - start;
            let ghost int_part = body.take(dbody as int);
            let ghost frac_part = body.skip(dbody as int + 1);
            proof {
                assert(int_part =~= s@.subrange(start as int, dot as int));
                assert(frac_part =~= s@.subrange(dot as int + 1, s@.len() as int));
            }
            let whole = match parse_digits_capped(s, start, dot, MAX_WHOLE) {
                Some(v) => v,
                None => {
                    proof {
                        if valid_unsigned_amount(body) && unsigned_amount_units(body)
                            <= MAX_UNITS as int {
                            lemma_digits_value_nonneg(int_part);
                            lemma_frac_units_bounds(frac_part);
                        }
                    }
                    return None;
                },
            };
            let flen = s.len() - (dot + 1);
            if flen == 0 {
                return None;
            }
            let m: usize = if flen > 4 {
                4
            } else {
                flen
            };
            let ghost leading = s@.subrange(dot as int + 1, dot as int + 1 + m as int);
            proof {
                assert(leading =~= frac_part.take(frac_len(frac_part)));
            }
            let f0 = match parse_digits_capped(s, dot + 1, dot + 1 + m, 9999) {
                Some(f) => f,
                None => {
                    proof {
                        if valid_frac(frac_part) {
                            assert(all_digits(leading)) by {
                                assert(forall|i: int|
                                    0 <= i < leading.len() ==> leading[i] == frac_part[i]);
                            }
                            lemma_digits_value_upper(leading);
                            assert(pow10(0) == 1);
                            assert(pow10(1) == 10);
                            assert(pow10(2) == 100);
                            assert(pow10(3) == 1000);
                            assert(pow10(4) == 10000);
                        }
                    }
                    return None;
                },
            };
            let scale: i128 = if m == 1 {
                1000
            } else if m == 2 {
                100
            } else if m == 3 {
                10
            } else {
                1
            };
            proof {
                assert(pow10(0) == 1);
                assert(pow10(1) == 10);
                assert(pow10(2) == 100);
                assert(pow10(3) == 1000);
            }
            let f = f0 * scale;
            proof {
                assert(body.index_of_first(46u8) == Some(dbody as int));
            }
            let mut j = dot + 1 + m;
            while j < s.len()
                invariant
                    start <= dot,
                    dot + 1 + m <= j <= s@.len(),
                    m == 4 || dot + 1 + m == s@.len(),
                    s@.skip(start as int).index_of_first(46u8) == Some(dot as int - start as int),
                    forall|k: int| dot + 1 + m <= k < j ==> s@[k] == 48,
                decreases s@.len() - j,
            {
                if s[j] != 48 {
                    proof {
                        let body_l = s@.skip(start as int);
                        let fp = body_l.skip(dot as int - start as int + 1);
                        assert(fp =~= s@.skip(dot as int + 1));
                        assert(fp[j - (dot + 1)] == s@[j as int]);
                        if is_ascii_digit(s@[j as int]) {
                            assert(j - (dot + 1) >= 4);
                        }
                        assert(!valid_frac(fp));
                    }
                    return None;
                }
                j += 1;
            }
            proof {
                assert(valid_frac(frac_part)) by {
                    assert(forall|i: int|
                        0 <= i < frac_part.len() ==> frac_part[i] == s@[i + dot + 1]);
                    assert(forall|i: int|
                        0 <= i < frac_part.len() ==> is_ascii_digit(#[trigger] frac_part[i]))
                        by {
                        assert(forall|i: int|
                            0 <= i < m ==> is_ascii_digit(#[trigger] leading[i]));
                    }
                }
                assert(f == frac_units(frac_part));
                lemma_digits_value_nonneg(leading);
            }
            let total = whole * UNITS_PER_WHOLE + f;
            if total > MAX_UNITS {
                return None;
            }
            Some(total)
        },
    }
}

/// Append the decimal digits of `n` to `out`.
fn push_digits(out: &mut Vec<u8>, n: i128)
    requires
        0 <= n,
    ensures
        final(out)@ == old(out)@ + spec_digits(n as int),
{
    let mut digits: Vec<u8> = Vec::new();
    let mut m = n;
    digits.insert(0, ((m % 10) + 48) as u8);
    m = m / 10;
    proof {
        if n <= 9 {
            assert(digits@ =~= spec_digits(n as int));
        } else {
            assert(digits@ =~= seq![((n as int) % 10 + 48) as u8]);
            assert(spec_digits(n as int) =~= spec_digits(n as int / 10) + digits@);
        }
    }
    while m > 0
        invariant
            0 <= m,
            m > 0 ==> spec_digits(n as int) == spec_digits(m as int) + digits@,
            m == 0 ==> spec_digits(n as int) == digits@,
        decreases m,
    {
        let ghost before = digits@;
        digits.insert(0, ((m % 10) + 48) as u8);
        proof {
            assert(digits@ =~= seq![((m as int) % 10 + 48) as u8] + before);
            if m <= 9 {
                assert(spec_digits(m as int) =~= seq![((m as int) + 48) as u8]);
                assert(spec_digits(n as int) =~= digits@);
            } else {
                assert(spec_digits(m as int) =~= spec_digits(m as int / 10) + seq![((m as int) % 10
                    + 48) as u8]);
                assert(spec_digits(n as int) =~= spec_digits(m as int / 10) + digits@);
            }
        }
        m = m / 10;
    }
    let ghost out_before = out@;
    let mut k: usize = 0;
    while k < digits.len()
        invariant
            0 <= k <= digits@.len(),
            out@ == out_before + digits@.take(k as int),
        decreases digits@.len() - k,
    {
        out.push(digits[k]);
        proof {
            assert(digits@.take(k as int + 1) =~= digits@.take(k as int).push(digits@[k as int]));
        }
        k += 1;
    }
    proof {
        assert(digits@.take(digits@.len() as int) =~= digits@);
    }
}

/// The value of a well-formed fraction field lies between zero and 9999.
proof fn lemma_frac_units_bounds(s: Seq<u8>)
    requires
        valid_frac(s),
    ensures
        0 <= frac_units(s) <= 9999,
{
    let fl = frac_len(s);
    let lead = s.take(fl);
    assert(all_digits(lead)) by {
        assert(forall|i: int| 0 <= i < lead.len() ==> lead[i] == s[i]);
    }
    lemma_digits_value_nonneg(lead);
    lemma_digits_value_upper(lead);
    let v = digits_value(lead);
    assert(pow10(0) == 1);
    assert(pow10(1) == 10);
    assert(pow10(2) == 100);
    assert(pow10(3) == 1000);
    assert(pow10(4) == 10000);
    if fl == 1 {
        assert(v <= 9);
        assert(frac_units(s) == v * 1000);
    } else if fl == 2 {
        assert(v <= 99);
        assert(frac_units(s) == v * 100);
    } else if fl == 3 {
        assert(v <= 999);
        assert(frac_units(s) == v * 10);
    } else {
        assert(v <= 9999);
        assert(frac_units(s) == v * 1);
    }
}

} // verus!
