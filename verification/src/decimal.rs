//! The crate's exact decimal number type.
//!
//! Every price, size and quantity in the library is a [`Decimal`]: a signed
//! count of fixed-point units, where one whole unit is `UNIT == 10^9` counts
//! (nine decimal digits of fraction). Addition, subtraction and comparison of
//! two `Decimal` values are plain integer operations on `units`; the product
//! of two `Decimal` values is a [`Notional`], carried at twice the scale
//! (`10^-18`), so sums of products stay exact.

use vstd::prelude::*;

verus! {

/// Number of units in one whole: the fixed scale of [`Decimal`] is `10^-9`.
pub const UNIT: i64 = 1_000_000_000;

/// Largest magnitude, in units, a [`Decimal`] may take while staying inside
/// the range the valuator's accumulators are proved not to overflow for
/// (one million whole units).
pub const MAX_UNITS: i64 = 1_000_000_000_000_000;

/// An exact decimal number: `units * 10^-9`.
#[derive(Debug, Clone, Copy, PartialEq, Eq, Structural)]
pub struct Decimal {
    /// Scaled integer value; the represented number is `units / 10^9`.
    pub units: i64,
}

impl Decimal {
    /// The decimal with the given count of `10^-9` units.
    pub fn from_units(units: i64) -> (r: Decimal)
        ensures
            r.units == units,
    {
        Decimal { units }
    }

    /// Zero.
    pub fn zero() -> (r: Decimal)
        ensures
            r.units == 0,
    {
        Decimal { units: 0 }
    }

    /// Whether the value lies within the range the library's arithmetic is
    /// proved exact for.
    pub open spec fn in_range(self) -> bool {
        -MAX_UNITS <= self.units <= MAX_UNITS
    }
}

/// `c` is one of the ten decimal digit characters.
pub open spec fn is_dec_digit(c: char) -> bool {
    48 <= c as u32 <= 57
}

/// Numeric value of a decimal digit character.
pub open spec fn digit_val(c: char) -> int {
    c as u32 - 48
}

/// Every character of the sequence is a decimal digit.
pub open spec fn all_digits(s: Seq<char>) -> bool {
    forall|i: int| 0 <= i < s.len() ==> is_dec_digit(#[trigger] s[i])
}

/// The number the digit sequence denotes, most significant digit first.
pub open spec fn digits_val(s: Seq<char>) -> int
    decreases s.len(),
{
    if s.len() == 0 {
        0
    } else {
        digits_val(s.drop_last()) * 10 + digit_val(s.last())
    }
}

/// Ten to the `k`.
pub open spec fn pow10(k: nat) -> int
    decreases k,
{
    if k == 0 {
        1
    } else {
        10 * pow10((k - 1) as nat)
    }
}

/// The string splits at index `d` into a non-empty run of digits, a dot, and
/// one to nine fraction digits: the shape of a decimal quantity literal.
pub open spec fn splits_as_decimal(s: Seq<char>, d: int) -> bool {
    &&& 1 <= d
    &&& d + 2 <= s.len()
    &&& s.len() - d - 1 <= 9
    &&& s[d] == '.'
    &&& all_digits(s.take(d))
    &&& all_digits(s.skip(d + 1))
}

/// The string is a well-formed decimal quantity literal: digits, optionally
/// followed by a dot and one to nine fraction digits.
pub open spec fn qty_shape_ok(s: Seq<char>) -> bool {
    ||| s.len() > 0 && all_digits(s)
    ||| exists|d: int| #[trigger] splits_as_decimal(s, d)
}

/// The number of `10^-9` units a well-formed decimal quantity literal
/// denotes: the integer part scaled by [`UNIT`], plus the fraction digits
/// scaled out to nine places.
pub open spec fn qty_units_of(s: Seq<char>) -> int {
    if all_digits(s) {
        digits_val(s) * (UNIT as int)
    } else {
        let d = choose|d: int| splits_as_decimal(s, d);
        digits_val(s.take(d)) * (UNIT as int) + digits_val(s.skip(d + 1)) * pow10(
            (9 - (s.len() - d - 1)) as nat,
        )
    }
}

/// Why a quantity string was rejected.
#[derive(Debug, Clone, Copy, PartialEq, Eq, Structural)]
pub enum QtyError {
    /// Not a decimal literal of the accepted shape.
    Malformed,
    /// A well-formed literal denoting zero; a quantity must be positive.
    NonPositive,
    /// A well-formed literal beyond [`MAX_UNITS`].
    TooLarge,
}

/// An exact product of two [`Decimal`] values: `units * 10^-18`.
///
/// Costs returned by the valuator are carried at this doubled scale so that
/// no division (and hence no rounding) ever happens on the way to the total.
#[derive(Debug, Clone, Copy, PartialEq, Eq, Structural)]
pub struct Notional {
    /// Scaled integer value; the represented number is `units / 10^18`.
    pub units: i128,
}

/// A digit sequence denotes a number in `[0, 10^len)`.
proof fn lemma_digits_val_bounds(s: Seq<char>)
    requires
        all_digits(s),
    ensures
        0 <= digits_val(s) < pow10(s.len()),
    decreases s.len(),
{
    if s.len() > 0 {
        assert(forall|i: int| 0 <= i < s.len() - 1 ==> s.drop_last()[i] == s[i]);
        lemma_digits_val_bounds(s.drop_last());
        assert(is_dec_digit(s.last()));
    }
}

/// `pow10` is positive and non-decreasing.
proof fn lemma_pow10_pos(k: nat)
    ensures
        pow10(k) >= 1,
    decreases k,
{
    if k > 0 {
        lemma_pow10_pos((k - 1) as nat);
    }
}

/// `pow10(a) * pow10(b) == pow10(a + b)`.
proof fn lemma_pow10_add(a: nat, b: nat)
    ensures
        pow10(a) * pow10(b) == pow10(a + b),
    decreases a,
{
    if a == 0 {
        assert(pow10(0) * pow10(b) == pow10(b)) by (nonlinear_arith)
            requires
                pow10(0) == 1,
        ;
    } else {
        lemma_pow10_add((a - 1) as nat, b);
        assert((10 * pow10((a - 1) as nat)) * pow10(b) == 10 * (pow10((a - 1) as nat) * pow10(
            b,
        ))) by (nonlinear_arith);
    }
}

/// `pow10` is non-decreasing in the exponent.
proof fn lemma_pow10_monotone(a: nat, b: nat)
    requires
        a <= b,
    ensures
        pow10(a) <= pow10(b),
    decreases b,
{
    if a < b {
        lemma_pow10_monotone(a, (b - 1) as nat);
        lemma_pow10_pos((b - 1) as nat);
    }
}

/// A decimal literal splits at only one index: the index of its dot.
proof fn lemma_split_unique(s: Seq<char>, d1: int, d2: int)
    requires
        splits_as_decimal(s, d1),
        splits_as_decimal(s, d2),
    ensures
        d1 == d2,
{
    if d1 < d2 {
        assert(s.take(d2)[d1] == s[d1]);
        assert(is_dec_digit(s[d1]));
    } else if d2 < d1 {
        assert(s.take(d1)[d2] == s[d2]);
        assert(is_dec_digit(s[d2]));
    }
}

/// Parse a requested quantity written as a decimal literal: digits with an
/// optional dot and one to nine fraction digits. Accepts exactly the
/// positive values up to [`MAX_UNITS`]; each rejection names its reason.
pub fn parse_qty(s: &str) -> (r: Result<Decimal, QtyError>)
    ensures
        r is Ok <==> qty_shape_ok(s@) && 0 < qty_units_of(s@) <= MAX_UNITS,
        r matches Ok(d) ==> d.units == qty_units_of(s@),
        r == Result::<Decimal, QtyError>::Err(QtyError::Malformed) <==> !qty_shape_ok(s@),
        qty_shape_ok(s@) ==> (r == Result::<Decimal, QtyError>::Err(QtyError::NonPositive)
            <==> qty_units_of(s@) == 0),
        qty_shape_ok(s@) ==> (r == Result::<Decimal, QtyError>::Err(QtyError::TooLarge)
            <==> qty_units_of(s@) > MAX_UNITS),
{
    let n = s.unicode_len();
    if n == 0 {
        return Err(QtyError::Malformed);
    }

    // Integer part: digits until the dot or the end. The accumulator stops
    // growing once the value cannot be in range any more; the scan still
    // validates the rest of the string.
    let mut i: usize = 0;
    let mut intval: i64 = 0;
    let mut big = false;
    while i < n && s.get_char(i) != '.'
        invariant
            n == s@.len(),
            i <= n,
            all_digits(s@.take(i as int)),
            forall|k: int| 0 <= k < i ==> s@[k] != '.',
            !big ==> intval == digits_val(s@.take(i as int)) && 0 <= intval <= 1_000_000,
            big ==> digits_val(s@.take(i as int)) > 1_000_000,
        decreases n - i,
    {
        let c = s.get_char(i);
        let u = c as u32;
        if !(48 <= u && u <= 57) {
            proof {
                assert(!is_dec_digit(s@[i as int]) && s@[i as int] != '.');
                assert forall|dd: int| !splits_as_decimal(s@, dd) by {
                    if splits_as_decimal(s@, dd) {
                        if (i as int) < dd {
                            assert(s@.take(dd)[i as int] == s@[i as int]);
                        } else if (i as int) > dd {
                            assert(s@.skip(dd + 1)[i as int - dd - 1] == s@[i as int]);
                        }
                    }
                }
            }
            return Err(QtyError::Malformed);
        }
        proof {
            assert(s@.take(i as int + 1).drop_last() =~= s@.take(i as int));
            assert(s@.take(i as int + 1).last() == s@[i as int]);
            lemma_digits_val_bounds(s@.take(i as int));
        }
        let digit = (u - 48) as i64;
        if big {
            proof {
                assert(digits_val(s@.take(i as int + 1)) > 1_000_000);
            }
        } else {
            let nv = intval * 10 + digit;
            if nv > 1_000_000 {
                big = true;
            } else {
                intval = nv;
            }
        }
        i = i + 1;
    }

    if i == n {
        // No dot: the whole string is the integer part.
        proof {
            assert(s@.take(n as int) =~= s@);
        }
        if big {
            return Err(QtyError::TooLarge);
        }
        let units = intval * UNIT;
        if units == 0 {
            return Err(QtyError::NonPositive);
        }
        return Ok(Decimal { units });
    }

    // A dot: its index is the split point; then the fraction digits.
    let d = i;
    if d == 0 {
        proof {
            assert(s@[0] == '.');
            assert(!is_dec_digit('.'));
            assert(!all_digits(s@));
            assert forall|dd: int| !splits_as_decimal(s@, dd) by {
                if splits_as_decimal(s@, dd) {
                    assert(s@.take(dd)[0] == s@[0]);
                }
            }
        }
        return Err(QtyError::Malformed);
    }
    let fraclen = n - d - 1;
    proof {
        assert(s@[d as int] == '.');
        assert(!is_dec_digit('.'));
        assert(!all_digits(s@));
        assert forall|dd: int| splits_as_decimal(s@, dd) implies dd == d as int by {
            if dd < d as int {
                assert(s@.skip(dd + 1)[d as int - dd - 1] == s@[d as int]);
            } else if dd > d as int {
                assert(s@.take(dd)[d as int] == s@[d as int]);
            }
        }
    }
    if fraclen == 0 || fraclen > 9 {
        return Err(QtyError::Malformed);
    }
    let mut j: usize = d + 1;
    let mut fracval: i64 = 0;
    while j < n
        invariant
            n == s@.len(),
            d + 1 <= j <= n,
            (d as int) + 2 <= n as int,
            n - d - 1 <= 9,
            s@[d as int] == '.',
            !all_digits(s@),
            forall|dd: int| splits_as_decimal(s@, dd) ==> dd == d as int,
            all_digits(s@.subrange(d as int + 1, j as int)),
            fracval == digits_val(s@.subrange(d as int + 1, j as int)),
            0 <= fracval < pow10((j - d - 1) as nat),
        decreases n - j,
    {
        let c = s.get_char(j);
        let u = c as u32;
        if !(48 <= u && u <= 57) {
            proof {
                assert(!is_dec_digit(s@[j as int]));
                assert forall|dd: int| !splits_as_decimal(s@, dd) by {
                    if splits_as_decimal(s@, dd) {
                        assert(dd == d as int);
                        assert(s@.skip(dd + 1)[j as int - dd - 1] == s@[j as int]);
                    }
                }
            }
            return Err(QtyError::Malformed);
        }
        proof {
            assert(s@.subrange(d as int + 1, j as int + 1).drop_last() =~= s@.subrange(
                d as int + 1,
                j as int,
            ));
            assert(s@.subrange(d as int + 1, j as int + 1).last() == s@[j as int]);
            lemma_digits_val_bounds(s@.subrange(d as int + 1, j as int + 1));
            lemma_pow10_monotone((j - d - 1) as nat, 8);
            assert(pow10(8) == 100_000_000) by {
                reveal_with_fuel(pow10, 11);
            }
        }
        fracval = fracval * 10 + (u - 48) as i64;
        j = j + 1;
    }
    proof {
        assert(s@.subrange(d as int + 1, n as int) =~= s@.skip(d as int + 1));
        assert(splits_as_decimal(s@, d as int));
        let dd = choose|dd: int| splits_as_decimal(s@, dd);
        lemma_split_unique(s@, dd, d as int);
        lemma_pow10_pos((9 - fraclen) as nat);
        lemma_pow10_pos(fraclen as nat);
        lemma_pow10_add(fraclen as nat, (9 - fraclen) as nat);
    }
    let scale = pow10_exec(9 - fraclen);
    proof {
        let pl = pow10(fraclen as nat);
        let ps = pow10((9 - fraclen) as nat);
        assert(pow10(9) == 1_000_000_000) by {
            reveal_with_fuel(pow10, 11);
        }
        assert(0 <= fracval * ps && fracval * ps <= 1_000_000_000 - ps) by (nonlinear_arith)
            requires
                0 <= fracval <= pl - 1,
                ps >= 1,
                pl * ps == 1_000_000_000,
        ;
    }
    let frac_units = fracval * scale;
    if big {
        proof {
            assert(digits_val(s@.take(d as int)) * (UNIT as int) > 1_000_000_000_000_000int)
                by (nonlinear_arith)
                requires
                    digits_val(s@.take(d as int)) > 1_000_000,
                    UNIT == 1_000_000_000i64,
            ;
        }
        return Err(QtyError::TooLarge);
    }
    let units = intval * UNIT + frac_units;
    if units > MAX_UNITS {
        return Err(QtyError::TooLarge);
    }
    if units == 0 {
        return Err(QtyError::NonPositive);
    }
    Ok(Decimal { units })
}

/// Ten to the `k`, for the small exponents the parser needs.
fn pow10_exec(k: usize) -> (r: i64)
    requires
        k <= 9,
    ensures
        r == pow10(k as nat),
{
    proof {
        reveal_with_fuel(pow10, 11);
    }
    if k == 0 {
        1
    } else if k == 1 {
        10
    } else if k == 2 {
        100
    } else if k == 3 {
        1_000
    } else if k == 4 {
        10_000
    } else if k == 5 {
        100_000
    } else if k == 6 {
        1_000_000
    } else if k == 7 {
        10_000_000
    } else if k == 8 {
        100_000_000
    } else {
        1_000_000_000
    }
}

} // verus!
