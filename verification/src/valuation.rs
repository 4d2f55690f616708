//! Pricing a requested quantity against a unified depth ladder.
//!
//! The valuator walks the ladder in order and consumes levels until the
//! requested quantity is filled or the ladder is exhausted. A shortfall is
//! not an error: the accumulated cost of whatever was fillable is returned
//! together with the filled quantity and a shortfall signal. The only error
//! is a structurally invalid request (non-positive quantity). Alongside the
//! fill, an advisory diagnostics pass reports the total size available, the
//! number of dust and zero-size levels, and whether the ladder violates the
//! side's expected ordering; none of these aborts the valuation.

use vstd::prelude::*;
use crate::decimal::{Decimal, Notional, MAX_UNITS};
use crate::types::OrderBook;
use crate::orderbook_merger::sorted_dir;

verus! {

/// Ladders up to this long are accepted by the valuator; together with
/// [`MAX_UNITS`] this keeps every accumulator inside `i128`.
pub const MAX_LEVELS: usize = 10_000_000;

/// Levels with a size below this many units (`0.0001` whole units) are
/// counted as dust in the diagnostics.
pub const DUST_UNITS: i64 = 100_000;

/// Total size available across the ladder, in units.
pub open spec fn total_size(s: Seq<OrderBook>) -> int
    decreases s.len(),
{
    if s.len() == 0 {
        0
    } else {
        s[0].size.units + total_size(s.drop_first())
    }
}

/// Notional of the whole ladder: the sum of `price * size` over every level,
/// in `10^-18` units.
pub open spec fn notional(s: Seq<OrderBook>) -> int
    decreases s.len(),
{
    if s.len() == 0 {
        0
    } else {
        s[0].price.units * s[0].size.units + notional(s.drop_first())
    }
}

/// How many levels of the ladder have a size of exactly zero.
pub open spec fn count_zero_size(s: Seq<OrderBook>) -> int
    decreases s.len(),
{
    if s.len() == 0 {
        0
    } else {
        (if s[0].size.units == 0 { 1int } else { 0int }) + count_zero_size(s.drop_first())
    }
}

/// How many levels of the ladder are dust (size below [`DUST_UNITS`]).
pub open spec fn count_dust(s: Seq<OrderBook>) -> int
    decreases s.len(),
{
    if s.len() == 0 {
        0
    } else {
        (if s[0].size.units < DUST_UNITS { 1int } else { 0int }) + count_dust(s.drop_first())
    }
}

/// Cost, in `10^-18` units, of filling `rem` units against the ladder:
/// consume levels in order; a zero-size level contributes nothing; the level
/// that covers the remainder contributes `price * remainder` and ends the
/// walk; an exhausted ladder ends it with whatever accumulated.
pub open spec fn fill_cost(s: Seq<OrderBook>, rem: int) -> int
    decreases s.len(),
{
    if rem <= 0 || s.len() == 0 {
        0
    } else if s[0].size.units == 0 {
        fill_cost(s.drop_first(), rem)
    } else if rem <= s[0].size.units {
        s[0].price.units * rem
    } else {
        s[0].price.units * s[0].size.units + fill_cost(s.drop_first(), rem - s[0].size.units)
    }
}

/// Units still unfilled after walking the ladder for `rem` units.
pub open spec fn fill_rem(s: Seq<OrderBook>, rem: int) -> int
    decreases s.len(),
{
    if rem <= 0 {
        0
    } else if s.len() == 0 {
        rem
    } else if s[0].size.units == 0 {
        fill_rem(s.drop_first(), rem)
    } else if rem <= s[0].size.units {
        0
    } else {
        fill_rem(s.drop_first(), rem - s[0].size.units)
    }
}

/// Everything a valuation returns: the exact cost and filled quantity, the
/// shortfall signal, and the advisory diagnostics of the ladder.
#[derive(Debug, Clone, Copy, PartialEq, Eq, Structural)]
pub struct Valuation {
    /// Total cost of the filled quantity, exact, at scale `10^-18`.
    pub cost: Notional,
    /// Quantity actually filled, at scale `10^-9`; equals the request unless
    /// the ladder ran out.
    pub filled: Decimal,
    /// The ladder was exhausted before the request was filled.
    pub shortfall: bool,
    /// The ladder is not sorted in the side's expected direction.
    pub unsorted: bool,
    /// Number of levels with size exactly zero (skipped during the fill).
    pub zero_size_levels: usize,
    /// Number of dust levels (size below [`DUST_UNITS`]).
    pub dust_levels: usize,
    /// Total size available across the whole ladder, in `10^-9` units.
    pub total_available_units: i128,
}

/// The one failure a valuation can produce: the request itself is invalid.
#[derive(Debug, Clone, Copy, PartialEq, Eq, Structural)]
pub enum ValuationError {
    /// The requested quantity was zero or negative.
    NonPositiveQuantity,
}

/// Whether the ladder is within the bounds the valuator's arithmetic is
/// proved exact for: bounded length, every coordinate in range, and no
/// negative sizes.
pub open spec fn ladder_in_range(s: Seq<OrderBook>) -> bool {
    &&& s.len() <= MAX_LEVELS
    &&& forall|i: int| 0 <= i < s.len() ==> (#[trigger] s[i]).in_range()
    &&& forall|i: int| 0 <= i < s.len() ==> (#[trigger] s[i]).size.units >= 0
}

/// Compute the total cost of filling `quantity` against the ladder, walking
/// its levels in order, together with the filled quantity, a shortfall
/// signal and advisory diagnostics.
///
/// Fails exactly when the requested quantity is not positive; a liquidity
/// shortfall, an unsorted ladder, or zero-size levels are reported in the
/// result, never as errors.
pub fn calculate_entity_price(
    entity: &Vec<OrderBook>,
    quantity: Decimal,
    is_ascending: bool,
) -> (r: Result<Valuation, ValuationError>)
    requires
        ladder_in_range(entity@),
        quantity.in_range(),
    ensures
        r is Err <==> quantity.units <= 0,
        r is Err ==> r == Result::<Valuation, ValuationError>::Err(
            ValuationError::NonPositiveQuantity,
        ),
        r matches Ok(v) ==> {
            &&& v.cost.units == fill_cost(entity@, quantity.units as int)
            &&& v.filled.units == quantity.units - fill_rem(entity@, quantity.units as int)
            &&& v.shortfall == (fill_rem(entity@, quantity.units as int) > 0)
            &&& v.unsorted == !sorted_dir(entity@, is_ascending)
            &&& v.zero_size_levels == count_zero_size(entity@)
            &&& v.dust_levels == count_dust(entity@)
            &&& v.total_available_units == total_size(entity@)
        },
{
    if quantity.units <= 0 {
        return Err(ValuationError::NonPositiveQuantity);
    }

    // Diagnostics pass: advisory only, never aborts the valuation.
    let mut total_available: i128 = 0;
    let mut dust: usize = 0;
    let mut zero: usize = 0;
    let mut i: usize = 0;
    while i < entity.len()
        invariant
            ladder_in_range(entity@),
            i <= entity@.len(),
            total_available == total_size(entity@.take(i as int)),
            dust == count_dust(entity@.take(i as int)),
            zero == count_zero_size(entity@.take(i as int)),
            // The literal is MAX_UNITS: one level adds at most that many units.
            0 <= total_available <= (i as i128) * 1_000_000_000_000_000i128,
            dust <= i && zero <= i,
        decreases entity@.len() - i,
    {
        let level = entity[i];
        proof {
            assert(entity@[i as int].in_range() && entity@[i as int].size.units >= 0);
            lemma_prefix_step(entity@, i as int);
        }
        total_available = total_available + level.size.units as i128;
        if level.size.units < DUST_UNITS {
            dust = dust + 1;
        }
        if level.size.units == 0 {
            zero = zero + 1;
        }
        i = i + 1;
    }
    let unsorted = !crate::orderbook_merger::is_sorted_dir(entity, is_ascending);

    // Fill pass: consume levels in ladder order until the request is filled.
    let mut cost: i128 = 0;
    let mut remaining: i64 = quantity.units;
    let mut j: usize = 0;
    proof {
        assert(entity@.skip(0) =~= entity@);
    }
    while j < entity.len() && remaining > 0
        invariant
            ladder_in_range(entity@),
            j <= entity@.len(),
            0 <= remaining <= quantity.units,
            quantity.in_range(),
            remaining == 0 ==> fill_rem(entity@, quantity.units as int) == 0,
            remaining > 0 ==> fill_rem(entity@, quantity.units as int) == fill_rem(
                entity@.skip(j as int),
                remaining as int,
            ),
            remaining > 0 ==> fill_cost(entity@, quantity.units as int) == cost + fill_cost(
                entity@.skip(j as int),
                remaining as int,
            ),
            remaining == 0 ==> fill_cost(entity@, quantity.units as int) == cost,
            // The literal is MAX_UNITS squared: the largest magnitude one
            // consumed level can add to the cost.
            remaining > 0 ==> -(j as i128) * 1_000_000_000_000_000_000_000_000_000_000i128 <= cost
                <= (j as i128) * 1_000_000_000_000_000_000_000_000_000_000i128,
            remaining == 0 ==> -(j as i128 + 1) * 1_000_000_000_000_000_000_000_000_000_000i128
                <= cost <= (j as i128 + 1) * 1_000_000_000_000_000_000_000_000_000_000i128,
        decreases entity@.len() - j, remaining,
    {
        let level = entity[j];
        let ghost tail = entity@.skip(j as int);
        proof {
            assert(tail[0] == entity@[j as int]);
            assert(tail.drop_first() =~= entity@.skip(j as int + 1));
            assert(entity@[j as int].in_range() && entity@[j as int].size.units >= 0);
            assert(level == entity@[j as int]);
            lemma_mul_bound(level.price.units as int, level.size.units as int);
            lemma_mul_bound(level.price.units as int, remaining as int);
        }
        if level.size.units == 0 {
            // A zero-size level is a no-op for the fill.
            j = j + 1;
        } else if remaining <= level.size.units {
            // This level covers the remainder; the walk ends here.
            cost = cost + level.price.units as i128 * remaining as i128;
            remaining = 0;
        } else {
            cost = cost + level.price.units as i128 * level.size.units as i128;
            remaining = remaining - level.size.units;
            j = j + 1;
            if remaining <= 0 {
                // Defensive guard against overshoot; unreachable while sizes
                // are non-negative, kept as a stated policy.
                remaining = 0;
            }
        }
    }
    proof {
        if remaining > 0 {
            assert(j == entity@.len());
            assert(entity@.skip(j as int) =~= Seq::<OrderBook>::empty());
        }
        assert(entity@.take(entity@.len() as int) =~= entity@);
    }

    Ok(
        Valuation {
            cost: Notional { units: cost },
            filled: Decimal { units: quantity.units - remaining },
            shortfall: remaining > 0,
            unsorted,
            zero_size_levels: zero,
            dust_levels: dust,
            total_available_units: total_available,
        },
    )
}

/// A ladder without negative sizes has a non-negative total size.
proof fn lemma_total_size_nonneg(s: Seq<OrderBook>)
    requires
        forall|i: int| 0 <= i < s.len() ==> (#[trigger] s[i]).size.units >= 0,
    ensures
        total_size(s) >= 0,
    decreases s.len(),
{
    if s.len() > 0 {
        assert(forall|i: int|
            0 <= i < s.drop_first().len() ==> (#[trigger] s.drop_first()[i]) == s[i + 1]);
        lemma_total_size_nonneg(s.drop_first());
    }
}

/// A ladder without negative sizes whose total size is zero is all zero-size
/// levels, so its notional is zero as well.
proof fn lemma_zero_total_zero_notional(s: Seq<OrderBook>)
    requires
        forall|i: int| 0 <= i < s.len() ==> (#[trigger] s[i]).size.units >= 0,
        total_size(s) == 0,
    ensures
        notional(s) == 0,
    decreases s.len(),
{
    if s.len() > 0 {
        assert(forall|i: int|
            0 <= i < s.drop_first().len() ==> (#[trigger] s.drop_first()[i]) == s[i + 1]);
        lemma_total_size_nonneg(s.drop_first());
        assert(s[0].size.units == 0);
        lemma_zero_total_zero_notional(s.drop_first());
    }
}

/// Valuation exactness: when the requested quantity equals the cumulative
/// size of the first `k` levels, the walk consumes exactly those levels, the
/// cost is exactly their notional, and nothing is left unfilled.
pub proof fn lemma_value_exact_boundary(s: Seq<OrderBook>, k: int, q: int)
    requires
        0 <= k <= s.len(),
        forall|i: int| 0 <= i < k ==> (#[trigger] s[i]).size.units >= 0,
        q == total_size(s.take(k)),
        q > 0,
    ensures
        fill_cost(s, q) == notional(s.take(k)),
        fill_rem(s, q) == 0,
    decreases k,
{
    assert(total_size(s.take(0)) == 0) by {
        assert(s.take(0) =~= Seq::<OrderBook>::empty());
    }
    assert(k >= 1);
    let d = s.drop_first();
    let p = s.take(k);
    assert(p[0] == s[0] && p.len() == k);
    assert(p.drop_first() =~= d.take(k - 1));
    assert(forall|i: int| 0 <= i < k - 1 ==> (#[trigger] d[i]) == s[i + 1]);
    assert(total_size(p) == s[0].size.units + total_size(d.take(k - 1)));
    assert(notional(p) == s[0].price.units * s[0].size.units + notional(d.take(k - 1)));
    assert(forall|i: int| 0 <= i < d.take(k - 1).len() ==> (#[trigger] d.take(k - 1)[i]) == s[i
        + 1]);
    lemma_total_size_nonneg(d.take(k - 1));
    if s[0].size.units == 0 {
        lemma_value_exact_boundary(d, k - 1, q);
        assert(s[0].price.units * s[0].size.units == 0) by (nonlinear_arith)
            requires
                s[0].size.units == 0,
        ;
    } else {
        let rest = total_size(d.take(k - 1));
        if rest == 0 {
            assert(q == s[0].size.units);
            assert(fill_cost(s, q) == s[0].price.units * q);
            lemma_zero_total_zero_notional(d.take(k - 1));
        } else {
            assert(q > s[0].size.units);
            lemma_value_exact_boundary(d, k - 1, q - s[0].size.units);
        }
    }
}

/// Partial fill: requesting more than the whole ladder holds consumes every
/// level, costs the full ladder notional, and leaves exactly the excess
/// unfilled (so the filled quantity is the total available).
pub proof fn lemma_value_partial_fill(s: Seq<OrderBook>, q: int)
    requires
        forall|i: int| 0 <= i < s.len() ==> (#[trigger] s[i]).size.units >= 0,
        q > total_size(s),
    ensures
        fill_cost(s, q) == notional(s),
        fill_rem(s, q) == q - total_size(s),
    decreases s.len(),
{
    lemma_total_size_nonneg(s);
    if s.len() > 0 {
        let d = s.drop_first();
        assert(forall|i: int| 0 <= i < d.len() ==> (#[trigger] d[i]) == s[i + 1]);
        lemma_total_size_nonneg(d);
        if s[0].size.units == 0 {
            lemma_value_partial_fill(d, q);
            assert(s[0].price.units * s[0].size.units == 0) by (nonlinear_arith)
                requires
                    s[0].size.units == 0,
            ;
        } else {
            assert(q > s[0].size.units);
            lemma_value_partial_fill(d, q - s[0].size.units);
        }
    }
}

/// Valuation is a pure function of the ladder and the quantity: any two
/// results meeting [`calculate_entity_price`]'s contract for the same inputs
/// are identical, so valuing the same ladder twice yields the same cost.
pub proof fn lemma_valuation_deterministic(
    entity: Seq<OrderBook>,
    quantity: Decimal,
    v1: Valuation,
    v2: Valuation,
)
    requires
        v1.cost.units == fill_cost(entity, quantity.units as int),
        v1.filled.units == quantity.units - fill_rem(entity, quantity.units as int),
        v1.shortfall == (fill_rem(entity, quantity.units as int) > 0),
        v1.zero_size_levels == count_zero_size(entity),
        v1.dust_levels == count_dust(entity),
        v1.total_available_units == total_size(entity),
        v2.cost.units == fill_cost(entity, quantity.units as int),
        v2.filled.units == quantity.units - fill_rem(entity, quantity.units as int),
        v2.shortfall == (fill_rem(entity, quantity.units as int) > 0),
        v2.zero_size_levels == count_zero_size(entity),
        v2.dust_levels == count_dust(entity),
        v2.total_available_units == total_size(entity),
        v1.unsorted == v2.unsorted,
    ensures
        v1 == v2,
{
}

/// One step of the diagnostics sums: extending the prefix by one level adds
/// that level's contribution to each running total.
proof fn lemma_prefix_step(s: Seq<OrderBook>, i: int)
    requires
        0 <= i < s.len(),
    ensures
        total_size(s.take(i + 1)) == total_size(s.take(i)) + s[i].size.units,
        count_dust(s.take(i + 1)) == count_dust(s.take(i)) + (if s[i].size.units < DUST_UNITS {
            1int
        } else {
            0int
        }),
        count_zero_size(s.take(i + 1)) == count_zero_size(s.take(i)) + (if s[i].size.units == 0 {
            1int
        } else {
            0int
        }),
    decreases i,
{
    if i == 0 {
        assert(s.take(1) =~= seq![s[0]]);
        assert(s.take(1).drop_first() =~= Seq::<OrderBook>::empty());
        assert(s.take(0) =~= Seq::<OrderBook>::empty());
    } else {
        lemma_prefix_step(s.drop_first(), i - 1);
        assert(s.take(i + 1).drop_first() =~= s.drop_first().take(i));
        assert(s.take(i).drop_first() =~= s.drop_first().take(i - 1));
        assert(s.take(i + 1)[0] == s[0] && s.take(i)[0] == s[0]);
        assert(s.drop_first()[i - 1] == s[i]);
    }
}

/// `|x * y| <= MAX_UNITS^2` when both factors are within `MAX_UNITS`; the
/// literal below is that square.
proof fn lemma_mul_bound(x: int, y: int)
    requires
        -MAX_UNITS <= x <= MAX_UNITS,
        -MAX_UNITS <= y <= MAX_UNITS,
    ensures
        -1_000_000_000_000_000_000_000_000_000_000 <= x * y
            <= 1_000_000_000_000_000_000_000_000_000_000,
{
    assert(-1_000_000_000_000_000 <= x <= 1_000_000_000_000_000);
    assert(-1_000_000_000_000_000 <= y <= 1_000_000_000_000_000);
    assert(-1_000_000_000_000_000_000_000_000_000_000 <= x * y
        <= 1_000_000_000_000_000_000_000_000_000_000) by (nonlinear_arith)
        requires
            -1_000_000_000_000_000 <= x <= 1_000_000_000_000_000,
            -1_000_000_000_000_000 <= y <= 1_000_000_000_000_000,
    ;
}

} // verus!
