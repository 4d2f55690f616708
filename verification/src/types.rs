//! Typed order-book levels.
//!
//! Each upstream source delivers levels in its own record shape; both carry a
//! price and a size (the second source calls the size `amount`). The merger
//! translates either shape into the unified [`OrderBook`] level that the
//! valuator consumes.

use vstd::prelude::*;
use crate::decimal::Decimal;

verus! {

/// A level as the first upstream source reports it.
#[derive(Debug, Clone, Copy, PartialEq, Eq, Structural)]
pub struct CoinbaseOrder {
    pub price: Decimal,
    pub size: Decimal,
    /// How many resting orders make up the level; informational only,
    /// not consumed by the merge or the valuation.
    pub num_orders: u64,
}

/// A level as the second upstream source reports it.
#[derive(Debug, Clone, Copy, PartialEq, Eq, Structural)]
pub struct GeminiOrder {
    pub price: Decimal,
    /// The level's size; this source names the field `amount`.
    pub amount: Decimal,
    /// Exchange timestamp; informational only, not consumed downstream.
    pub timestamp: u64,
}

/// One price point of the unified depth ladder.
#[derive(Debug, Clone, Copy, PartialEq, Eq, Structural)]
pub struct OrderBook {
    pub price: Decimal,
    pub size: Decimal,
}

/// The unified level a first-source record translates to.
pub open spec fn level_of_coinbase(o: CoinbaseOrder) -> OrderBook {
    OrderBook { price: o.price, size: o.size }
}

/// The unified level a second-source record translates to.
pub open spec fn level_of_gemini(o: GeminiOrder) -> OrderBook {
    OrderBook { price: o.price, size: o.amount }
}

impl OrderBook {
    /// Whether both coordinates lie in the range the valuator's arithmetic
    /// is proved exact for.
    pub open spec fn in_range(self) -> bool {
        self.price.in_range() && self.size.in_range()
    }
}

} // verus!
