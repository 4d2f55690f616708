//! Aggregation of two exchange order books into one unified depth ladder.
//!
//! The crate provides three verified components:
//! - a merger that combines two price-sorted level sequences into one ladder,
//! - a depth valuator that prices a requested quantity against a ladder,
//! - a token-bucket rate limiter modelled as an explicit state machine.
//!
//! All arithmetic is exact fixed-point decimal arithmetic over integers; the
//! unverified shell around the library (networking, JSON decoding, the async
//! runtime) lives outside this crate's verified surface.

pub mod decimal;
pub mod types;
pub mod orderbook_merger;
pub mod valuation;
pub mod rate_limiter;
