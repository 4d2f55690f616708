//! Token-bucket admission control.
//!
//! The limiter is an explicit state machine: the bucket holds a fractional
//! number of tokens carried as nano-tokens, refilled from elapsed wall-clock
//! time. Every operation takes "now" as a parameter, a monotonic timestamp
//! in microseconds from any fixed origin; the caller owning the clock (and
//! any mutual-exclusion guard and sleeping) lives outside the library. One
//! token is taken per successful acquisition; tokens never exceed the
//! configured capacity and never go negative.

use vstd::prelude::*;
use crate::decimal::Decimal;

verus! {

/// Nano-tokens in one whole token.
pub const ONE_TOKEN: u64 = 1_000_000_000;

/// Error returned when no whole token is available.
#[derive(Debug, Clone, Copy, PartialEq, Eq, Structural)]
pub struct RateLimitExceeded;

/// Error returned when a limiter is constructed with an unusable
/// configuration; construction fails fast instead of producing a limiter
/// that could never admit a call.
#[derive(Debug, Clone, Copy, PartialEq, Eq, Structural)]
pub enum ConfigError {
    /// The capacity was zero or negative.
    NonPositiveCapacity,
    /// The refill rate was zero or negative (for an interval limiter: the
    /// interval was zero, or so long that the rate rounds to zero).
    NonPositiveRate,
}

/// A token-bucket rate limiter: at most `capacity_nanos` nano-tokens may be
/// held at once, and they refill at `refill_nanos_per_sec` as time passes.
#[derive(Debug, Clone, Copy, PartialEq, Eq, Structural)]
pub struct RateLimiter {
    /// Nano-tokens currently in the bucket; never exceeds the capacity.
    pub tokens_nanos: u64,
    /// Bucket capacity in nano-tokens; caps burst size.
    pub capacity_nanos: u64,
    /// Refill rate in nano-tokens per second; caps sustained throughput.
    pub refill_nanos_per_sec: u64,
    /// Timestamp, in microseconds, of the last refill.
    pub last_update_micros: u64,
}

impl RateLimiter {
    /// The limiter's invariant: positive configuration within the decimal
    /// range, and a bucket that never overflows its capacity.
    pub open spec fn wf(self) -> bool {
        &&& 0 < self.capacity_nanos <= 0x7fff_ffff_ffff_ffffu64
        &&& 0 < self.refill_nanos_per_sec <= 0x7fff_ffff_ffff_ffffu64
        &&& self.tokens_nanos <= self.capacity_nanos
    }

    /// Nano-tokens in the bucket once it is refilled at time `now`: elapsed
    /// time (clamped at zero) times the refill rate, truncated to microsecond
    /// resolution, and capped at the capacity.
    pub open spec fn refilled_tokens(self, now: u64) -> int {
        if now <= self.last_update_micros {
            self.tokens_nanos as int
        } else {
            let add = (self.refill_nanos_per_sec as int * (now - self.last_update_micros))
                / 1_000_000;
            if self.tokens_nanos + add <= self.capacity_nanos {
                self.tokens_nanos + add
            } else {
                self.capacity_nanos as int
            }
        }
    }

    /// The limiter's state once refilled at time `now`.
    pub open spec fn refilled_at(self, now: u64) -> RateLimiter {
        if now <= self.last_update_micros {
            self
        } else {
            RateLimiter {
                tokens_nanos: self.refilled_tokens(now) as u64,
                last_update_micros: now,
                ..self
            }
        }
    }

    /// The state transition of [`RateLimiter::try_acquire`]: refill at `now`,
    /// then take one token if a whole one is there. Returns the next state
    /// and whether the acquisition succeeded.
    pub open spec fn spec_try_acquire(self, now: u64) -> (RateLimiter, bool) {
        let refilled = self.refilled_at(now);
        if refilled.tokens_nanos >= ONE_TOKEN {
            (
                RateLimiter { tokens_nanos: (refilled.tokens_nanos - ONE_TOKEN) as u64, ..refilled },
                true,
            )
        } else {
            (refilled, false)
        }
    }

    /// Microseconds after the last refill at which the bucket is owed a whole
    /// token: zero if one is already there, else the deficit divided by the
    /// refill rate, rounded up.
    pub open spec fn wait_micros_spec(self) -> int {
        if self.tokens_nanos >= ONE_TOKEN {
            0
        } else {
            ((ONE_TOKEN - self.tokens_nanos) * 1_000_000 + (self.refill_nanos_per_sec - 1))
                / self.refill_nanos_per_sec as int
        }
    }

    /// Construct a limiter with the given capacity and refill rate, both in
    /// tokens as [`Decimal`] values, with a full bucket. Fails fast exactly
    /// when either parameter is not positive.
    pub fn new(capacity: Decimal, tokens_per_second: Decimal, now_micros: u64) -> (r: Result<
        RateLimiter,
        ConfigError,
    >)
        ensures
            r is Ok <==> capacity.units > 0 && tokens_per_second.units > 0,
            capacity.units <= 0 ==> r == Result::<RateLimiter, ConfigError>::Err(
                ConfigError::NonPositiveCapacity,
            ),
            capacity.units > 0 && tokens_per_second.units <= 0 ==> r == Result::<
                RateLimiter,
                ConfigError,
            >::Err(ConfigError::NonPositiveRate),
            r matches Ok(l) ==> {
                &&& l.wf()
                &&& l.tokens_nanos == capacity.units
                &&& l.capacity_nanos == capacity.units
                &&& l.refill_nanos_per_sec == tokens_per_second.units
                &&& l.last_update_micros == now_micros
            },
    {
        if capacity.units <= 0 {
            return Err(ConfigError::NonPositiveCapacity);
        }
        if tokens_per_second.units <= 0 {
            return Err(ConfigError::NonPositiveRate);
        }
        Ok(
            RateLimiter {
                tokens_nanos: capacity.units as u64,
                capacity_nanos: capacity.units as u64,
                refill_nanos_per_sec: tokens_per_second.units as u64,
                last_update_micros: now_micros,
            },
        )
    }

    /// Construct a limiter admitting at most one call per interval: capacity
    /// one token, refill rate one token per interval. Fails fast exactly when
    /// the interval is zero or so long that the rate truncates to zero.
    pub fn new_per_interval(interval_micros: u64, now_micros: u64) -> (r: Result<
        RateLimiter,
        ConfigError,
    >)
        ensures
            r is Ok <==> 0 < interval_micros <= 1_000_000_000_000_000u64,
            r is Err ==> r == Result::<RateLimiter, ConfigError>::Err(ConfigError::NonPositiveRate),
            r matches Ok(l) ==> {
                &&& l.wf()
                &&& l.tokens_nanos == ONE_TOKEN
                &&& l.capacity_nanos == ONE_TOKEN
                &&& l.refill_nanos_per_sec == 1_000_000_000_000_000u64 / interval_micros
                &&& l.last_update_micros == now_micros
            },
    {
        if interval_micros == 0 || interval_micros > 1_000_000_000_000_000u64 {
            return Err(ConfigError::NonPositiveRate);
        }
        // ONE_TOKEN nano-tokens per interval, as nano-tokens per second:
        // ONE_TOKEN * 1_000_000 micros == 10^15.
        let rate = 1_000_000_000_000_000u64 / interval_micros;
        proof {
            assert(1 <= 1_000_000_000_000_000u64 / interval_micros
                <= 1_000_000_000_000_000u64) by (nonlinear_arith)
                requires
                    0 < interval_micros <= 1_000_000_000_000_000u64,
            ;
        }
        Ok(
            RateLimiter {
                tokens_nanos: ONE_TOKEN,
                capacity_nanos: ONE_TOKEN,
                refill_nanos_per_sec: rate,
                last_update_micros: now_micros,
            },
        )
    }

    /// Refill the bucket from the elapsed time, then take one whole token if
    /// available. Non-blocking: on failure the refill still sticks but no
    /// token is taken.
    pub fn try_acquire(&mut self, now_micros: u64) -> (r: Result<(), RateLimitExceeded>)
        requires
            old(self).wf(),
        ensures
            final(self).wf(),
            *final(self) == old(self).spec_try_acquire(now_micros).0,
            r is Ok <==> old(self).spec_try_acquire(now_micros).1,
    {
        self.refill(now_micros);
        if self.tokens_nanos >= ONE_TOKEN {
            self.tokens_nanos = self.tokens_nanos - ONE_TOKEN;
            Ok(())
        } else {
            Err(RateLimitExceeded)
        }
    }

    /// Refill the bucket from the elapsed time and report how many tokens it
    /// holds, as a [`Decimal`] number of tokens.
    pub fn available_tokens(&mut self, now_micros: u64) -> (r: Decimal)
        requires
            old(self).wf(),
        ensures
            final(self).wf(),
            *final(self) == old(self).refilled_at(now_micros),
            r.units == old(self).refilled_tokens(now_micros),
    {
        self.refill(now_micros);
        Decimal { units: self.tokens_nanos as i64 }
    }

    /// Microseconds to wait, from the last refill, until the bucket is owed
    /// a whole token; zero when one is already there.
    pub fn required_wait_micros(&self) -> (r: u64)
        requires
            self.wf(),
        ensures
            r == self.wait_micros_spec(),
    {
        if self.tokens_nanos >= ONE_TOKEN {
            return 0;
        }
        let deficit = ONE_TOKEN - self.tokens_nanos;
        let rate = self.refill_nanos_per_sec;
        let wait = ((deficit as u128) * 1_000_000u128 + (rate as u128 - 1)) / (rate as u128);
        wait as u64
    }

    /// Waiting long enough always works: once [`RateLimiter::wait_micros_spec`]
    /// microseconds have passed since the last refill, a bucket whose capacity
    /// is at least one token is owed a whole token, so the next acquisition at
    /// or after that moment succeeds.
    pub proof fn lemma_wait_suffices(self, now: u64)
        requires
            self.wf(),
            self.capacity_nanos >= ONE_TOKEN,
            now >= self.last_update_micros + self.wait_micros_spec(),
        ensures
            self.refilled_tokens(now) >= ONE_TOKEN,
            self.spec_try_acquire(now).1,
    {
        let r = self.refill_nanos_per_sec as int;
        let t = self.tokens_nanos as int;
        if t >= ONE_TOKEN {
            if now > self.last_update_micros {
                let e = now - self.last_update_micros;
                assert(r * e >= 0) by (nonlinear_arith)
                    requires
                        r >= 0,
                        e >= 0,
                ;
                vstd::arithmetic::div_mod::lemma_div_is_ordered(0, r * e, 1_000_000);
            }
        } else {
            let d = ONE_TOKEN - t;
            let w = (d * 1_000_000 + (r - 1)) / r;
            vstd::arithmetic::div_mod::lemma_fundamental_div_mod(d * 1_000_000 + (r - 1), r);
            assert(r * w >= d * 1_000_000);
            assert(w >= 1) by (nonlinear_arith)
                requires
                    r * w >= 1_000_000,
                    r >= 1,
            ;
            assert(now > self.last_update_micros);
            let e = now - self.last_update_micros;
            vstd::arithmetic::mul::lemma_mul_inequality(w, e, r);
            assert(w * r == r * w && e * r == r * e) by (nonlinear_arith);
            vstd::arithmetic::div_mod::lemma_div_is_ordered(r * w, r * e, 1_000_000);
            vstd::arithmetic::div_mod::lemma_div_is_ordered(d * 1_000_000, r * w, 1_000_000);
            assert((d * 1_000_000) / 1_000_000 == d) by {
                vstd::arithmetic::div_mod::lemma_fundamental_div_mod_converse(
                    d * 1_000_000,
                    1_000_000,
                    d,
                    0,
                );
            }
            assert((r * e) / 1_000_000 >= d);
            assert(self.refilled_tokens(now) >= ONE_TOKEN);
        }
        assert(self.refilled_at(now).tokens_nanos >= ONE_TOKEN);
    }

    /// Waiting less never works: while fewer than
    /// [`RateLimiter::wait_micros_spec`] microseconds have passed since the
    /// last refill, a bucket short of a whole token is still short, so an
    /// acquisition before that moment fails.
    pub proof fn lemma_no_early_token(self, now: u64)
        requires
            self.wf(),
            self.tokens_nanos < ONE_TOKEN,
            now < self.last_update_micros + self.wait_micros_spec(),
        ensures
            self.refilled_tokens(now) < ONE_TOKEN,
            !self.spec_try_acquire(now).1,
    {
        if now > self.last_update_micros {
            let r = self.refill_nanos_per_sec as int;
            let t = self.tokens_nanos as int;
            let d = ONE_TOKEN - t;
            let w = (d * 1_000_000 + (r - 1)) / r;
            let e = now - self.last_update_micros;
            assert(e <= w - 1);
            vstd::arithmetic::div_mod::lemma_fundamental_div_mod(d * 1_000_000 + (r - 1), r);
            assert(r * w <= d * 1_000_000 + (r - 1));
            assert(r * (w - 1) == r * w - r) by (nonlinear_arith);
            assert(r * (w - 1) <= d * 1_000_000 - 1);
            vstd::arithmetic::mul::lemma_mul_inequality(e, w - 1, r);
            assert(e * r == r * e && (w - 1) * r == r * (w - 1)) by (nonlinear_arith);
            vstd::arithmetic::div_mod::lemma_div_is_ordered(r * e, d * 1_000_000 - 1, 1_000_000);
            assert((d * 1_000_000 - 1) / 1_000_000 == d - 1) by {
                vstd::arithmetic::div_mod::lemma_fundamental_div_mod_converse(
                    d * 1_000_000 - 1,
                    1_000_000,
                    d - 1,
                    999_999,
                );
                assert((d - 1) * 1_000_000 + 999_999 == d * 1_000_000 - 1) by (nonlinear_arith);
            }
            assert((r * e) / 1_000_000 <= d - 1);
        }
    }

    /// A capacity-one limiter admits no burst: right after a successful
    /// acquisition the bucket is empty, so a second acquisition at the same
    /// instant fails.
    pub proof fn lemma_single_token_no_burst(self, now: u64)
        requires
            self.wf(),
            self.capacity_nanos == ONE_TOKEN,
            self.spec_try_acquire(now).1,
        ensures
            self.spec_try_acquire(now).0.tokens_nanos == 0,
            !self.spec_try_acquire(now).0.spec_try_acquire(now).1,
    {
    }

    /// Refill the bucket at `now`: tokens grow with elapsed time, truncated
    /// to microsecond resolution and capped at the capacity; going backwards
    /// in time leaves the state unchanged.
    fn refill(&mut self, now_micros: u64)
        requires
            old(self).wf(),
        ensures
            final(self).wf(),
            *final(self) == old(self).refilled_at(now_micros),
    {
        if now_micros <= self.last_update_micros {
            return;
        }
        let elapsed = now_micros - self.last_update_micros;
        let rate_wide: u128 = self.refill_nanos_per_sec as u128;
        let elapsed_wide: u128 = elapsed as u128;
        proof {
            assert(rate_wide * elapsed_wide < 0x8000_0000_0000_0000_0000_0000_0000_0000u128)
                by (nonlinear_arith)
                requires
                    rate_wide < 0x8000_0000_0000_0000u128,
                    elapsed_wide <= 0xffff_ffff_ffff_ffffu128,
            ;
        }
        let add_wide: u128 = rate_wide * elapsed_wide / 1_000_000;
        let current = self.tokens_nanos as u128;
        let cap = self.capacity_nanos as u128;
        // Capping the increment at the capacity first keeps the sum small;
        // the refilled level is the same either way.
        let add_capped: u128 = if add_wide > cap {
            cap
        } else {
            add_wide
        };
        let refilled = if current + add_capped <= cap {
            current + add_capped
        } else {
            cap
        };
        self.tokens_nanos = refilled as u64;
        self.last_update_micros = now_micros;
    }
}

} // verus!
