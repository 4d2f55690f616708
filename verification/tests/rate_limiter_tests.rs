use ob_aggregator::decimal::Decimal;
use ob_aggregator::rate_limiter::{ConfigError, RateLimiter};

const SECOND: u64 = 1_000_000;

#[test]
fn test_rate_limiter() {
    // Capacity one token, one token per two seconds. Three acquisitions
    // complete at t = 0s, 2s and 4s: after each success the limiter itself
    // reports the exact wait for the next token.
    let mut rl = RateLimiter::new_per_interval(2 * SECOND, 0).unwrap();

    assert!(rl.try_acquire(0).is_ok());
    assert_eq!(rl.required_wait_micros(), 2 * SECOND);

    // Waking even one microsecond early is too soon.
    assert!(rl.try_acquire(2 * SECOND - 1).is_err());
    assert!(rl.try_acquire(2 * SECOND).is_ok());
    assert_eq!(rl.required_wait_micros(), 2 * SECOND);

    assert!(rl.try_acquire(4 * SECOND - 1).is_err());
    assert!(rl.try_acquire(4 * SECOND).is_ok());
}

#[test]
fn test_rate_limiter_2() {
    let mut rl = RateLimiter::new_per_interval(2 * SECOND, 0).unwrap();

    // First call succeeds; an immediate second call fails; after two
    // seconds a call succeeds again.
    assert!(rl.try_acquire(0).is_ok());
    assert!(rl.try_acquire(0).is_err());
    assert!(rl.try_acquire(2 * SECOND).is_ok());
}

#[test]
fn available_tokens_refills_gradually() {
    let mut rl = RateLimiter::new_per_interval(2 * SECOND, 0).unwrap();
    assert!(rl.try_acquire(0).is_ok());
    // Half the interval has passed: half a token.
    assert_eq!(rl.available_tokens(SECOND), Decimal { units: 500_000_000 });
    // Reading again at the same instant changes nothing.
    assert_eq!(rl.available_tokens(SECOND), Decimal { units: 500_000_000 });
    // Tokens never exceed the capacity, however long the wait.
    assert_eq!(rl.available_tokens(100 * SECOND), Decimal { units: 1_000_000_000 });
}

#[test]
fn bursts_up_to_capacity_then_limited() {
    // Two tokens capacity, one token per second: two immediate successes,
    // then a failure, then one more success each second.
    let capacity = Decimal::from_units(2_000_000_000);
    let rate = Decimal::from_units(1_000_000_000);
    let mut rl = RateLimiter::new(capacity, rate, 0).unwrap();
    assert!(rl.try_acquire(0).is_ok());
    assert!(rl.try_acquire(0).is_ok());
    assert!(rl.try_acquire(0).is_err());
    assert!(rl.try_acquire(SECOND).is_ok());
    assert!(rl.try_acquire(SECOND).is_err());
}

#[test]
fn invalid_configuration_fails_fast() {
    let zero = Decimal::zero();
    let one = Decimal::from_units(1_000_000_000);
    let negative = Decimal::from_units(-1);
    assert_eq!(
        RateLimiter::new(zero, one, 0),
        Err(ConfigError::NonPositiveCapacity)
    );
    assert_eq!(
        RateLimiter::new(negative, one, 0),
        Err(ConfigError::NonPositiveCapacity)
    );
    assert_eq!(
        RateLimiter::new(one, zero, 0),
        Err(ConfigError::NonPositiveRate)
    );
    assert_eq!(
        RateLimiter::new_per_interval(0, 0),
        Err(ConfigError::NonPositiveRate)
    );
}

#[test]
fn clock_going_backwards_is_ignored() {
    let mut rl = RateLimiter::new_per_interval(2 * SECOND, 10 * SECOND).unwrap();
    assert!(rl.try_acquire(10 * SECOND).is_ok());
    // A timestamp before the last refill neither refills nor fails the state.
    assert!(rl.try_acquire(5 * SECOND).is_err());
    assert!(rl.try_acquire(12 * SECOND).is_ok());
}
