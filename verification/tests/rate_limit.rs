use tgfeed::rate_limit::{COMMANDS_PERIOD_MS, KeyedRateLimiter, RateLimiters, SUMMARIZE_PERIOD_MS};

#[test]
fn test_fresh_key_passes() {
    let mut limiters = RateLimiters::new();
    assert!(limiters.commands.check_key(1, 0));
}

#[test]
fn test_immediate_second_call_denied() {
    let mut limiters = RateLimiters::new();
    let t = 10_000;
    assert!(limiters.commands.check_key(1, t));
    assert!(!limiters.commands.check_key(1, t));
    assert!(!limiters.commands.check_key(1, t + COMMANDS_PERIOD_MS - 1));
}

#[test]
fn test_refill_allows_again() {
    let mut limiters = RateLimiters::new();
    let t = 10_000;
    assert!(limiters.commands.check_key(1, t));
    assert!(limiters.commands.check_key(1, t + COMMANDS_PERIOD_MS));
}

#[test]
fn test_denial_consumes_nothing() {
    let mut limiter = KeyedRateLimiter::new(1000);
    let t = 10_000;
    assert!(limiter.check_key(1, t));
    // repeated denials do not push the refill instant further out
    assert!(!limiter.check_key(1, t + 10));
    assert!(!limiter.check_key(1, t + 999));
    assert!(limiter.check_key(1, t + 1000));
}

#[test]
fn test_keys_are_independent() {
    let mut limiter = KeyedRateLimiter::new(1000);
    let t = 10_000;
    assert!(limiter.check_key(1, t));
    assert!(limiter.check_key(2, t));
    assert!(!limiter.check_key(1, t + 1));
    assert!(!limiter.check_key(2, t + 1));
}

#[test]
fn test_scopes_are_independent() {
    let mut limiters = RateLimiters::new();
    assert_eq!(limiters.commands.period_ms, COMMANDS_PERIOD_MS);
    assert_eq!(limiters.summarize.period_ms, SUMMARIZE_PERIOD_MS);
    let t = 10_000;
    assert!(limiters.commands.check_key(1, t));
    // the summarize scope has its own bucket for the same user
    assert!(limiters.summarize.check_key(1, t));
    assert!(!limiters.summarize.check_key(1, t + COMMANDS_PERIOD_MS));
    assert!(limiters.summarize.check_key(1, t + SUMMARIZE_PERIOD_MS));
}
