use lyrics_core::rate_limiter::{AdaptiveRateLimiter, RateLimitConfig, WaitDecision, SECOND_NS};

#[test]
fn test_relax_and_penalize() {
    let config = RateLimitConfig::default();
    let mut limiter = AdaptiveRateLimiter::new(config, 0);
    limiter.penalize(None, 0);
    assert_eq!(limiter.current_interval_ns(), 1_000_000_000);
    limiter.relax();
    assert_eq!(limiter.current_interval_ns(), 900_000_000);
}

fn wait(limiter: &mut AdaptiveRateLimiter, mut now: u64) -> u64 {
    loop {
        match limiter.poll(now) {
            WaitDecision::Granted => return now,
            WaitDecision::SleepFor(d) => now += d,
        }
    }
}

#[test]
fn test_is_available() {
    let mut config = RateLimitConfig::default();
    config.requests_per_day = 1;
    let mut limiter = AdaptiveRateLimiter::new(config, 0);
    assert!(limiter.is_available(0));
    let now = wait(&mut limiter, 0);
    assert!(!limiter.is_available(now));
}

#[test]
fn grants_are_spaced_by_the_interval() {
    let mut limiter = AdaptiveRateLimiter::new(RateLimitConfig::default_limits(), 10 * SECOND_NS);
    let first = wait(&mut limiter, 10 * SECOND_NS);
    let second = wait(&mut limiter, first);
    assert!(second - first >= 500_000_000);
}

#[test]
fn backoff_is_capped_and_relaxing_never_goes_below_the_base() {
    let mut limiter = AdaptiveRateLimiter::new(RateLimitConfig::default_limits(), 0);
    for _ in 0..20 {
        limiter.penalize(None, 0);
    }
    assert_eq!(limiter.current_interval_ns(), 60 * SECOND_NS);
    for _ in 0..200 {
        limiter.relax();
    }
    assert_eq!(limiter.current_interval_ns(), 500_000_000);
}

#[test]
fn a_retry_after_sets_the_spacing() {
    let mut limiter = AdaptiveRateLimiter::new(RateLimitConfig::default_limits(), 0);
    limiter.penalize(Some(7 * SECOND_NS), 0);
    assert_eq!(limiter.current_interval_ns(), 7 * SECOND_NS);
    match limiter.poll(0) {
        WaitDecision::SleepFor(d) => assert_eq!(d, 7 * SECOND_NS),
        WaitDecision::Granted => panic!("the next slot is seven seconds away"),
    }
}

#[test]
fn no_minute_holds_more_grants_than_the_limit() {
    let config = RateLimitConfig { requests_per_minute: 3, requests_per_day: 0, base_interval_ns: 0, max_backoff_ns: 0 };
    let mut limiter = AdaptiveRateLimiter::new(config, 0);
    let mut grants = Vec::new();
    let mut now = 0u64;
    while grants.len() < 10 {
        if limiter.poll(now) == WaitDecision::Granted {
            grants.push(now);
        }
        now += SECOND_NS;
    }
    for (j, &g) in grants.iter().enumerate() {
        let within = grants[..=j].iter().filter(|&&t| g - t < 60 * SECOND_NS).count();
        assert!(within <= 3, "grant {j} at {g} has {within} grants in its minute");
    }
}

#[test]
fn asking_about_the_budget_spends_none_of_it() {
    let mut config = RateLimitConfig::default();
    config.requests_per_day = 2;
    let mut limiter = AdaptiveRateLimiter::new(config, 0);
    assert!(limiter.is_available(5));
    assert!(limiter.is_available(6));
    assert_eq!(limiter.daily_count(), 0);
    wait(&mut limiter, 7);
    assert!(limiter.is_available(8));
    assert_eq!(limiter.daily_count(), 1);
}

#[test]
fn relaxing_rounds_to_the_nearest_nanosecond() {
    let config = RateLimitConfig { requests_per_minute: 60, requests_per_day: 0, base_interval_ns: 1, max_backoff_ns: 15 };
    let mut limiter = AdaptiveRateLimiter::new(config, 0);
    limiter.penalize(Some(15), 0);
    assert_eq!(limiter.current_interval_ns(), 15);
    limiter.relax();
    assert_eq!(limiter.current_interval_ns(), 14);
}
