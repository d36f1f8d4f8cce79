use rebarr::rate_limiter::{MetadataRateLimiter, RateLimitHeaders, MAX_BACKOFF_SECS};

#[test]
fn creates_with_default_rpm() {
    let limiter = MetadataRateLimiter::default_rpm("test");
    assert_eq!(limiter.name(), "test");
}

#[test]
fn creates_with_custom_rpm() {
    let limiter = MetadataRateLimiter::new("test", 10);
    assert_eq!(limiter.name(), "test");
}

#[test]
fn updates_from_headers() {
    let mut limiter = MetadataRateLimiter::default_rpm("test");
    let headers = RateLimitHeaders {
        remaining: Some("10".to_string()),
        reset: Some("1700000000".to_string()),
        retry_after: Some("5".to_string()),
    };

    limiter.update_from_headers(&headers);

    assert_eq!(limiter.remaining(), 10);
    assert_eq!(limiter.reset_at(), 1700000000);
    assert_eq!(limiter.retry_after(), 5);
}

#[test]
fn handle_rate_limited_sets_backoff() {
    let mut limiter = MetadataRateLimiter::default_rpm("test");

    limiter.handle_rate_limited(0);
    assert_eq!(limiter.retry_after(), 2);

    limiter.handle_rate_limited(1);
    assert_eq!(limiter.retry_after(), 4);

    limiter.handle_rate_limited(5);
    assert_eq!(limiter.retry_after(), 64.min(MAX_BACKOFF_SECS));
}

#[test]
fn new_limiter_has_no_header_state() {
    let limiter = MetadataRateLimiter::new("anilist", 0);
    assert_eq!(limiter.remaining(), u32::MAX);
    assert_eq!(limiter.reset_at(), 0);
    assert_eq!(limiter.retry_after(), 0);
    // Zero requests per minute count as one: one request a minute.
    assert_eq!(limiter.period_nanos(), 60_000_000_000);
    assert_eq!(MetadataRateLimiter::default_rpm("x").period_nanos(), 2_400_000_000);
    assert_eq!(MetadataRateLimiter::new("x", 7).period_nanos(), 8_571_428_571);
    assert_eq!(MetadataRateLimiter::new("x", 7).burst(), 1);
}

#[test]
fn unreadable_headers_keep_state() {
    let mut limiter = MetadataRateLimiter::default_rpm("test");
    limiter.update_from_headers(&RateLimitHeaders {
        remaining: Some("ten".to_string()),
        reset: Some("-5".to_string()),
        retry_after: None,
    });
    assert_eq!(limiter.remaining(), u32::MAX);
    assert_eq!(limiter.reset_at(), -5);
    assert_eq!(limiter.retry_after(), 0);
    limiter.update_from_headers(&RateLimitHeaders {
        remaining: Some("4294967296".to_string()),
        reset: None,
        retry_after: Some("+7".to_string()),
    });
    assert_eq!(limiter.remaining(), u32::MAX);
    assert_eq!(limiter.retry_after(), 7);
}

#[test]
fn backoff_doubles_until_capped() {
    let mut limiter = MetadataRateLimiter::default_rpm("test");
    let expected = [2u64, 4, 8, 16, 32, 60, 60, 60];
    for (attempt, want) in expected.iter().enumerate() {
        limiter.handle_rate_limited(attempt as u32);
        assert_eq!(limiter.retry_after(), *want);
    }
    limiter.handle_rate_limited(u32::MAX);
    assert_eq!(limiter.retry_after(), 60);
}

#[test]
fn waits_follow_the_headers() {
    let mut limiter = MetadataRateLimiter::default_rpm("test");
    assert_eq!(limiter.retry_delay(), None);
    assert_eq!(limiter.proactive_delay(1_000), None);
    limiter.update_from_headers(&RateLimitHeaders {
        remaining: Some("3".to_string()),
        reset: Some("1010".to_string()),
        retry_after: Some("9".to_string()),
    });
    assert_eq!(limiter.retry_delay(), Some(9));
    limiter.clear_retry_after();
    assert_eq!(limiter.retry_delay(), None);
    // Ten seconds to the reset: wait until one second after it.
    assert_eq!(limiter.proactive_delay(1_000), Some(11));
    // Far from the reset: at most a minute.
    assert_eq!(limiter.proactive_delay(0), Some(60));
    // Reset passed: a short pause.
    assert_eq!(limiter.proactive_delay(2_000), Some(2));
    limiter.update_from_headers(&RateLimitHeaders { remaining: Some("5".to_string()), reset: None, retry_after: None });
    assert_eq!(limiter.proactive_delay(1_000), None);
}
