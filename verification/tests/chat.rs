use eidolon::chat::{ChatChannel, ChatRateLimiter};

#[test]
fn test_chat_channel_opcodes() {
    for i in 0..=3 {
        let ch = ChatChannel::from_u8(i).expect("Valid channel");
        assert_eq!(ch.as_u8(), i);
    }
    assert_eq!(ChatChannel::from_u8(4), None);
}

#[test]
fn test_chat_rate_limiter() {
    let mut limiter = ChatRateLimiter::new(3, 20);
    let account = 1001;

    assert!(limiter.check_and_consume(account, 100).is_ok());
    assert!(limiter.check_and_consume(account, 100).is_ok());
    assert!(limiter.check_and_consume(account, 100).is_ok());

    assert!(limiter.check_and_consume(account, 100).is_err());

    assert!(limiter.check_and_consume(account, 119).is_err());

    assert!(limiter.check_and_consume(account, 120).is_ok());
    assert!(limiter.check_and_consume(account, 120).is_err());
}

#[test]
fn chat_limiter_caps_replenishment_at_capacity() {
    let mut limiter = ChatRateLimiter::new(2, 10);
    assert!(limiter.check_and_consume(7, 0).is_ok());
    assert!(limiter.check_and_consume(7, 0).is_ok());
    assert!(limiter.check_and_consume(7, 0).is_err());
    // A long pause refills only up to capacity.
    assert!(limiter.check_and_consume(7, 1_000).is_ok());
    assert!(limiter.check_and_consume(7, 1_000).is_ok());
    assert!(limiter.check_and_consume(7, 1_000).is_err());
}

#[test]
fn chat_limiter_zero_interval_is_one_tick() {
    let mut limiter = ChatRateLimiter::new(1, 0);
    assert!(limiter.check_and_consume(1, 5).is_ok());
    assert!(limiter.check_and_consume(1, 5).is_err());
    assert!(limiter.check_and_consume(1, 6).is_ok());
}

#[test]
fn chat_limiter_accounts_are_independent() {
    let mut limiter = ChatRateLimiter::default();
    for _ in 0..5 {
        assert!(limiter.check_and_consume(1, 0).is_ok());
    }
    assert!(limiter.check_and_consume(1, 0).is_err());
    assert!(limiter.check_and_consume(2, 0).is_ok());
}
