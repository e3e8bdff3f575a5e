use tircorder::limiter::RateLimiter;

#[test]
fn delay_doubles_and_caps() {
    let mut limiter = RateLimiter::new(60);
    assert_eq!(limiter.next_delay_secs(), 1);
    limiter.increment();
    assert_eq!(limiter.next_delay_secs(), 2);
    limiter.increment();
    assert_eq!(limiter.next_delay_secs(), 4);
    limiter.increment();
    limiter.increment();
    limiter.increment();
    assert_eq!(limiter.next_delay_secs(), 32);
    limiter.increment();
    // 2^6 = 64 crosses the ceiling
    assert_eq!(limiter.next_delay_secs(), 60);
    limiter.increment();
    assert_eq!(limiter.next_delay_secs(), 60);
}

#[test]
fn reset_restores_the_shortest_delay() {
    let mut limiter = RateLimiter::new(60);
    for _ in 0..10 {
        limiter.increment();
    }
    assert_eq!(limiter.next_delay_secs(), 60);
    limiter.reset();
    assert_eq!(limiter.next_delay_secs(), 1);
}

#[test]
fn ceiling_below_one_second_wins_immediately() {
    let limiter = RateLimiter::new(0);
    assert_eq!(limiter.next_delay_secs(), 0);
}

#[test]
fn huge_pass_counts_stay_at_the_ceiling() {
    let mut limiter = RateLimiter::new(3600);
    for _ in 0..100 {
        limiter.increment();
    }
    assert_eq!(limiter.next_delay_secs(), 3600);
}
