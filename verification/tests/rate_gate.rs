use kukai::rate_gate::TokenBucket;

#[test]
fn test_token_bucket() {
    // A bucket of five tokens refilled at one token per second, driven by
    // an explicit clock in microseconds.
    let mut bucket = TokenBucket::new(5, 1, 0);
    assert!(bucket.try_consume(0, 3));
    assert!(!bucket.try_consume(0, 3));
    // Three seconds later the bucket has refilled enough.
    assert!(bucket.try_consume(3_000_000, 3));
}

#[test]
fn standalone_test_token_bucket() {
    let mut bucket = TokenBucket::new(5, 1, 0);
    assert!(bucket.try_consume(0, 3));
    assert!(!bucket.try_consume(0, 3));
    assert!(bucket.try_consume(3_000_000, 3));
}

#[test]
fn burst_bounded_rate_law_sampled() {
    // Rate 100 tokens/s, capacity 5: over a one-second window no more
    // than 100 * 1 + 5 tokens may be admitted, however often we ask.
    let mut gate = TokenBucket::new(5, 100, 0);
    let mut admitted: u64 = 0;
    let mut now: u64 = 0;
    while now <= 1_000_000 {
        if gate.try_consume(now, 1) {
            admitted += 1;
        }
        now += 500; // ask twice per millisecond
    }
    assert!(admitted <= 105, "admitted {admitted} tokens, law allows 105");
    // Admission also cannot stall forever: a decent share got through.
    assert!(admitted >= 100);
}

#[test]
fn zero_rate_clamps_to_one_token_per_second() {
    let mut gate = TokenBucket::new(1, 0, 0);
    assert!(gate.try_consume(0, 1));
    assert!(!gate.try_consume(0, 1));
    // With the clamp to one token per second, a second later one more
    // attempt is admitted instead of stalling forever.
    assert!(gate.try_consume(1_000_000, 1));
}

#[test]
fn wait_until_admittable_is_exact() {
    // Capacity one token, two tokens per second.
    let mut gate = TokenBucket::new(1, 2, 0);
    assert_eq!(gate.micros_until_admittable(0, 1), 0);
    assert!(gate.try_consume(0, 1));
    // The bucket is empty; one token at two tokens per second takes
    // half a second to refill.
    let wait = gate.micros_until_admittable(0, 1);
    assert_eq!(wait, 500_000);
    assert!(!gate.try_consume(wait - 1, 1));
    assert!(gate.try_consume(wait, 1));
}

#[test]
fn tokens_capped_at_capacity() {
    let mut gate = TokenBucket::new(2, 1000, 0);
    // A long idle period must not accumulate more than the capacity.
    assert!(gate.try_consume(60_000_000, 1));
    assert!(gate.try_consume(60_000_000, 1));
    assert!(!gate.try_consume(60_000_000, 1));
}
