use hostparser::limiter::{TokenBucket, NANOS_PER_SEC};

#[test]
fn fresh_bucket_admits_full_burst_then_refuses() {
    let mut b = TokenBucket::new(2, 0);
    assert!(b.try_admit(0));
    assert!(b.try_admit(0));
    assert!(!b.try_admit(0));
}

#[test]
fn wait_covers_exactly_one_token() {
    let mut b = TokenBucket::new(2, 0);
    assert!(b.try_admit(0));
    assert!(b.try_admit(0));
    assert!(!b.try_admit(0));
    let w = b.wait_nanos();
    assert_eq!(w, NANOS_PER_SEC / 2);
    assert!(b.try_admit(w));
    assert!(!b.try_admit(w));
}

#[test]
fn burst_equals_rate() {
    let mut b = TokenBucket::new(1000, 0);
    for _ in 0..1000 {
        assert!(b.try_admit(0));
    }
    assert!(!b.try_admit(0));
}

#[test]
fn full_second_refills_the_whole_burst() {
    let mut b = TokenBucket::new(3, 0);
    assert!(b.try_admit(0));
    assert!(b.try_admit(0));
    assert!(b.try_admit(0));
    assert!(!b.try_admit(0));
    let later = 5 * NANOS_PER_SEC;
    assert!(b.try_admit(later));
    assert!(b.try_admit(later));
    assert!(b.try_admit(later));
    assert!(!b.try_admit(later));
}

#[test]
fn rate_one_five_jobs_take_at_least_four_seconds() {
    // Five jobs arrive at once with rate 1: the burst covers the first,
    // and each further admission waits a full second, so draining takes
    // at least four seconds of accumulated waiting.
    let mut b = TokenBucket::new(1, 0);
    let mut now: u64 = 0;
    let mut admitted: u32 = 0;
    while admitted < 5 {
        if b.try_admit(now) {
            admitted += 1;
        } else {
            let w = b.wait_nanos();
            assert!(w > 0);
            now += w;
        }
    }
    assert!(now >= 4 * NANOS_PER_SEC);
}
