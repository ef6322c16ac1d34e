use agent_core::policy::Policy;
use agent_core::throttle::Throttle;

#[test]
fn fresh_throttle_defaults() {
    let t = Throttle::new(0);
    assert_eq!(t.capacity, 10);
    assert_eq!(t.tokens_units, 600_000);
    assert_eq!(t.min_interval_ms, 500);
}

#[test]
fn burst_of_three_over_ten_fast_seconds() {
    let mut policy = Policy::default();
    policy.titleBurstPerMinute = Some(3);
    policy.titleSampleHz = Some(10);
    let mut thr = Throttle::new(0);
    thr.update_from_policy(&policy);
    assert_eq!(thr.capacity, 3);
    assert_eq!(thr.min_interval_ms, 100);
    let mut granted = 0u32;
    let mut denied = 0u32;
    let mut now: u64 = 0;
    while now < 10_000 {
        if thr.permit(now) {
            granted += 1;
        } else {
            denied += 1;
        }
        now += 100;
    }
    assert_eq!(granted, 3);
    assert!(denied >= 7);
}

#[test]
fn minimum_interval_blocks_rapid_emits() {
    let mut thr = Throttle::new(0);
    assert!(thr.permit(1_000));
    assert!(!thr.permit(1_300));
    assert!(thr.permit(1_500));
}

#[test]
fn interval_floor_is_100ms() {
    let mut policy = Policy::default();
    policy.titleSampleHz = Some(1_000);
    let mut thr = Throttle::new(0);
    thr.update_from_policy(&policy);
    assert_eq!(thr.min_interval_ms, 100);
}

#[test]
fn zero_rate_fields_are_lifted_to_one() {
    let mut policy = Policy::default();
    policy.titleBurstPerMinute = Some(0);
    policy.titleSampleHz = Some(0);
    let mut thr = Throttle::new(0);
    thr.update_from_policy(&policy);
    assert_eq!(thr.capacity, 1);
    assert_eq!(thr.min_interval_ms, 1_000);
}

#[test]
fn capacity_shrink_clamps_tokens() {
    let mut policy = Policy::default();
    policy.titleBurstPerMinute = Some(2);
    let mut thr = Throttle::new(0);
    assert_eq!(thr.tokens_units, 600_000);
    thr.update_from_policy(&policy);
    assert_eq!(thr.tokens_units, 120_000);
}

#[test]
fn a_full_minute_refills_the_bucket() {
    let mut thr = Throttle::new(0);
    for i in 0..10u64 {
        assert!(thr.permit(1_000 + i * 500));
    }
    assert!(!thr.permit(6_000));
    assert!(thr.permit(70_000));
    assert_eq!(thr.tokens_units, 540_000);
}

#[test]
fn empty_bucket_denies_until_refill() {
    let mut policy = Policy::default();
    policy.titleBurstPerMinute = Some(1);
    let mut thr = Throttle::new(0);
    thr.update_from_policy(&policy);
    assert!(thr.permit(0));
    assert!(!thr.permit(30_000));
    assert!(thr.permit(60_000));
}
