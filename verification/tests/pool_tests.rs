use ordering_regret::market_math::ConstantProductPool;

#[test]
fn swap_scenario_symmetric_million_pool() {
    let mut p = ConstantProductPool::new(1_000_000, 1_000_000);
    assert_eq!(p.k, 1_000_000_000_000u128);
    let out = p.swap_base_for_quote(100_000);
    assert_eq!(p.reserve_base, 1_100_000);
    assert_eq!(p.reserve_quote, 909_090);
    assert_eq!(out, 90_910);
}

#[test]
fn swap_sequence_preserves_product_bound() {
    let mut p = ConstantProductPool::new(1_000_000_000, 1_000_000_000);
    let k = p.k;
    for a in [1u64, 10, 1_000, 50_000, 123_456_789, 1] {
        p.swap_base_for_quote(a);
        let product = (p.reserve_base as u128) * (p.reserve_quote as u128);
        assert!(product <= k);
        assert_eq!(p.k, k);
    }
}

#[test]
fn quote_reserve_only_drains() {
    let mut p = ConstantProductPool::new(1_000_000_000, 1_000_000_000);
    let mut last_quote = p.reserve_quote;
    for a in [5u64, 500, 50_000, 5_000_000] {
        p.swap_base_for_quote(a);
        assert!(p.reserve_quote <= last_quote);
        last_quote = p.reserve_quote;
    }
}

#[test]
fn checked_swap_refuses_base_overflow() {
    let mut p = ConstantProductPool::new(1_000_000, 2_000_000);
    let r = p.checked_swap_base_for_quote(u64::MAX);
    assert!(r.is_none());
    assert_eq!(p.reserve_base, 1_000_000);
    assert_eq!(p.reserve_quote, 2_000_000);
}

#[test]
fn checked_swap_matches_plain_swap_in_range() {
    let mut p1 = ConstantProductPool::new(1_000_000, 1_000_000);
    let mut p2 = ConstantProductPool::new(1_000_000, 1_000_000);
    let out1 = p1.swap_base_for_quote(100_000);
    let out2 = p2.checked_swap_base_for_quote(100_000);
    assert_eq!(out2, Some(out1));
    assert_eq!(p1.reserve_base, p2.reserve_base);
    assert_eq!(p1.reserve_quote, p2.reserve_quote);
}
