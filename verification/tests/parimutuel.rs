use zredict::parimutuel::payouts;

#[test]
fn splits_pool_pro_rata() {
    // Pool of 3 (2 on the winner, 1 on the loser). Winner takes the whole 3.
    let (wu, p) = payouts(3, &[("alice".into(), 2)]);
    assert_eq!(wu, 2);
    assert_eq!(p, vec![("alice".to_string(), 3)]);
}

#[test]
fn two_winners_share_proportionally() {
    // Pool 100; winners staked 30 and 10 (40 total); losers staked 60.
    // Per-unit payout = 100/40 = 2.5 → 30*2.5=75, 10*2.5=25.
    let (wu, p) = payouts(100, &[("a".into(), 30), ("b".into(), 10)]);
    assert_eq!(wu, 40);
    assert_eq!(p, vec![("a".to_string(), 75), ("b".to_string(), 25)]);
}

#[test]
fn no_winners_returns_empty() {
    let (wu, p) = payouts(50, &[]);
    assert_eq!(wu, 0);
    assert!(p.is_empty());
}
