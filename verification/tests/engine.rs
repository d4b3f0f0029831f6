//! Further checks of the engine on concrete values: laws, edge cases, error
//! texts and the request rules.

use zredict::error::Error;
use zredict::models::{phase_of, Market, MarketStatus, Phase};
use zredict::parimutuel::payouts;
use zredict::requests::{
    account_name, admin_token_ok, clean_outcomes, market_request_ok, resolver_name,
};
use zredict::store::{now, MemStore};
use zredict::text::{decimal_text, make_id, same_text, text_le, trim_text};

fn balances(db: &MemStore, ids: &[&str]) -> u64 {
    ids.iter().map(|id| db.get_user(id).unwrap().balance).sum()
}

fn market(status: MarketStatus, closes_at: Option<u64>, seed: Vec<(String, u64)>) -> Market {
    Market {
        id: "m1".into(),
        question: "q".into(),
        outcomes: vec!["A".into(), "B".into()],
        status,
        closes_at,
        seed,
        winning_outcome: None,
        resolved_by: None,
        resolved_note: None,
        resolved_at: None,
    }
}

#[test]
fn seeded_market_pool_counts_before_any_prediction() {
    let mut db = MemStore::new();
    let m = db.create_market("q", vec!["A".into(), "B".into()], None, 100);
    let v = db.pool_view(&m.id).unwrap();
    assert_eq!(v.total_units, 200);
    assert_eq!(v.total_real_units, 0);
    assert_eq!(v.phase, Phase::Open);
    assert_eq!(v.outcomes.len(), 2);
    for o in &v.outcomes {
        assert_eq!(o.pool_units, 100);
        assert_eq!(o.real_units, 0);
        assert_eq!(o.seed_units, 100);
    }
}

#[test]
fn pool_view_counts_real_and_seed_per_outcome() {
    let mut db = MemStore::new();
    let m = db.create_market("q", vec!["A".into(), "B".into(), "A".into()], None, 5);
    assert_eq!(m.seed.len(), 2); // the repeated outcome is seeded once
    assert_eq!(m.seed_total(), 10);
    let u = db.create_user("u");
    db.predict(&m.id, &u.id, "A", 7).unwrap();
    db.predict(&m.id, &u.id, "B", 3).unwrap();
    db.predict(&m.id, &u.id, "A", 1).unwrap();
    let v = db.pool_view(&m.id).unwrap();
    assert_eq!(v.total_real_units, 11);
    assert_eq!(v.total_units, 21);
    assert_eq!(v.outcomes[0].real_units, 8);
    assert_eq!(v.outcomes[0].pool_units, 13);
    assert_eq!(v.outcomes[1].real_units, 3);
    assert_eq!(v.outcomes[1].pool_units, 8);
    assert_eq!(v.outcomes[2].real_units, 8);
}

#[test]
fn pool_view_of_missing_market_is_an_error() {
    let db = MemStore::new();
    assert!(matches!(db.pool_view("m999999"), Err(Error::MarketNotFound)));
}

#[test]
fn identifiers_are_prefixed_and_padded() {
    let mut db = MemStore::new();
    let u = db.create_user("a");
    let m = db.create_market("q", vec!["A".into(), "B".into()], None, 0);
    let p = db.predict(&m.id, &u.id, "A", 1).unwrap();
    assert_eq!(u.id, "u000001");
    assert_eq!(m.id, "m000002");
    assert_eq!(p.id, "p000003");
    assert_eq!(db.next_serial(), 4);
    assert_eq!(make_id("u", 1234567), "u1234567");
    assert_eq!(make_id("x", 0), "x000000");
}

#[test]
fn decimal_rendering() {
    assert_eq!(decimal_text(0), "0");
    assert_eq!(decimal_text(1000), "1000");
    assert_eq!(decimal_text(u64::MAX), u64::MAX.to_string());
}

#[test]
fn names_and_questions_are_trimmed() {
    let mut db = MemStore::new();
    let u = db.create_user("  alice \n");
    assert_eq!(u.name, "alice");
    assert_eq!(db.get_user(&u.id).unwrap().name, "alice");
    let m = db.create_market("\t Will it rain?  ", vec!["Y".into(), "N".into()], None, 0);
    assert_eq!(m.question, "Will it rain?");
    assert_eq!(trim_text(" x "), "x");
}

#[test]
fn unknown_account_and_market_are_reported() {
    let mut db = MemStore::new();
    let m = db.create_market("q", vec!["A".into(), "B".into()], None, 0);
    let u = db.create_user("u");
    assert!(matches!(db.get_user("u999999"), Err(Error::UserNotFound)));
    assert_eq!(db.predict("m999999", &u.id, "A", 1), Err(Error::MarketNotFound));
    assert_eq!(db.predict(&m.id, "nobody", "A", 1), Err(Error::UserNotFound));
    assert!(matches!(db.resolve("m999999", "A", "c", ""), Err(Error::MarketNotFound)));
    assert!(matches!(db.resolve(&m.id, "Z", "c", ""), Err(Error::UnknownOutcome)));
}

#[test]
fn resolution_is_final() {
    let mut db = MemStore::new();
    let m = db.create_market("q", vec!["A".into(), "B".into()], None, 0);
    let u = db.create_user("u");
    db.predict(&m.id, &u.id, "A", 10).unwrap();
    db.resolve(&m.id, "A", "committee", "first").unwrap();
    assert!(matches!(db.resolve(&m.id, "B", "committee", "again"), Err(Error::MarketResolved)));
    assert_eq!(db.predict(&m.id, &u.id, "B", 1), Err(Error::MarketResolved));
    assert_eq!(db.get_user(&u.id).unwrap().balance, 1000);
}

#[test]
fn resolution_records_the_committee_action() {
    let mut db = MemStore::new();
    let m = db.create_market("q", vec!["A".into(), "B".into()], None, 0);
    db.resolve(&m.id, "B", "alice", "because").unwrap();
    let v = db.pool_view(&m.id).unwrap();
    assert_eq!(v.market.status, MarketStatus::Resolved);
    assert_eq!(v.market.winning_outcome.as_deref(), Some("B"));
    assert_eq!(v.market.resolved_by.as_deref(), Some("alice"));
    assert_eq!(v.market.resolved_note.as_deref(), Some("because"));
    assert!(v.market.resolved_at.is_some());
    assert_eq!(v.phase, Phase::Resolved);
}

#[test]
fn predict_moves_points_without_creating_any() {
    let mut db = MemStore::new();
    let m = db.create_market("q", vec!["A".into(), "B".into()], None, 0);
    let a = db.create_user("a");
    let b = db.create_user("b");
    assert_eq!(db.points_in_play(), 2000);
    db.predict(&m.id, &a.id, "A", 300).unwrap();
    db.predict(&m.id, &b.id, "B", 100).unwrap();
    assert_eq!(db.points_in_play(), 2000);
    assert_eq!(balances(&db, &[&a.id, &b.id]), 1600);
}

#[test]
fn payouts_leave_only_dust_in_the_house() {
    let mut db = MemStore::new();
    let m = db.create_market("q", vec!["A".into(), "B".into()], None, 0);
    let a = db.create_user("a");
    let b = db.create_user("b");
    let c = db.create_user("c");
    let d = db.create_user("d");
    db.predict(&m.id, &a.id, "A", 1).unwrap();
    db.predict(&m.id, &b.id, "A", 1).unwrap();
    db.predict(&m.id, &c.id, "A", 1).unwrap();
    db.predict(&m.id, &d.id, "B", 7).unwrap();
    let r = db.resolve(&m.id, "A", "committee", "").unwrap();
    assert_eq!(r.total_pool, 10);
    let paid: u64 = r.payouts.iter().map(|(_, x)| *x).sum();
    assert_eq!(paid, 9); // 10/3 floored, three times
    assert!(r.total_pool - paid < 3);
    assert_eq!(db.points_in_play(), 4000 - 1);
    // Each winner got back more than it staked.
    for (_, x) in &r.payouts {
        assert!(*x >= 1);
    }
}

#[test]
fn seed_points_enter_play_and_leave_on_refund() {
    let mut db = MemStore::new();
    let u = db.create_user("u");
    let m = db.create_market("q", vec!["A".into(), "B".into()], None, 50);
    assert_eq!(db.points_in_play(), 1100);
    db.predict(&m.id, &u.id, "A", 20).unwrap();
    let r = db.resolve(&m.id, "B", "committee", "").unwrap();
    assert!(r.refunded);
    assert_eq!(r.total_pool, 20);
    assert_eq!(r.payouts, vec![(u.id.clone(), 20)]);
    assert_eq!(db.points_in_play(), 1000);
}

#[test]
fn refund_credits_every_stake_in_order() {
    let mut db = MemStore::new();
    let m = db.create_market("q", vec!["A".into(), "B".into(), "C".into()], None, 0);
    let a = db.create_user("a");
    let b = db.create_user("b");
    db.predict(&m.id, &a.id, "A", 5).unwrap();
    db.predict(&m.id, &b.id, "B", 6).unwrap();
    db.predict(&m.id, &a.id, "B", 7).unwrap();
    let r = db.resolve(&m.id, "C", "committee", "").unwrap();
    assert!(r.refunded);
    assert_eq!(r.winning_units, 0);
    assert_eq!(
        r.payouts,
        vec![(a.id.clone(), 5), (b.id.clone(), 6), (a.id.clone(), 7)]
    );
    assert_eq!(db.get_user(&a.id).unwrap().balance, 1000);
    assert_eq!(db.get_user(&b.id).unwrap().balance, 1000);
}

#[test]
fn payouts_floor_each_share() {
    let (wu, p) = payouts(10, &[("a".into(), 1), ("b".into(), 1), ("c".into(), 1)]);
    assert_eq!(wu, 3);
    assert_eq!(p, vec![("a".to_string(), 3), ("b".to_string(), 3), ("c".to_string(), 3)]);
    let (wu, p) = payouts(7, &[("a".into(), 0)]);
    assert_eq!(wu, 0);
    assert!(p.is_empty());
    let (_, p) = payouts(u64::MAX, &[("a".into(), u64::MAX)]);
    assert_eq!(p, vec![("a".to_string(), u64::MAX)]);
}

#[test]
fn positions_of_a_user_in_order() {
    let mut db = MemStore::new();
    let m = db.create_market("q", vec!["A".into(), "B".into()], None, 0);
    let a = db.create_user("a");
    let b = db.create_user("b");
    db.predict(&m.id, &a.id, "A", 1).unwrap();
    db.predict(&m.id, &b.id, "A", 2).unwrap();
    db.predict(&m.id, &a.id, "B", 3).unwrap();
    let ps = db.positions_of_user(&a.id);
    assert_eq!(ps.len(), 2);
    assert_eq!((ps[0].units, ps[0].outcome.as_str()), (1, "A"));
    assert_eq!((ps[1].units, ps[1].outcome.as_str()), (3, "B"));
    assert!(db.positions_of_user("nobody").is_empty());
}

#[test]
fn markets_listed_by_phase_then_question() {
    let mut db = MemStore::new();
    let t = now();
    let r = db.create_market("b resolved", vec!["A".into(), "B".into()], None, 0);
    db.create_market("c open", vec!["A".into(), "B".into()], None, 0);
    db.create_market("z closed", vec!["A".into(), "B".into()], Some(t - 10), 0);
    db.create_market("a open", vec!["A".into(), "B".into()], Some(t + 3600), 0);
    db.resolve(&r.id, "A", "committee", "").unwrap();
    let qs: Vec<String> = db.list_markets().into_iter().map(|m| m.question).collect();
    assert_eq!(qs, vec!["a open", "c open", "z closed", "b resolved"]);
    let at: Vec<String> = db.list_markets_at(t - 100).into_iter().map(|m| m.question).collect();
    assert_eq!(at, vec!["a open", "c open", "z closed", "b resolved"]);
    let later: Vec<String> =
        db.list_markets_at(t + 7200).into_iter().map(|m| m.question).collect();
    assert_eq!(later, vec!["c open", "a open", "z closed", "b resolved"]);
}

#[test]
fn predict_and_resolve_at_a_given_time() {
    let mut db = MemStore::new();
    let m = db.create_market("q", vec!["A".into(), "B".into()], Some(100), 0);
    let u = db.create_user("u");
    assert!(db.predict_at(&m.id, &u.id, "A", 5, 99).is_ok());
    assert_eq!(db.predict_at(&m.id, &u.id, "A", 5, 100), Err(Error::PredictionsClosed));
    assert!(matches!(db.resolve_at(&m.id, "A", "c", "", 99), Err(Error::TooEarlyToResolve)));
    let r = db.resolve_at(&m.id, "A", "c", "", 100).unwrap();
    assert_eq!(r.payouts, vec![(u.id.clone(), 5)]);
    assert_eq!(db.pool_view_at(&m.id, 100).unwrap().market.resolved_at, Some(100));
}

#[test]
fn phase_follows_status_and_clock() {
    assert_eq!(phase_of(&market(MarketStatus::Open, None, vec![]), 5), Phase::Open);
    assert_eq!(phase_of(&market(MarketStatus::Open, Some(10), vec![]), 9), Phase::Open);
    assert_eq!(phase_of(&market(MarketStatus::Open, Some(10), vec![]), 10), Phase::Closed);
    assert_eq!(phase_of(&market(MarketStatus::Resolved, Some(10), vec![]), 1), Phase::Resolved);
}

#[test]
fn seed_lookup_and_total() {
    let m = market(MarketStatus::Open, None, vec![("A".into(), 4), ("B".into(), 6)]);
    assert_eq!(m.seed_total(), 10);
    assert_eq!(m.seed_of("A"), 4);
    assert_eq!(m.seed_of("B"), 6);
    assert_eq!(m.seed_of("C"), 0);
    assert_eq!(market(MarketStatus::Open, None, vec![]).seed_total(), 0);
}

#[test]
fn error_messages_and_status_codes() {
    assert_eq!(
        Error::InsufficientBalance { have: 1000, need: 5000 }.message(),
        "not enough points: you have 1000, this needs 5000"
    );
    assert_eq!(Error::ZeroUnits.message(), "stake at least 1 point");
    assert_eq!(
        Error::MarketResolved.message(),
        "this market is resolved — it's settled and closed"
    );
    assert_eq!(Error::UserNotFound.message(), "that account doesn't exist");
    assert_eq!(Error::UserNotFound.http_status(), 404);
    assert_eq!(Error::MarketNotFound.http_status(), 404);
    assert_eq!(Error::TooEarlyToResolve.http_status(), 400);
    assert_eq!(Error::InsufficientBalance { have: 1, need: 2 }.http_status(), 400);
}

#[test]
fn request_rules() {
    assert_eq!(account_name("  ".into()), "anon");
    assert_eq!(account_name(" bob ".into()), " bob ");
    assert_eq!(resolver_name("".into()), "committee");
    assert_eq!(resolver_name("carol".into()), "carol");
    let cleaned = clean_outcomes(&vec![" YES ".into(), "   ".into(), "NO".into()]);
    assert_eq!(cleaned, vec!["YES".to_string(), "NO".to_string()]);
    assert!(market_request_ok("q?", &cleaned));
    assert!(!market_request_ok("  ", &cleaned));
    assert!(!market_request_ok("q?", &vec!["YES".into()]));
    assert!(admin_token_ok(Some("committee-dev-token")));
    assert!(!admin_token_ok(Some("guess")));
    assert!(!admin_token_ok(None));
}

#[test]
fn text_comparison() {
    assert!(same_text("abc", "abc"));
    assert!(!same_text("abc", "abd"));
    assert!(text_le("abc", "abd"));
    assert!(text_le("ab", "abc"));
    assert!(!text_le("b", "abc"));
    assert!(text_le("", ""));
    assert!(text_le("Z", "a"));
}

#[test]
fn clock_reads_after_the_epoch() {
    assert!(now() > 1_600_000_000);
}

#[test]
fn distinct_errors_have_distinct_messages() {
    let errs = vec![
        Error::UserNotFound,
        Error::MarketNotFound,
        Error::MarketResolved,
        Error::PredictionsClosed,
        Error::TooEarlyToResolve,
        Error::UnknownOutcome,
        Error::ZeroUnits,
        Error::InsufficientBalance { have: 1, need: 23 },
        Error::InsufficientBalance { have: 12, need: 3 },
    ];
    for (i, a) in errs.iter().enumerate() {
        for (j, b) in errs.iter().enumerate() {
            assert_eq!(i == j, a.message() == b.message());
        }
    }
}

#[test]
fn trimming_drops_unicode_white_space() {
    let mut db = MemStore::new();
    let u = db.create_user("\u{3000}\u{85}zoe\u{2009}\t");
    assert_eq!(u.name, "zoe");
    assert_eq!(trim_text("\u{a0}a b\u{202f}"), "a b");
    assert_eq!(trim_text("x\u{200b}"), "x\u{200b}"); // zero-width space is not white space
}

#[test]
fn resolution_credits_each_account_its_listed_amounts() {
    let mut db = MemStore::new();
    let m = db.create_market("q", vec!["A".into(), "B".into()], None, 10);
    let a = db.create_user("a");
    let b = db.create_user("b");
    let c = db.create_user("c");
    db.predict(&m.id, &a.id, "A", 10).unwrap();
    db.predict(&m.id, &a.id, "A", 20).unwrap();
    db.predict(&m.id, &b.id, "A", 30).unwrap();
    db.predict(&m.id, &c.id, "B", 40).unwrap();
    let r = db.resolve(&m.id, "A", "committee", "").unwrap();
    // Pool = 100 real + 20 seed; winners hold 60 units.
    assert_eq!(r.total_pool, 120);
    assert_eq!(
        r.payouts,
        vec![(a.id.clone(), 20), (a.id.clone(), 40), (b.id.clone(), 60)]
    );
    assert_eq!(db.get_user(&a.id).unwrap().balance, 970 + 60);
    assert_eq!(db.get_user(&b.id).unwrap().balance, 970 + 60);
    assert_eq!(db.get_user(&c.id).unwrap().balance, 960);
    assert_eq!(db.positions_of_user(&a.id).len(), 2);
}
