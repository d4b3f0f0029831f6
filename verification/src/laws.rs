//! Laws of the store: what every operation keeps, how it moves points, and
//! what a resolution settles for good.

use vstd::prelude::*;

use crate::accounting::{
    lemma_balance_le_total, lemma_count_once,
    lemma_seed_lookup_absent, lemma_seed_lookup_le, lemma_sum_over_add, lemma_sum_over_point,
    no_repeats, sum_over,
    lemma_apply_credits, lemma_balance_total_push, lemma_balance_total_update, lemma_live_seed_le,
    lemma_market_index_unique, lemma_market_stake_le_open, lemma_no_stakes, lemma_open_seed_push,
    lemma_open_seed_update, lemma_open_stake_close, lemma_open_stake_frame, lemma_open_stake_push,
    lemma_outcome_holders, lemma_outcome_stake_le, lemma_same_market_ids, lemma_same_user_ids, lemma_stake_holders,
};
use crate::error::Error;
use crate::ledger::{
    after_open_market, after_predict, after_register, after_resolve, apply_credits,
    balance_total, empty_store, pool_of, unique_user_ids,
    has_market, has_position, outcome_stake, distinct, distinct_keys,
    has_user, live_seed, market_index, market_open, market_stake, new_market, outcome_stakes,
    placed_position, points_in_play, predict_failure, resolve_failure, resolved_market,
    seed_entries, settlement, stakes_of, user_index, well_formed, StoreModel, STARTING_BALANCE,
};
use crate::models::{phase_at, seed_lookup, MarketModel, MarketStatus, Phase, PositionModel, UserModel};
use crate::parimutuel::{law_payouts_within_pool, total_of};
use crate::ledger::{listed_before, listing_sorted};
use crate::text::{id_text, lemma_bytes_le_total, lemma_bytes_le_transitive, lemma_id_text_injective};

verus! {

/// Law: a new store is well formed and holds no points.
pub proof fn law_new_store()
    ensures
        well_formed(empty_store()),
        points_in_play(empty_store()) == 0,
{
    let s = empty_store();
    assert(!has_user(s.users, id_text("u"@, 0)));
}

/// Law: registering an account keeps the store well formed and brings exactly
/// the starting balance into play.
pub proof fn law_register(s: StoreModel, name: Seq<char>)
    requires
        well_formed(s),
        points_in_play(s) + STARTING_BALANCE <= u64::MAX,
    ensures
        well_formed(after_register(s, name)),
        points_in_play(after_register(s, name)) == points_in_play(s) + STARTING_BALANCE,
{
    let t = after_register(s, name);
    let u = t.users.last();
    lemma_balance_total_push(s.users, u);
    assert forall|i: int, j: int|
        0 <= i < j < t.users.len() implies #[trigger] t.users[i].id != #[trigger] t.users[j].id by {
        if j == s.users.len() {
            assert(s.users[i].id == t.users[i].id);
            if s.users[i].id == id_text("u"@, s.next_id) {
                assert(has_user(s.users, id_text("u"@, s.next_id)));
            }
        } else {
            assert(t.users[i] == s.users[i] && t.users[j] == s.users[j]);
        }
    }
    assert forall|k: nat| k >= t.next_id implies !has_user(t.users, #[trigger] id_text("u"@, k)) by {
        if has_user(t.users, id_text("u"@, k)) {
            let w: int = choose|w: int| 0 <= w < t.users.len() && t.users[w].id == id_text("u"@, k);
            if w < s.users.len() {
                assert(s.users[w] == t.users[w]);
                assert(has_user(s.users, id_text("u"@, k)));
            } else {
                lemma_id_text_injective("u"@, k, s.next_id);
            }
        }
    }
    assert forall|i: int| #![trigger t.positions[i]] 0 <= i < t.positions.len() implies {
        &&& t.positions[i].units > 0
        &&& has_user(t.users, t.positions[i].user_id)
        &&& has_market(t.markets, t.positions[i].market_id)
    } by {
        assert(has_user(s.users, s.positions[i].user_id));
        let w: int = choose|w: int| 0 <= w < s.users.len() && s.users[w].id == s.positions[i].user_id;
        assert(t.users[w] == s.users[w]);
    }
}

/// The outcomes without repeats hold no repeats.
pub proof fn lemma_distinct_has_no_repeats(s: Seq<Seq<char>>)
    ensures
        forall|i: int, j: int|
            0 <= i < j < distinct(s).len() ==> #[trigger] distinct(s)[i] != #[trigger] distinct(
                s,
            )[j],
    decreases s.len(),
{
    if s.len() > 0 {
        lemma_distinct_has_no_repeats(s.drop_last());
        let d = distinct(s.drop_last());
        if !d.contains(s.last()) {
            assert forall|i: int, j: int|
                0 <= i < j < distinct(s).len() implies #[trigger] distinct(s)[i]
                != #[trigger] distinct(s)[j] by {
                if j == d.len() {
                    assert(distinct(s)[i] == d[i]);
                    if d[i] == s.last() {
                        assert(d.contains(s.last()));
                    }
                } else {
                    assert(distinct(s)[i] == d[i] && distinct(s)[j] == d[j]);
                }
            }
        }
    }
}

/// Law: the house seed of a new market names each outcome at most once.
pub proof fn law_seed_entries_distinct(outcomes: Seq<Seq<char>>, seed: u64)
    ensures
        distinct_keys(seed_entries(outcomes, seed)),
{
    lemma_distinct_has_no_repeats(outcomes);
    let e = seed_entries(outcomes, seed);
    if seed != 0 {
        assert forall|i: int, j: int| 0 <= i < j < e.len() implies #[trigger] e[i].0
            != #[trigger] e[j].0 by {
            assert(e[i].0 == distinct(outcomes)[i]);
            assert(e[j].0 == distinct(outcomes)[j]);
        }
    }
}

/// Law: an account just registered is found under its new identifier, with
/// the name it was registered under and the starting balance.
pub proof fn law_registered_account_found(s: StoreModel, name: Seq<char>)
    requires
        well_formed(s),
    ensures
        has_user(after_register(s, name).users, id_text("u"@, s.next_id)),
        after_register(s, name).users[user_index(
            after_register(s, name).users,
            id_text("u"@, s.next_id),
        )] == (UserModel { id: id_text("u"@, s.next_id), name, balance: STARTING_BALANCE }),
{
    let t = after_register(s, name);
    let id = id_text("u"@, s.next_id);
    let i: int = s.users.len() as int;
    assert(t.users[i].id == id);
    assert(has_user(t.users, id));
    let k: int = user_index(t.users, id);
    if k != i {
        assert(t.users[k] == s.users[k]);
        assert(has_user(s.users, id));
    }
}

/// Law: opening a market keeps the store well formed and brings exactly its
/// house seed into play.
pub proof fn law_open_market(
    s: StoreModel,
    question: Seq<char>,
    outcomes: Seq<Seq<char>>,
    closes_at: Option<u64>,
    seed: u64,
)
    requires
        well_formed(s),
        points_in_play(s) + total_of(seed_entries(outcomes, seed)) <= u64::MAX,
    ensures
        well_formed(after_open_market(s, question, outcomes, closes_at, seed)),
        points_in_play(after_open_market(s, question, outcomes, closes_at, seed)) == points_in_play(
            s,
        ) + total_of(seed_entries(outcomes, seed)),
{
    let t = after_open_market(s, question, outcomes, closes_at, seed);
    let m = new_market(s, question, outcomes, closes_at, seed);
    let nid = m.id;
    law_seed_entries_distinct(outcomes, seed);
    assert forall|i: int| #![trigger t.markets[i]] 0 <= i < t.markets.len() implies distinct_keys(
        t.markets[i].seed,
    ) by {
        if i < s.markets.len() {
            assert(t.markets[i] == s.markets[i]);
        }
    }
    lemma_open_seed_push(s.markets, m);
    assert(!has_market(s.markets, nid));
    // No position refers to the new market.
    assert forall|j: int| 0 <= j < s.positions.len() implies #[trigger] s.positions[j].market_id
        != nid by {
        assert(has_market(s.markets, s.positions[j].market_id));
    }
    assert forall|j: int| 0 <= j < s.positions.len() implies market_open(
        s.markets,
        #[trigger] s.positions[j].market_id,
    ) == market_open(t.markets, s.positions[j].market_id) by {
        let id = s.positions[j].market_id;
        if market_open(s.markets, id) {
            let k: int = choose|k: int|
                0 <= k < s.markets.len() && s.markets[k].id == id && s.markets[k].status
                    == MarketStatus::Open;
            assert(t.markets[k] == s.markets[k]);
        }
        if market_open(t.markets, id) {
            let k: int = choose|k: int|
                0 <= k < t.markets.len() && t.markets[k].id == id && t.markets[k].status
                    == MarketStatus::Open;
            assert(k < s.markets.len());
            assert(t.markets[k] == s.markets[k]);
        }
    }
    lemma_open_stake_frame(s.positions, s.markets, t.markets);
    assert forall|i: int, j: int|
        0 <= i < j < t.markets.len() implies #[trigger] t.markets[i].id != #[trigger] t.markets[j].id by {
        if j == s.markets.len() {
            assert(s.markets[i].id == t.markets[i].id);
            if s.markets[i].id == nid {
                assert(has_market(s.markets, nid));
            }
        } else {
            assert(t.markets[i] == s.markets[i] && t.markets[j] == s.markets[j]);
        }
    }
    assert forall|k: nat| k >= t.next_id implies !has_market(t.markets, #[trigger] id_text("m"@, k)) by {
        if has_market(t.markets, id_text("m"@, k)) {
            let w: int = choose|w: int| 0 <= w < t.markets.len() && t.markets[w].id == id_text("m"@, k);
            if w < s.markets.len() {
                assert(s.markets[w] == t.markets[w]);
                assert(has_market(s.markets, id_text("m"@, k)));
            } else {
                lemma_id_text_injective("m"@, k, s.next_id);
            }
        }
    }
    assert forall|i: int| #![trigger t.positions[i]] 0 <= i < t.positions.len() implies {
        &&& t.positions[i].units > 0
        &&& has_user(t.users, t.positions[i].user_id)
        &&& has_market(t.markets, t.positions[i].market_id)
    } by {
        assert(has_market(s.markets, s.positions[i].market_id));
        let w: int = choose|w: int|
            0 <= w < s.markets.len() && s.markets[w].id == s.positions[i].market_id;
        assert(t.markets[w] == s.markets[w]);
    }
    assert forall|i: int| 0 <= i < t.markets.len() implies market_stake(
        t.positions,
        #[trigger] t.markets[i].id,
    ) + total_of(t.markets[i].seed) <= u64::MAX by {
        if i == s.markets.len() {
            lemma_no_stakes(s.positions, nid);
            assert(live_seed(m) == total_of(m.seed));
        } else {
            assert(t.markets[i] == s.markets[i]);
        }
    }
}

/// Law: an accepted prediction keeps the store well formed and moves points
/// from the account into the pool without creating or destroying any.
pub proof fn law_predict(
    s: StoreModel,
    mid: Seq<char>,
    uid: Seq<char>,
    outcome: Seq<char>,
    units: u64,
    now: u64,
)
    requires
        well_formed(s),
        predict_failure(s, mid, uid, outcome, units, now) is None,
    ensures
        well_formed(after_predict(s, mid, uid, outcome, units)),
        points_in_play(after_predict(s, mid, uid, outcome, units)) == points_in_play(s),
        !has_position(s.positions, placed_position(s, mid, uid, outcome, units).id),
{
    let t = after_predict(s, mid, uid, outcome, units);
    let ui: int = user_index(s.users, uid);
    let mi: int = market_index(s.markets, mid);
    let p = placed_position(s, mid, uid, outcome, units);
    assert(has_user(s.users, uid));
    assert(has_market(s.markets, mid));
    assert(s.markets[mi].status == MarketStatus::Open);
    assert(market_open(s.markets, mid));
    lemma_balance_total_update(s.users, ui, t.users[ui]);
    lemma_open_stake_push(s.positions, p, s.markets);
    lemma_same_user_ids(s.users, t.users);
    assert forall|i: int, j: int|
        0 <= i < j < t.users.len() implies #[trigger] t.users[i].id != #[trigger] t.users[j].id by {
        assert(t.users[i].id == s.users[i].id && t.users[j].id == s.users[j].id);
    }
    assert forall|k: nat| k >= t.next_id implies !has_user(t.users, #[trigger] id_text("u"@, k)) by {
        assert(!has_user(s.users, id_text("u"@, k)));
    }
    assert forall|k: nat| k >= t.next_id implies !has_market(t.markets, #[trigger] id_text("m"@, k)) by {
        assert(!has_market(s.markets, id_text("m"@, k)));
    }
    assert(!has_position(s.positions, id_text("p"@, s.next_id)));
    assert forall|k: nat| k >= t.next_id implies !has_position(
        t.positions,
        #[trigger] id_text("p"@, k),
    ) by {
        assert(!has_position(s.positions, id_text("p"@, k)));
        if has_position(t.positions, id_text("p"@, k)) {
            let w: int = choose|w: int|
                0 <= w < t.positions.len() && t.positions[w].id == id_text("p"@, k);
            if w < s.positions.len() {
                assert(t.positions[w] == s.positions[w]);
            } else {
                lemma_id_text_injective("p"@, k, s.next_id);
            }
        }
    }
    assert forall|i: int| #![trigger t.positions[i]] 0 <= i < t.positions.len() implies {
        &&& t.positions[i].units > 0
        &&& has_user(t.users, t.positions[i].user_id)
        &&& has_market(t.markets, t.positions[i].market_id)
        &&& t.markets[market_index(t.markets, t.positions[i].market_id)].outcomes.contains(
            t.positions[i].outcome,
        )
    } by {
        if i < s.positions.len() {
            assert(t.positions[i] == s.positions[i]);
            assert(has_user(s.users, s.positions[i].user_id));
        } else {
            assert(t.positions[i] == p);
        }
    }
    assert forall|i: int| 0 <= i < t.markets.len() implies market_stake(
        t.positions,
        #[trigger] t.markets[i].id,
    ) + total_of(t.markets[i].seed) <= u64::MAX by {
        let id = t.markets[i].id;
        assert(t.positions.drop_last() =~= s.positions);
        if id == mid {
            lemma_market_index_unique(s.markets, mid, i);
            lemma_market_stake_le_open(t.positions, t.markets, mid);
            lemma_live_seed_le(t.markets, i);
        } else {
            assert(stakes_of(t.positions, id) == stakes_of(s.positions, id));
        }
    }
}

/// What a resolution credits: accounts that exist, at most the market's
/// pool, which itself fits beside the balances within the points in play.
pub proof fn lemma_settlement_fits(s: StoreModel, mid: Seq<char>, outcome: Seq<char>, now: u64)
    requires
        well_formed(s),
        resolve_failure(s, mid, outcome, now) is None,
    ensures
        forall|k: int|
            0 <= k < settlement(s, mid, outcome).payouts.len() ==> has_user(
                s.users,
                #[trigger] settlement(s, mid, outcome).payouts[k].0,
            ),
        total_of(settlement(s, mid, outcome).payouts) <= market_stake(s.positions, mid) + total_of(
            s.markets[market_index(s.markets, mid)].seed,
        ),
        balance_total(s.users) + market_stake(s.positions, mid) + total_of(
            s.markets[market_index(s.markets, mid)].seed,
        ) <= points_in_play(s),
        outcome_stake(s.positions, mid, outcome) <= market_stake(s.positions, mid),
        market_open(s.markets, mid),
{
    let mi: int = market_index(s.markets, mid);
    let m = s.markets[mi];
    let cs = settlement(s, mid, outcome).payouts;
    let stake: nat = market_stake(s.positions, mid);
    let seed: nat = total_of(m.seed);
    let ws = outcome_stakes(s.positions, mid, outcome);
    assert(has_market(s.markets, mid));
    assert(m.status == MarketStatus::Open);
    assert(market_open(s.markets, mid));
    assert(stake + seed <= u64::MAX);
    assert forall|j: int| 0 <= j < s.positions.len() implies has_user(
        s.users,
        #[trigger] s.positions[j].user_id,
    ) by {}
    lemma_stake_holders(s.positions, mid, s.users);
    lemma_outcome_holders(s.positions, mid, outcome, s.users);
    if ws.len() == 0 {
        assert(cs == stakes_of(s.positions, mid));
    } else if total_of(ws) == 0 {
        assert(cs.len() == 0);
    } else {
        law_payouts_within_pool(stake + seed, ws);
        assert forall|k: int| 0 <= k < cs.len() implies has_user(s.users, #[trigger] cs[k].0) by {
            assert(cs[k].0 == ws[k].0);
        }
    }
    lemma_market_stake_le_open(s.positions, s.markets, mid);
    lemma_live_seed_le(s.markets, mi);
    lemma_outcome_stake_le(s.positions, mid, outcome);
}

/// Law: an accepted resolution keeps the store well formed; the market's
/// whole pool (real stake and house seed) leaves play and exactly the credited
/// payouts come back into balances. The payouts never exceed the pool, and a
/// refund pays back exactly the real stake, so the seed is forfeited.
pub proof fn law_resolve(
    s: StoreModel,
    mid: Seq<char>,
    outcome: Seq<char>,
    by: Seq<char>,
    note: Seq<char>,
    now: u64,
)
    requires
        well_formed(s),
        resolve_failure(s, mid, outcome, now) is None,
    ensures
        well_formed(after_resolve(s, mid, outcome, by, note, now)),
        points_in_play(after_resolve(s, mid, outcome, by, note, now)) + market_stake(
            s.positions,
            mid,
        ) + total_of(s.markets[market_index(s.markets, mid)].seed) == points_in_play(s)
            + total_of(settlement(s, mid, outcome).payouts),
        total_of(settlement(s, mid, outcome).payouts) <= settlement(s, mid, outcome).total_pool,
        settlement(s, mid, outcome).refunded ==> total_of(settlement(s, mid, outcome).payouts)
            == market_stake(s.positions, mid),
{
    let t = after_resolve(s, mid, outcome, by, note, now);
    let mi: int = market_index(s.markets, mid);
    let m = s.markets[mi];
    let r = settlement(s, mid, outcome);
    let cs = r.payouts;
    lemma_settlement_fits(s, mid, outcome, now);
    assert(has_market(s.markets, mid));
    lemma_apply_credits(s.users, cs);
    lemma_same_user_ids(s.users, t.users);
    // The market list keeps its identifiers.
    let m2 = resolved_market(m, outcome, by, note, now);
    assert forall|i: int| 0 <= i < s.markets.len() implies (#[trigger] t.markets[i]).id
        == s.markets[i].id by {}
    lemma_same_market_ids(s.markets, t.markets);
    lemma_open_stake_close(s.positions, s.markets, mi, m2);
    lemma_open_seed_update(s.markets, mi, m2);
    assert forall|i: int| #![trigger t.markets[i]] 0 <= i < t.markets.len() implies distinct_keys(
        t.markets[i].seed,
    ) by {
        assert(t.markets[i].seed == s.markets[i].seed);
    }
    assert forall|i: int, j: int|
        0 <= i < j < t.users.len() implies #[trigger] t.users[i].id != #[trigger] t.users[j].id by {
        assert(t.users[i].id == s.users[i].id && t.users[j].id == s.users[j].id);
    }
    assert forall|i: int, j: int|
        0 <= i < j < t.markets.len() implies #[trigger] t.markets[i].id != #[trigger] t.markets[j].id by {
        assert(t.markets[i].id == s.markets[i].id && t.markets[j].id == s.markets[j].id);
    }
    assert forall|k: nat| k >= t.next_id implies !has_user(t.users, #[trigger] id_text("u"@, k)) by {
        assert(!has_user(s.users, id_text("u"@, k)));
    }
    assert forall|k: nat| k >= t.next_id implies !has_market(t.markets, #[trigger] id_text("m"@, k)) by {
        assert(!has_market(s.markets, id_text("m"@, k)));
    }
    assert forall|i: int| #![trigger t.positions[i]] 0 <= i < t.positions.len() implies {
        &&& t.positions[i].units > 0
        &&& has_user(t.users, t.positions[i].user_id)
        &&& has_market(t.markets, t.positions[i].market_id)
    } by {
        assert(has_user(s.users, s.positions[i].user_id));
        assert(has_market(s.markets, s.positions[i].market_id));
    }
    assert forall|i: int| 0 <= i < t.markets.len() implies market_stake(
        t.positions,
        #[trigger] t.markets[i].id,
    ) + total_of(t.markets[i].seed) <= u64::MAX by {
        if i != mi {
            assert(t.markets[i] == s.markets[i]);
        }
    }
}

/// Every outcome kept without repeats is one of the outcomes.
pub proof fn lemma_distinct_listed(s: Seq<Seq<char>>)
    ensures
        forall|i: int| 0 <= i < distinct(s).len() ==> s.contains(#[trigger] distinct(s)[i]),
    decreases s.len(),
{
    if s.len() > 0 {
        let rest = s.drop_last();
        lemma_distinct_listed(rest);
        let d = distinct(rest);
        assert forall|i: int| 0 <= i < distinct(s).len() implies s.contains(
            #[trigger] distinct(s)[i],
        ) by {
            if i < d.len() {
                assert(distinct(s)[i] == d[i]);
                assert(rest.contains(d[i]));
                let j: int = choose|j: int| 0 <= j < rest.len() && rest[j] == d[i];
                assert(s[j] == d[i]);
            } else {
                assert(distinct(s)[i] == s.last());
                assert(s[s.len() - 1] == s.last());
            }
        }
    }
}

/// Law: the house seed of a new market is only on listed outcomes.
pub proof fn law_seed_entries_listed(outcomes: Seq<Seq<char>>, seed: u64)
    ensures
        forall|i: int|
            0 <= i < seed_entries(outcomes, seed).len() ==> outcomes.contains(
                #[trigger] seed_entries(outcomes, seed)[i].0,
            ),
{
    lemma_distinct_listed(outcomes);
    if seed != 0 {
        assert forall|i: int| 0 <= i < seed_entries(outcomes, seed).len() implies outcomes.contains(
            #[trigger] seed_entries(outcomes, seed)[i].0,
        ) by {
            assert(seed_entries(outcomes, seed)[i].0 == distinct(outcomes)[i]);
        }
    }
}

/// Law: when a market lists no outcome twice and seeds only listed outcomes,
/// once each, the seed on each outcome adds up to the market's total seed.
pub proof fn law_seed_shares_add_up(seed: Seq<(Seq<char>, u64)>, outcomes: Seq<Seq<char>>)
    requires
        no_repeats(outcomes),
        distinct_keys(seed),
        forall|i: int| 0 <= i < seed.len() ==> outcomes.contains(#[trigger] seed[i].0),
    ensures
        sum_over(outcomes, |o: Seq<char>| seed_lookup(seed, o) as nat) == total_of(seed),
    decreases seed.len(),
{
    let f = |o: Seq<char>| seed_lookup(seed, o) as nat;
    if seed.len() == 0 {
        assert forall|o: Seq<char>| #[trigger] f(o) == (if o == Seq::<char>::empty() {
            0nat
        } else {
            0nat
        }) by {}
        lemma_sum_over_point(outcomes, f, Seq::<char>::empty(), 0);
    } else {
        let e = seed[0];
        let rest = seed.drop_first();
        assert(distinct_keys(rest)) by {
            assert forall|i: int, j: int| 0 <= i < j < rest.len() implies #[trigger] rest[i].0
                != #[trigger] rest[j].0 by {
                assert(seed[i + 1].0 != seed[j + 1].0);
            }
        }
        assert forall|i: int| 0 <= i < rest.len() implies outcomes.contains(#[trigger] rest[i].0) by {
            assert(rest[i] == seed[i + 1]);
        }
        law_seed_shares_add_up(rest, outcomes);
        assert forall|i: int| 0 <= i < rest.len() implies #[trigger] rest[i].0 != e.0 by {
            assert(seed[0].0 != seed[i + 1].0);
        }
        lemma_seed_lookup_absent(rest, e.0);
        let g = |o: Seq<char>| seed_lookup(rest, o) as nat;
        let pt = |o: Seq<char>| if o == e.0 {
            e.1 as nat
        } else {
            0nat
        };
        assert forall|o: Seq<char>| #[trigger] f(o) == g(o) + pt(o) by {}
        lemma_sum_over_add(outcomes, g, pt, f);
        assert forall|o: Seq<char>| #[trigger] pt(o) == (if o == e.0 {
            e.1 as nat
        } else {
            0nat
        }) by {}
        lemma_sum_over_point(outcomes, pt, e.0, e.1 as nat);
        assert(outcomes.contains(seed[0].0));
        lemma_count_once(outcomes, e.0);
        crate::accounting::lemma_total_of_first(seed);
    }
}

/// When every position on market `mid` is on one of the outcomes `os`, listed
/// once each, the stakes on those outcomes add up to the market's stake.
pub proof fn lemma_outcomes_cover(ps: Seq<PositionModel>, mid: Seq<char>, os: Seq<Seq<char>>)
    requires
        no_repeats(os),
        forall|j: int| 0 <= j < ps.len() && ps[j].market_id == mid ==> os.contains(#[trigger] ps[j].outcome),
    ensures
        sum_over(os, |o: Seq<char>| outcome_stake(ps, mid, o)) == market_stake(ps, mid),
    decreases ps.len(),
{
    let f = |o: Seq<char>| outcome_stake(ps, mid, o);
    if ps.len() == 0 {
        assert forall|o: Seq<char>| #[trigger] f(o) == (if o == Seq::<char>::empty() {
            0nat
        } else {
            0nat
        }) by {}
        lemma_sum_over_point(os, f, Seq::<char>::empty(), 0);
    } else {
        let rest = ps.drop_last();
        let p = ps.last();
        assert forall|j: int| 0 <= j < rest.len() && rest[j].market_id == mid implies os.contains(
            #[trigger] rest[j].outcome,
        ) by {
            assert(rest[j] == ps[j]);
        }
        lemma_outcomes_cover(rest, mid, os);
        let g = |o: Seq<char>| outcome_stake(rest, mid, o);
        let pt = |o: Seq<char>| if p.market_id == mid && o == p.outcome {
            p.units as nat
        } else {
            0nat
        };
        assert forall|o: Seq<char>| #[trigger] f(o) == g(o) + pt(o) by {
            if p.market_id == mid && p.outcome == o {
                crate::parimutuel::lemma_total_of_push(
                    outcome_stakes(rest, mid, o),
                    (p.user_id, p.units),
                );
            }
        }
        lemma_sum_over_add(os, g, pt, f);
        if p.market_id == mid {
            crate::parimutuel::lemma_total_of_push(stakes_of(rest, mid), (p.user_id, p.units));
            assert forall|o: Seq<char>| #[trigger] pt(o) == (if o == p.outcome {
                p.units as nat
            } else {
                0nat
            }) by {}
            lemma_sum_over_point(os, pt, p.outcome, p.units as nat);
            assert(os.contains(ps[ps.len() - 1].outcome));
            lemma_count_once(os, p.outcome);
        } else {
            assert forall|o: Seq<char>| #[trigger] pt(o) == (if o == p.outcome {
                0nat
            } else {
                0nat
            }) by {}
            lemma_sum_over_point(os, pt, p.outcome, 0);
        }
    }
}

/// Law: in a pool view, the real units on a market's outcomes (listed once
/// each) add up to its real stake, each outcome's pool units are its real and
/// seed units together, and the whole pool is the real stake plus the seed.
pub proof fn law_pool_adds_up(s: StoreModel, mid: Seq<char>, now: u64)
    requires
        well_formed(s),
        has_market(s.markets, mid),
        no_repeats(s.markets[market_index(s.markets, mid)].outcomes),
    ensures
        ({
            let v = pool_of(s, mid, now);
            let m = s.markets[market_index(s.markets, mid)];
            &&& v.total_real_units == market_stake(s.positions, mid)
            &&& v.total_units == v.total_real_units + total_of(m.seed)
            &&& v.outcomes.len() == m.outcomes.len()
            &&& forall|k: int|
                0 <= k < v.outcomes.len() ==> {
                    &&& (#[trigger] v.outcomes[k]).outcome == m.outcomes[k]
                    &&& v.outcomes[k].real_units == outcome_stake(s.positions, mid, m.outcomes[k])
                    &&& v.outcomes[k].seed_units == seed_lookup(m.seed, m.outcomes[k])
                    &&& v.outcomes[k].pool_units == v.outcomes[k].real_units
                        + v.outcomes[k].seed_units
                }
            &&& sum_over(m.outcomes, |o: Seq<char>| outcome_stake(s.positions, mid, o))
                == v.total_real_units
        }),
{
    let mi: int = market_index(s.markets, mid);
    let m = s.markets[mi];
    let v = pool_of(s, mid, now);
    assert(s.markets[mi].id == mid);
    assert(market_stake(s.positions, s.markets[mi].id) + total_of(s.markets[mi].seed) <= u64::MAX);
    assert forall|j: int| 0 <= j < s.positions.len() && s.positions[j].market_id == mid implies m.outcomes.contains(
        #[trigger] s.positions[j].outcome,
    ) by {
        assert(s.markets[market_index(s.markets, s.positions[j].market_id)].outcomes.contains(
            s.positions[j].outcome,
        ));
    }
    lemma_outcomes_cover(s.positions, mid, m.outcomes);
    assert forall|k: int| 0 <= k < v.outcomes.len() implies {
        &&& (#[trigger] v.outcomes[k]).outcome == m.outcomes[k]
        &&& v.outcomes[k].real_units == outcome_stake(s.positions, mid, m.outcomes[k])
        &&& v.outcomes[k].seed_units == seed_lookup(m.seed, m.outcomes[k])
        &&& v.outcomes[k].pool_units == v.outcomes[k].real_units + v.outcomes[k].seed_units
    } by {
        lemma_outcome_stake_le(s.positions, mid, m.outcomes[k]);
        lemma_seed_lookup_le(m.seed, m.outcomes[k]);
    }
}

/// How much a list of credits gives to account `uid`.
pub open spec fn credited_to(cs: Seq<(Seq<char>, u64)>, uid: Seq<char>) -> nat
    decreases cs.len(),
{
    if cs.len() == 0 {
        0
    } else {
        credited_to(cs.drop_last(), uid) + if cs.last().0 == uid {
            cs.last().1 as nat
        } else {
            0
        }
    }
}

/// Crediting adds to each account exactly the amounts credited to it.
pub proof fn lemma_credits_per_account(us: Seq<UserModel>, cs: Seq<(Seq<char>, u64)>)
    requires
        unique_user_ids(us),
        forall|k: int| 0 <= k < cs.len() ==> has_user(us, #[trigger] cs[k].0),
        balance_total(us) + total_of(cs) <= u64::MAX,
    ensures
        forall|i: int|
            0 <= i < us.len() ==> (#[trigger] apply_credits(us, cs)[i]).balance == us[i].balance
                + credited_to(cs, us[i].id),
    decreases cs.len(),
{
    if cs.len() > 0 {
        let init = cs.drop_last();
        assert forall|k: int| 0 <= k < init.len() implies has_user(us, #[trigger] init[k].0) by {
            assert(init[k] == cs[k]);
        }
        lemma_credits_per_account(us, init);
        lemma_apply_credits(us, init);
        lemma_apply_credits(us, cs);
        let r0 = apply_credits(us, init);
        let (uid, amt) = cs.last();
        assert(has_user(us, cs[cs.len() - 1].0));
        let w: int = choose|w: int| 0 <= w < us.len() && us[w].id == uid;
        assert(r0[w].id == uid);
        let j: int = user_index(r0, uid);
        lemma_balance_le_total(r0, j);
        assert forall|i: int| 0 <= i < us.len() implies (#[trigger] apply_credits(us, cs)[i]).balance
            == us[i].balance + credited_to(cs, us[i].id) by {
            assert(r0[i].id == us[i].id);
            if i == j {
                assert(r0[j].id == uid);
            } else {
                assert(r0[j].id == us[j].id);
                if us[i].id == uid {
                    assert(r0[i].id == r0[j].id);
                    if i < j {
                        assert(us[i].id != us[j].id);
                    } else {
                        assert(us[j].id != us[i].id);
                    }
                }
            }
        }
    }
}

/// Law: an accepted resolution credits each account exactly what the receipt
/// lists for it (nothing when it is not listed), leaves every position as it
/// was, and changes no market but the one resolved.
pub proof fn law_resolution_credits_each_account(
    s: StoreModel,
    mid: Seq<char>,
    outcome: Seq<char>,
    by: Seq<char>,
    note: Seq<char>,
    now: u64,
)
    requires
        well_formed(s),
        resolve_failure(s, mid, outcome, now) is None,
    ensures
        ({
            let t = after_resolve(s, mid, outcome, by, note, now);
            let cs = settlement(s, mid, outcome).payouts;
            &&& t.users.len() == s.users.len()
            &&& forall|i: int|
                0 <= i < s.users.len() ==> (#[trigger] t.users[i]).balance == s.users[i].balance
                    + credited_to(cs, s.users[i].id) && t.users[i].id == s.users[i].id
                    && t.users[i].name == s.users[i].name
            &&& t.positions == s.positions
            &&& t.markets.len() == s.markets.len()
            &&& forall|k: int|
                0 <= k < s.markets.len() && k != market_index(s.markets, mid) ==> #[trigger] t.markets[k]
                    == s.markets[k]
        }),
{
    let cs = settlement(s, mid, outcome).payouts;
    lemma_settlement_fits(s, mid, outcome, now);
    lemma_credits_per_account(s.users, cs);
    lemma_apply_credits(s.users, cs);
}

// ---------------------------------------------------------------------------
// What each operation is for, stated over its inputs
// ---------------------------------------------------------------------------

/// The stakes on an outcome add up to more than zero as soon as there is one,
/// when every position is positive.
pub proof fn lemma_outcome_stakes_positive(ps: Seq<PositionModel>, mid: Seq<char>, o: Seq<char>)
    requires
        forall|j: int| 0 <= j < ps.len() ==> #[trigger] ps[j].units > 0,
    ensures
        outcome_stakes(ps, mid, o).len() > 0 <==> outcome_stake(ps, mid, o) > 0,
    decreases ps.len(),
{
    if ps.len() > 0 {
        let rest = ps.drop_last();
        assert forall|j: int| 0 <= j < rest.len() implies #[trigger] rest[j].units > 0 by {
            assert(rest[j] == ps[j]);
        }
        lemma_outcome_stakes_positive(rest, mid, o);
        let p = ps.last();
        assert(ps[ps.len() - 1].units > 0);
        if p.market_id == mid && p.outcome == o {
            crate::parimutuel::lemma_total_of_push(
                outcome_stakes(rest, mid, o),
                (p.user_id, p.units),
            );
        }
    }
}

/// Law: the receipt of an accepted resolution reports what was staked. It is a
/// refund exactly when no unit backs the winning outcome; then the pool is the
/// real stake and no seed is paid out. Otherwise the winning units are all the
/// units on the winning outcome, the pool is the real stake plus the house
/// seed, and each winning position is paid its units times the pool divided by
/// the winning units, floored.
pub proof fn law_settlement_reports_stakes(s: StoreModel, mid: Seq<char>, outcome: Seq<char>, now: u64)
    requires
        well_formed(s),
        resolve_failure(s, mid, outcome, now) is None,
    ensures
        ({
            let r = settlement(s, mid, outcome);
            let m = s.markets[market_index(s.markets, mid)];
            let ws = outcome_stakes(s.positions, mid, outcome);
            &&& r.market_id == mid
            &&& r.winning_outcome == outcome
            &&& r.refunded <==> outcome_stake(s.positions, mid, outcome) == 0
            &&& r.refunded ==> {
                &&& r.winning_units == 0
                &&& r.total_pool == market_stake(s.positions, mid)
                &&& r.seed_subsidy == 0
                &&& r.payouts == stakes_of(s.positions, mid)
            }
            &&& !r.refunded ==> {
                &&& r.winning_units == outcome_stake(s.positions, mid, outcome)
                &&& r.total_pool == market_stake(s.positions, mid) + total_of(m.seed)
                &&& r.seed_subsidy == total_of(m.seed)
                &&& r.payouts.len() == ws.len()
                &&& forall|k: int|
                    0 <= k < ws.len() ==> (#[trigger] r.payouts[k]).0 == ws[k].0 && r.payouts[k].1
                        == (ws[k].1 as int) * (r.total_pool as int) / (r.winning_units as int)
            }
        }),
{
    let mi: int = market_index(s.markets, mid);
    let m = s.markets[mi];
    let ws = outcome_stakes(s.positions, mid, outcome);
    lemma_settlement_fits(s, mid, outcome, now);
    assert(has_market(s.markets, mid));
    assert(market_stake(s.positions, s.markets[mi].id) + total_of(s.markets[mi].seed) <= u64::MAX);
    assert forall|j: int| 0 <= j < s.positions.len() implies #[trigger] s.positions[j].units > 0 by {}
    lemma_outcome_stakes_positive(s.positions, mid, outcome);
    let r = settlement(s, mid, outcome);
    let pool: nat = market_stake(s.positions, mid) + total_of(m.seed);
    if ws.len() > 0 {
        assert(total_of(ws) > 0);
        assert(r.winning_units == total_of(ws));
        assert(r.total_pool == pool);
        assert forall|k: int| 0 <= k < ws.len() implies (#[trigger] r.payouts[k]).0 == ws[k].0
            && r.payouts[k].1 == (ws[k].1 as int) * (r.total_pool as int) / (
        r.winning_units as int) by {
            crate::parimutuel::lemma_element_le_total(ws, k);
            crate::parimutuel::lemma_share_le_pool(ws[k].1 as nat, pool, total_of(ws));
            assert(r.payouts == crate::parimutuel::payout_list(pool, ws));
        }
    }
}

/// Law: a pool view at time `now` shows the market as it stands and its phase
/// at that time: resolved once the committee has acted, closed once its
/// deadline has come, open otherwise.
pub proof fn law_pool_phase(s: StoreModel, mid: Seq<char>, now: u64)
    requires
        has_market(s.markets, mid),
    ensures
        ({
            let m = s.markets[market_index(s.markets, mid)];
            let v = pool_of(s, mid, now);
            &&& v.market == m
            &&& m.status == MarketStatus::Resolved ==> v.phase == Phase::Resolved
            &&& m.status == MarketStatus::Open && m.closes_at is Some && now >= m.closes_at->0
                ==> v.phase == Phase::Closed
            &&& m.status == MarketStatus::Open && (m.closes_at is None || now
                < m.closes_at->0) ==> v.phase == Phase::Open
        }),
{
}

/// Law: a prediction of at least one unit on a listed outcome of a market that
/// is open at `now`, by an existing account, is accepted exactly when the
/// balance covers the stake (a whole balance can be staked); otherwise it is
/// refused as an insufficient balance that reports the balance and the stake.
/// An accepted prediction debits exactly the stake.
pub proof fn law_predict_accepts_covered_stakes(
    s: StoreModel,
    mid: Seq<char>,
    uid: Seq<char>,
    outcome: Seq<char>,
    units: u64,
    now: u64,
)
    requires
        units > 0,
        has_market(s.markets, mid),
        s.markets[market_index(s.markets, mid)].status == MarketStatus::Open,
        s.markets[market_index(s.markets, mid)].closes_at is None || now < s.markets[market_index(
            s.markets,
            mid,
        )].closes_at->0,
        s.markets[market_index(s.markets, mid)].outcomes.contains(outcome),
        has_user(s.users, uid),
    ensures
        ({
            let b = s.users[user_index(s.users, uid)].balance;
            &&& b >= units ==> predict_failure(s, mid, uid, outcome, units, now) is None
            &&& b >= units ==> after_predict(s, mid, uid, outcome, units).users[user_index(
                s.users,
                uid,
            )].balance + units == b
            &&& b < units ==> predict_failure(s, mid, uid, outcome, units, now) == Some(
                Error::InsufficientBalance { have: b, need: units },
            )
        }),
{
}

/// Law: in a sorted market list, earlier markets are in no later phase, and
/// markets in the same phase are in byte-wise order of their questions.
pub proof fn law_listing_order(ms: Seq<MarketModel>, now: u64)
    requires
        listing_sorted(ms, now),
    ensures
        forall|i: int, j: int|
            0 <= i < j < ms.len() ==> crate::models::phase_rank(phase_at(#[trigger] ms[i], now))
                <= crate::models::phase_rank(phase_at(#[trigger] ms[j], now)) && (
            crate::models::phase_rank(phase_at(ms[i], now)) == crate::models::phase_rank(
                phase_at(ms[j], now),
            ) ==> crate::text::bytes_le(
                vstd::utf8::encode_utf8(ms[i].question),
                vstd::utf8::encode_utf8(ms[j].question),
            )),
{
    assert forall|i: int, j: int| 0 <= i < j < ms.len() implies crate::models::phase_rank(
        phase_at(#[trigger] ms[i], now),
    ) <= crate::models::phase_rank(phase_at(#[trigger] ms[j], now)) && (crate::models::phase_rank(
        phase_at(ms[i], now),
    ) == crate::models::phase_rank(phase_at(ms[j], now)) ==> crate::text::bytes_le(
        vstd::utf8::encode_utf8(ms[i].question),
        vstd::utf8::encode_utf8(ms[j].question),
    )) by {
        assert(listed_before(ms[i], ms[j], now));
    }
}

/// Every listed outcome survives the removal of repeats.
pub proof fn lemma_distinct_keeps(s: Seq<Seq<char>>, x: Seq<char>)
    requires
        s.contains(x),
    ensures
        distinct(s).contains(x),
    decreases s.len(),
{
    let rest = s.drop_last();
    let d = distinct(rest);
    if s.last() == x {
        if !d.contains(x) {
            assert(distinct(s)[d.len() as int] == x);
        }
    } else {
        let i: int = choose|i: int| 0 <= i < s.len() && s[i] == x;
        assert(rest[i] == x);
        lemma_distinct_keeps(rest, x);
        let k: int = choose|k: int| 0 <= k < d.len() && d[k] == x;
        if !d.contains(s.last()) {
            assert(distinct(s)[k] == x);
        }
    }
}

/// When some entry is for `o` and every entry carries `v`, the seed on `o` is `v`.
pub proof fn lemma_seed_lookup_uniform(seed: Seq<(Seq<char>, u64)>, o: Seq<char>, v: u64)
    requires
        exists|i: int| 0 <= i < seed.len() && seed[i].0 == o,
        forall|i: int| 0 <= i < seed.len() ==> #[trigger] seed[i].1 == v,
    ensures
        seed_lookup(seed, o) == v,
    decreases seed.len(),
{
    if seed[0].0 != o {
        let i: int = choose|i: int| 0 <= i < seed.len() && seed[i].0 == o;
        let rest = seed.drop_first();
        assert(rest[i - 1].0 == o);
        assert forall|k: int| 0 <= k < rest.len() implies #[trigger] rest[k].1 == v by {
            assert(rest[k] == seed[k + 1]);
        }
        lemma_seed_lookup_uniform(rest, o, v);
    } else {
        assert(seed[0].1 == v);
    }
}

/// Law: a market opened with a house seed of `seed` units carries exactly
/// `seed` units on each of its listed outcomes (none when `seed` is zero),
/// seeds nothing that is not listed, and its total seed is `seed` per distinct
/// outcome.
pub proof fn law_new_market_seeds_every_outcome(
    s: StoreModel,
    question: Seq<char>,
    outcomes: Seq<Seq<char>>,
    closes_at: Option<u64>,
    seed: u64,
)
    ensures
        ({
            let m = after_open_market(s, question, outcomes, closes_at, seed).markets.last();
            &&& forall|o: Seq<char>| outcomes.contains(o) ==> #[trigger] seed_lookup(m.seed, o) == seed
            &&& forall|o: Seq<char>| !outcomes.contains(o) ==> #[trigger] seed_lookup(m.seed, o) == 0
            &&& total_of(m.seed) == seed * distinct(outcomes).len()
        }),
{
    let m = after_open_market(s, question, outcomes, closes_at, seed).markets.last();
    let e = seed_entries(outcomes, seed);
    assert(m.seed == e);
    law_seed_entries_listed(outcomes, seed);
    assert forall|o: Seq<char>| outcomes.contains(o) implies #[trigger] seed_lookup(m.seed, o)
        == seed by {
        if seed == 0 {
            lemma_seed_lookup_absent(e, o);
        } else {
            lemma_distinct_keeps(outcomes, o);
            let k: int = choose|k: int| 0 <= k < distinct(outcomes).len() && distinct(outcomes)[k] == o;
            assert(e[k].0 == o);
            assert forall|i: int| 0 <= i < e.len() implies #[trigger] e[i].1 == seed by {}
            lemma_seed_lookup_uniform(e, o, seed);
        }
    }
    assert forall|o: Seq<char>| !outcomes.contains(o) implies #[trigger] seed_lookup(m.seed, o)
        == 0 by {
        assert forall|i: int| 0 <= i < e.len() implies #[trigger] e[i].0 != o by {
            assert(outcomes.contains(e[i].0));
        }
        lemma_seed_lookup_absent(e, o);
    }
    lemma_total_uniform(e, seed);
}

/// A list whose every amount is `v` totals `v` per entry.
pub proof fn lemma_total_uniform(e: Seq<(Seq<char>, u64)>, v: u64)
    requires
        forall|i: int| 0 <= i < e.len() ==> #[trigger] e[i].1 == v,
    ensures
        total_of(e) == v * e.len(),
    decreases e.len(),
{
    if e.len() == 0 {
        assert(v * 0 == 0) by (nonlinear_arith);
    } else {
        let rest = e.drop_last();
        assert forall|i: int| 0 <= i < rest.len() implies #[trigger] rest[i].1 == v by {
            assert(rest[i] == e[i]);
        }
        lemma_total_uniform(rest, v);
        assert(e[e.len() - 1].1 == v);
        let n = rest.len();
        assert(v * n + v == v * (n + 1)) by (nonlinear_arith);
    }
}

/// Law: why a prediction is refused, in terms of its inputs: no units; no such
/// market; a resolved market; a deadline that has come; an outcome the market
/// does not list; no such account. Each is checked only once the ones before
/// it pass.
pub proof fn law_predict_refusals(
    s: StoreModel,
    mid: Seq<char>,
    uid: Seq<char>,
    outcome: Seq<char>,
    units: u64,
    now: u64,
)
    ensures
        units == 0 ==> predict_failure(s, mid, uid, outcome, units, now) == Some(Error::ZeroUnits),
        units > 0 && !has_market(s.markets, mid) ==> predict_failure(s, mid, uid, outcome, units, now)
            == Some(Error::MarketNotFound),
        ({
            let m = s.markets[market_index(s.markets, mid)];
            &&& units > 0 && has_market(s.markets, mid) && m.status == MarketStatus::Resolved
                ==> predict_failure(s, mid, uid, outcome, units, now) == Some(Error::MarketResolved)
            &&& units > 0 && has_market(s.markets, mid) && m.status == MarketStatus::Open
                && m.closes_at is Some && now >= m.closes_at->0 ==> predict_failure(
                s,
                mid,
                uid,
                outcome,
                units,
                now,
            ) == Some(Error::PredictionsClosed)
            &&& units > 0 && has_market(s.markets, mid) && m.status == MarketStatus::Open && (
            m.closes_at is None || now < m.closes_at->0) && !m.outcomes.contains(outcome)
                ==> predict_failure(s, mid, uid, outcome, units, now) == Some(Error::UnknownOutcome)
            &&& units > 0 && has_market(s.markets, mid) && m.status == MarketStatus::Open && (
            m.closes_at is None || now < m.closes_at->0) && m.outcomes.contains(outcome)
                && !has_user(s.users, uid) ==> predict_failure(s, mid, uid, outcome, units, now)
                == Some(Error::UserNotFound)
        }),
{
}

/// Law: when a resolution is accepted, in terms of its inputs: the market
/// exists, is not resolved, lists the outcome, and either has no deadline or
/// its deadline has come. A timed market still before its deadline is refused
/// as too early, a resolved one as resolved, an unlisted outcome as unknown.
pub proof fn law_resolve_acceptance(s: StoreModel, mid: Seq<char>, outcome: Seq<char>, now: u64)
    ensures
        !has_market(s.markets, mid) ==> resolve_failure(s, mid, outcome, now) == Some(
            Error::MarketNotFound,
        ),
        ({
            let m = s.markets[market_index(s.markets, mid)];
            &&& has_market(s.markets, mid) && m.status == MarketStatus::Resolved ==> resolve_failure(
                s,
                mid,
                outcome,
                now,
            ) == Some(Error::MarketResolved)
            &&& has_market(s.markets, mid) && m.status == MarketStatus::Open && m.closes_at is Some
                && now < m.closes_at->0 ==> resolve_failure(s, mid, outcome, now) == Some(
                Error::TooEarlyToResolve,
            )
            &&& has_market(s.markets, mid) && m.status == MarketStatus::Open && (m.closes_at is None
                || now >= m.closes_at->0) ==> (resolve_failure(s, mid, outcome, now) is None
                <==> m.outcomes.contains(outcome))
            &&& has_market(s.markets, mid) && m.status == MarketStatus::Open && (m.closes_at is None
                || now >= m.closes_at->0) && !m.outcomes.contains(outcome) ==> resolve_failure(
                s,
                mid,
                outcome,
                now,
            ) == Some(Error::UnknownOutcome)
        }),
{
}

/// Law: an accepted resolution records the committee's action on the market:
/// resolved, with the winning outcome, who resolved it, the note and the time;
/// its question, outcomes, deadline and seed stay as they were, and it keeps
/// its place and identifier.
pub proof fn law_resolution_records(
    s: StoreModel,
    mid: Seq<char>,
    outcome: Seq<char>,
    by: Seq<char>,
    note: Seq<char>,
    now: u64,
)
    requires
        resolve_failure(s, mid, outcome, now) is None,
    ensures
        ({
            let i = market_index(s.markets, mid);
            let m = s.markets[i];
            let m2 = after_resolve(s, mid, outcome, by, note, now).markets[i];
            &&& 0 <= i < s.markets.len()
            &&& after_resolve(s, mid, outcome, by, note, now).markets.len() == s.markets.len()
            &&& m2.id == mid
            &&& m2.status == MarketStatus::Resolved
            &&& m2.winning_outcome == Some(outcome)
            &&& m2.resolved_by == Some(by)
            &&& m2.resolved_note == Some(note)
            &&& m2.resolved_at == Some(now)
            &&& m2.question == m.question
            &&& m2.outcomes == m.outcomes
            &&& m2.closes_at == m.closes_at
            &&& m2.seed == m.seed
        }),
{
    assert(has_market(s.markets, mid));
}

/// Law: an accepted prediction records a position of the given market, account,
/// outcome and units; it is added to the account's positions, and its stake
/// leaves exactly that account, whose other fields stay as they were.
pub proof fn law_predict_records(
    s: StoreModel,
    mid: Seq<char>,
    uid: Seq<char>,
    outcome: Seq<char>,
    units: u64,
    now: u64,
)
    requires
        predict_failure(s, mid, uid, outcome, units, now) is None,
    ensures
        ({
            let t = after_predict(s, mid, uid, outcome, units);
            let p = placed_position(s, mid, uid, outcome, units);
            let i = user_index(s.users, uid);
            &&& p.market_id == mid && p.user_id == uid && p.outcome == outcome && p.units == units
            &&& crate::ledger::positions_by(t.positions, uid) == crate::ledger::positions_by(
                s.positions,
                uid,
            ).push(p)
            &&& t.users.len() == s.users.len()
            &&& t.users[i].id == uid && t.users[i].name == s.users[i].name
            &&& t.users[i].balance + units == s.users[i].balance
            &&& forall|j: int| 0 <= j < s.users.len() && j != i ==> #[trigger] t.users[j] == s.users[j]
            &&& t.markets == s.markets
        }),
{
    let t = after_predict(s, mid, uid, outcome, units);
    assert(has_user(s.users, uid));
    assert(t.positions.drop_last() =~= s.positions);
}

/// Law: once a market is resolved it stays settled: any further prediction on
/// it (of at least one unit) is refused as resolved, and so is any further
/// resolution, whatever the clock says.
pub proof fn law_resolution_is_final(
    s: StoreModel,
    mid: Seq<char>,
    outcome: Seq<char>,
    by: Seq<char>,
    note: Seq<char>,
    now: u64,
    uid: Seq<char>,
    other: Seq<char>,
    units: u64,
    later: u64,
)
    requires
        well_formed(s),
        resolve_failure(s, mid, outcome, now) is None,
        units > 0,
    ensures
        predict_failure(after_resolve(s, mid, outcome, by, note, now), mid, uid, other, units, later)
            == Some(Error::MarketResolved),
        resolve_failure(after_resolve(s, mid, outcome, by, note, now), mid, other, later) == Some(
            Error::MarketResolved,
        ),
{
    let t = after_resolve(s, mid, outcome, by, note, now);
    let mi: int = market_index(s.markets, mid);
    assert(has_market(s.markets, mid));
    assert forall|i: int, j: int|
        0 <= i < j < t.markets.len() implies #[trigger] t.markets[i].id != #[trigger] t.markets[j].id by {
        assert(t.markets[i].id == s.markets[i].id && t.markets[j].id == s.markets[j].id);
    }
    lemma_market_index_unique(t.markets, mid, mi);
    assert(phase_at(t.markets[mi], later) == Phase::Resolved);
}

/// Law: any two markets can be ordered in the market list.
pub proof fn law_listing_total(a: MarketModel, b: MarketModel, now: u64)
    ensures
        listed_before(a, b, now) || listed_before(b, a, now),
{
    lemma_bytes_le_total(
        vstd::utf8::encode_utf8(a.question),
        vstd::utf8::encode_utf8(b.question),
    );
}

/// Law: the order of the market list is transitive.
pub proof fn law_listing_transitive(a: MarketModel, b: MarketModel, c: MarketModel, now: u64)
    requires
        listed_before(a, b, now),
        listed_before(b, c, now),
    ensures
        listed_before(a, c, now),
{
    let qa = vstd::utf8::encode_utf8(a.question);
    let qb = vstd::utf8::encode_utf8(b.question);
    let qc = vstd::utf8::encode_utf8(c.question);
    if crate::models::phase_rank(phase_at(a, now)) == crate::models::phase_rank(phase_at(c, now)) {
        lemma_bytes_le_transitive(qa, qb, qc);
    }
}

/// Inserting a market where everything before it lists no later and
/// everything after lists no earlier keeps a list sorted.
pub proof fn lemma_insert_sorted(s: Seq<MarketModel>, j: int, x: MarketModel, now: u64)
    requires
        0 <= j <= s.len(),
        listing_sorted(s, now),
        forall|k: int| 0 <= k < j ==> listed_before(#[trigger] s[k], x, now),
        forall|k: int| j <= k < s.len() ==> listed_before(x, #[trigger] s[k], now),
    ensures
        listing_sorted(s.insert(j, x), now),
{
    let t = s.insert(j, x);
    assert forall|a: int, b: int| 0 <= a < b < t.len() implies listed_before(
        #[trigger] t[a],
        #[trigger] t[b],
        now,
    ) by {
        if a < j {
            if b < j {
                assert(t[a] == s[a] && t[b] == s[b]);
            } else if b == j {
                assert(t[a] == s[a]);
            } else {
                assert(t[a] == s[a] && t[b] == s[b - 1]);
                assert(listed_before(s[a], s[b - 1], now));
            }
        } else if a == j {
            assert(t[b] == s[b - 1]);
        } else {
            assert(t[a] == s[a - 1] && t[b] == s[b - 1]);
        }
    }
}

} // verus!
