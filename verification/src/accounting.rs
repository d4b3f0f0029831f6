//! Lemmas about the sums that the store's model keeps: balances, stakes and
//! house seed.

use vstd::prelude::*;

use crate::ledger::{
    apply_credits, balance_total, has_market, has_user, live_seed, market_index,
    market_open, market_stake, open_seed, open_stake, outcome_stake, outcome_stakes, stakes_of,
    user_index,
};
use crate::models::{seed_lookup, MarketModel, MarketStatus, PositionModel, UserModel};
use crate::parimutuel::total_of;

verus! {

pub proof fn lemma_balance_total_update(us: Seq<UserModel>, i: int, u: UserModel)
    requires
        0 <= i < us.len(),
    ensures
        balance_total(us.update(i, u)) + us[i].balance == balance_total(us) + u.balance,
    decreases us.len(),
{
    let us2 = us.update(i, u);
    if i == us.len() - 1 {
        assert(us2.drop_last() =~= us.drop_last());
    } else {
        assert(us2.drop_last() =~= us.drop_last().update(i, u));
        lemma_balance_total_update(us.drop_last(), i, u);
    }
}

pub proof fn lemma_balance_le_total(us: Seq<UserModel>, i: int)
    requires
        0 <= i < us.len(),
    ensures
        us[i].balance <= balance_total(us),
    decreases us.len(),
{
    if i < us.len() - 1 {
        lemma_balance_le_total(us.drop_last(), i);
    }
}

pub proof fn lemma_balance_total_push(us: Seq<UserModel>, u: UserModel)
    ensures
        balance_total(us.push(u)) == balance_total(us) + u.balance,
{
    assert(us.push(u).drop_last() =~= us);
}

pub proof fn lemma_open_stake_push(ps: Seq<PositionModel>, p: PositionModel, ms: Seq<MarketModel>)
    ensures
        open_stake(ps.push(p), ms) == open_stake(ps, ms) + if market_open(ms, p.market_id) {
            p.units as nat
        } else {
            0
        },
{
    assert(ps.push(p).drop_last() =~= ps);
}

pub proof fn lemma_open_stake_frame(
    ps: Seq<PositionModel>,
    ms1: Seq<MarketModel>,
    ms2: Seq<MarketModel>,
)
    requires
        forall|j: int|
            0 <= j < ps.len() ==> market_open(ms1, #[trigger] ps[j].market_id) == market_open(
                ms2,
                ps[j].market_id,
            ),
    ensures
        open_stake(ps, ms1) == open_stake(ps, ms2),
    decreases ps.len(),
{
    if ps.len() > 0 {
        let rest = ps.drop_last();
        assert forall|j: int| 0 <= j < rest.len() implies market_open(
            ms1,
            #[trigger] rest[j].market_id,
        ) == market_open(ms2, rest[j].market_id) by {
            assert(rest[j] == ps[j]);
        }
        lemma_open_stake_frame(rest, ms1, ms2);
        assert(ps[ps.len() - 1] == ps.last());
    }
}

/// Resolving market `i` takes its stake out of the open stake.
pub proof fn lemma_open_stake_close(
    ps: Seq<PositionModel>,
    ms: Seq<MarketModel>,
    i: int,
    m2: MarketModel,
)
    requires
        0 <= i < ms.len(),
        forall|a: int, b: int|
            0 <= a < b < ms.len() ==> #[trigger] ms[a].id != #[trigger] ms[b].id,
        ms[i].status == MarketStatus::Open,
        m2.id == ms[i].id,
        m2.status == MarketStatus::Resolved,
    ensures
        open_stake(ps, ms.update(i, m2)) + market_stake(ps, ms[i].id) == open_stake(ps, ms),
    decreases ps.len(),
{
    let ms2 = ms.update(i, m2);
    let id = ms[i].id;
    if ps.len() > 0 {
        let rest = ps.drop_last();
        lemma_open_stake_close(rest, ms, i, m2);
        let p = ps.last();
        if p.market_id == id {
            crate::parimutuel::lemma_total_of_push(stakes_of(rest, id), (p.user_id, p.units));
            assert(market_open(ms, p.market_id));
            if market_open(ms2, p.market_id) {
                let k: int = choose|k: int|
                    0 <= k < ms2.len() && ms2[k].id == p.market_id && ms2[k].status
                        == MarketStatus::Open;
                if k != i {
                    assert(ms[k].id == ms[i].id);
                    if k < i {
                        assert(ms[k].id != ms[i].id);
                    } else {
                        assert(ms[i].id != ms[k].id);
                    }
                }
            }
        } else {
            if market_open(ms, p.market_id) {
                let k: int = choose|k: int|
                    0 <= k < ms.len() && ms[k].id == p.market_id && ms[k].status
                        == MarketStatus::Open;
                assert(ms2[k] == ms[k]);
            }
            if market_open(ms2, p.market_id) {
                let k: int = choose|k: int|
                    0 <= k < ms2.len() && ms2[k].id == p.market_id && ms2[k].status
                        == MarketStatus::Open;
                assert(ms2[k] == ms[k]);
            }
        }
    }
}

pub proof fn lemma_open_seed_update(ms: Seq<MarketModel>, i: int, m2: MarketModel)
    requires
        0 <= i < ms.len(),
    ensures
        open_seed(ms.update(i, m2)) + live_seed(ms[i]) == open_seed(ms) + live_seed(m2),
    decreases ms.len(),
{
    let ms2 = ms.update(i, m2);
    if i == ms.len() - 1 {
        assert(ms2.drop_last() =~= ms.drop_last());
    } else {
        assert(ms2.drop_last() =~= ms.drop_last().update(i, m2));
        lemma_open_seed_update(ms.drop_last(), i, m2);
    }
}

pub proof fn lemma_open_seed_push(ms: Seq<MarketModel>, m: MarketModel)
    ensures
        open_seed(ms.push(m)) == open_seed(ms) + live_seed(m),
{
    assert(ms.push(m).drop_last() =~= ms);
}

pub proof fn lemma_live_seed_le(ms: Seq<MarketModel>, i: int)
    requires
        0 <= i < ms.len(),
    ensures
        live_seed(ms[i]) <= open_seed(ms),
    decreases ms.len(),
{
    if i < ms.len() - 1 {
        lemma_live_seed_le(ms.drop_last(), i);
    }
}

pub proof fn lemma_market_stake_le_open(ps: Seq<PositionModel>, ms: Seq<MarketModel>, id: Seq<char>)
    requires
        market_open(ms, id),
    ensures
        market_stake(ps, id) <= open_stake(ps, ms),
    decreases ps.len(),
{
    if ps.len() > 0 {
        lemma_market_stake_le_open(ps.drop_last(), ms, id);
        let rest = stakes_of(ps.drop_last(), id);
        if ps.last().market_id == id {
            crate::parimutuel::lemma_total_of_push(rest, (ps.last().user_id, ps.last().units));
        }
    }
}

pub proof fn lemma_outcome_stake_le(ps: Seq<PositionModel>, mid: Seq<char>, o: Seq<char>)
    ensures
        outcome_stake(ps, mid, o) <= market_stake(ps, mid),
    decreases ps.len(),
{
    if ps.len() > 0 {
        lemma_outcome_stake_le(ps.drop_last(), mid, o);
        let p = ps.last();
        if p.market_id == mid {
            crate::parimutuel::lemma_total_of_push(
                stakes_of(ps.drop_last(), mid),
                (p.user_id, p.units),
            );
            if p.outcome == o {
                crate::parimutuel::lemma_total_of_push(
                    outcome_stakes(ps.drop_last(), mid, o),
                    (p.user_id, p.units),
                );
            }
        }
    }
}

/// Every holder in the stakes of a market is the owner of some position.
pub proof fn lemma_stake_holders(ps: Seq<PositionModel>, mid: Seq<char>, us: Seq<UserModel>)
    requires
        forall|j: int| 0 <= j < ps.len() ==> has_user(us, #[trigger] ps[j].user_id),
    ensures
        forall|k: int|
            0 <= k < stakes_of(ps, mid).len() ==> has_user(us, #[trigger] stakes_of(ps, mid)[k].0),
    decreases ps.len(),
{
    if ps.len() > 0 {
        let rest = ps.drop_last();
        assert forall|j: int| 0 <= j < rest.len() implies has_user(us, #[trigger] rest[j].user_id) by {
            assert(rest[j] == ps[j]);
        }
        lemma_stake_holders(rest, mid, us);
        assert(has_user(us, ps[ps.len() - 1].user_id));
        let s = stakes_of(ps, mid);
        let s0 = stakes_of(rest, mid);
        assert forall|k: int| 0 <= k < s.len() implies has_user(us, #[trigger] s[k].0) by {
            if k < s0.len() {
                assert(s[k] == s0[k]);
            }
        }
    }
}

/// Every holder in the stakes of an outcome is the owner of some position.
pub proof fn lemma_outcome_holders(
    ps: Seq<PositionModel>,
    mid: Seq<char>,
    o: Seq<char>,
    us: Seq<UserModel>,
)
    requires
        forall|j: int| 0 <= j < ps.len() ==> has_user(us, #[trigger] ps[j].user_id),
    ensures
        forall|k: int|
            0 <= k < outcome_stakes(ps, mid, o).len() ==> has_user(
                us,
                #[trigger] outcome_stakes(ps, mid, o)[k].0,
            ),
    decreases ps.len(),
{
    if ps.len() > 0 {
        let rest = ps.drop_last();
        assert forall|j: int| 0 <= j < rest.len() implies has_user(us, #[trigger] rest[j].user_id) by {
            assert(rest[j] == ps[j]);
        }
        lemma_outcome_holders(rest, mid, o, us);
        assert(has_user(us, ps[ps.len() - 1].user_id));
        let s = outcome_stakes(ps, mid, o);
        let s0 = outcome_stakes(rest, mid, o);
        assert forall|k: int| 0 <= k < s.len() implies has_user(us, #[trigger] s[k].0) by {
            if k < s0.len() {
                assert(s[k] == s0[k]);
            }
        }
    }
}

/// With no position on market `id`, its stake list is empty.
pub proof fn lemma_no_stakes(ps: Seq<PositionModel>, id: Seq<char>)
    requires
        forall|j: int| 0 <= j < ps.len() ==> #[trigger] ps[j].market_id != id,
    ensures
        stakes_of(ps, id) == Seq::<(Seq<char>, u64)>::empty(),
    decreases ps.len(),
{
    if ps.len() > 0 {
        let rest = ps.drop_last();
        assert forall|j: int| 0 <= j < rest.len() implies #[trigger] rest[j].market_id != id by {
            assert(rest[j] == ps[j]);
        }
        lemma_no_stakes(rest, id);
        assert(ps[ps.len() - 1].market_id != id);
    }
}

/// Crediting keeps every account's identifier and name, and adds the credited
/// amounts to the sum of balances, when every credited account exists and the
/// sum fits in a `u64`.
pub proof fn lemma_apply_credits(us: Seq<UserModel>, cs: Seq<(Seq<char>, u64)>)
    requires
        forall|a: int, b: int|
            0 <= a < b < us.len() ==> #[trigger] us[a].id != #[trigger] us[b].id,
        forall|k: int| 0 <= k < cs.len() ==> has_user(us, #[trigger] cs[k].0),
        balance_total(us) + total_of(cs) <= u64::MAX,
    ensures
        apply_credits(us, cs).len() == us.len(),
        forall|i: int|
            0 <= i < us.len() ==> (#[trigger] apply_credits(us, cs)[i]).id == us[i].id
                && apply_credits(us, cs)[i].name == us[i].name,
        balance_total(apply_credits(us, cs)) == balance_total(us) + total_of(cs),
    decreases cs.len(),
{
    if cs.len() > 0 {
        let init = cs.drop_last();
        assert forall|k: int| 0 <= k < init.len() implies has_user(us, #[trigger] init[k].0) by {
            assert(init[k] == cs[k]);
        }
        lemma_apply_credits(us, init);
        let r0 = apply_credits(us, init);
        let (uid, amt) = cs.last();
        assert(has_user(us, cs[cs.len() - 1].0));
        let w: int = choose|w: int| 0 <= w < us.len() && us[w].id == uid;
        assert(r0[w].id == uid);
        assert(has_user(r0, uid));
        let i: int = user_index(r0, uid);
        lemma_balance_le_total(r0, i);
        let nu = UserModel { balance: (r0[i].balance + amt) as u64, ..r0[i] };
        lemma_balance_total_update(r0, i, nu);
        assert(apply_credits(us, cs) == r0.update(i, nu));
    }
}

pub proof fn lemma_total_of_first(ws: Seq<(Seq<char>, u64)>)
    requires
        ws.len() > 0,
    ensures
        total_of(ws) == ws[0].1 + total_of(ws.drop_first()),
    decreases ws.len(),
{
    if ws.len() > 1 {
        lemma_total_of_first(ws.drop_last());
        assert(ws.drop_first().drop_last() =~= ws.drop_last().drop_first());
        assert(ws.drop_last()[0] == ws[0]);
        assert(ws.drop_first().last() == ws.last());
        assert(total_of(ws.drop_first()) == total_of(ws.drop_first().drop_last())
            + ws.drop_first().last().1);
    } else {
        assert(ws.drop_first().len() == 0);
        assert(ws.drop_last().len() == 0);
        assert(ws.last() == ws[0]);
        assert(total_of(ws.drop_first()) == 0);
        assert(total_of(ws.drop_last()) == 0);
    }
}

/// The seed on one outcome is part of the market's total seed.
pub proof fn lemma_seed_lookup_le(seed: Seq<(Seq<char>, u64)>, o: Seq<char>)
    ensures
        seed_lookup(seed, o) <= total_of(seed),
    decreases seed.len(),
{
    if seed.len() > 0 {
        lemma_total_of_first(seed);
        lemma_seed_lookup_le(seed.drop_first(), o);
    }
}

/// The sum of `f` over the outcomes `os`.
pub open spec fn sum_over(os: Seq<Seq<char>>, f: spec_fn(Seq<char>) -> nat) -> nat
    decreases os.len(),
{
    if os.len() == 0 {
        0
    } else {
        sum_over(os.drop_last(), f) + f(os.last())
    }
}

/// How many times `x` occurs in `os`.
pub open spec fn count_of(os: Seq<Seq<char>>, x: Seq<char>) -> nat
    decreases os.len(),
{
    if os.len() == 0 {
        0
    } else {
        count_of(os.drop_last(), x) + if os.last() == x {
            1nat
        } else {
            0
        }
    }
}

/// No outcome occurs twice.
pub open spec fn no_repeats(os: Seq<Seq<char>>) -> bool {
    forall|i: int, j: int| 0 <= i < j < os.len() ==> #[trigger] os[i] != #[trigger] os[j]
}

pub proof fn lemma_sum_over_add(
    os: Seq<Seq<char>>,
    f: spec_fn(Seq<char>) -> nat,
    g: spec_fn(Seq<char>) -> nat,
    h: spec_fn(Seq<char>) -> nat,
)
    requires
        forall|o: Seq<char>| #[trigger] h(o) == f(o) + g(o),
    ensures
        sum_over(os, h) == sum_over(os, f) + sum_over(os, g),
    decreases os.len(),
{
    if os.len() > 0 {
        lemma_sum_over_add(os.drop_last(), f, g, h);
        assert(h(os.last()) == f(os.last()) + g(os.last()));
    }
}

pub proof fn lemma_sum_over_point(os: Seq<Seq<char>>, f: spec_fn(Seq<char>) -> nat, k: Seq<char>, a: nat)
    requires
        forall|o: Seq<char>| #[trigger] f(o) == if o == k {
            a
        } else {
            0
        },
    ensures
        sum_over(os, f) == a * count_of(os, k),
    decreases os.len(),
{
    if os.len() > 0 {
        lemma_sum_over_point(os.drop_last(), f, k, a);
        assert(f(os.last()) == if os.last() == k {
            a
        } else {
            0
        });
        let c = count_of(os.drop_last(), k);
        assert(a * (c + 1) == a * c + a) by (nonlinear_arith);
        assert(a * (c + 0) == a * c) by (nonlinear_arith);
    } else {
        assert(a * 0 == 0) by (nonlinear_arith);
    }
}

pub proof fn lemma_count_absent(os: Seq<Seq<char>>, x: Seq<char>)
    requires
        !os.contains(x),
    ensures
        count_of(os, x) == 0,
    decreases os.len(),
{
    if os.len() > 0 {
        assert(!os.drop_last().contains(x)) by {
            if os.drop_last().contains(x) {
                let i: int = choose|i: int| 0 <= i < os.drop_last().len() && os.drop_last()[i] == x;
                assert(os[i] == x);
            }
        }
        lemma_count_absent(os.drop_last(), x);
        assert(os.last() != x) by {
            if os.last() == x {
                assert(os[os.len() - 1] == x);
            }
        }
    }
}

/// An outcome listed once among outcomes without repeats is counted once.
pub proof fn lemma_count_once(os: Seq<Seq<char>>, x: Seq<char>)
    requires
        no_repeats(os),
        os.contains(x),
    ensures
        count_of(os, x) == 1,
    decreases os.len(),
{
    let rest = os.drop_last();
    if os.last() == x {
        assert(!rest.contains(x)) by {
            if rest.contains(x) {
                let i: int = choose|i: int| 0 <= i < rest.len() && rest[i] == x;
                assert(os[i] == os[os.len() - 1]);
            }
        }
        lemma_count_absent(rest, x);
    } else {
        let i: int = choose|i: int| 0 <= i < os.len() && os[i] == x;
        assert(i < os.len() - 1);
        assert(rest[i] == x);
        assert(no_repeats(rest)) by {
            assert forall|a: int, b: int| 0 <= a < b < rest.len() implies #[trigger] rest[a]
                != #[trigger] rest[b] by {
                assert(os[a] != os[b]);
            }
        }
        lemma_count_once(rest, x);
    }
}

/// Without an entry for `key`, the seed on `key` is 0.
pub proof fn lemma_seed_lookup_absent(seed: Seq<(Seq<char>, u64)>, key: Seq<char>)
    requires
        forall|i: int| 0 <= i < seed.len() ==> #[trigger] seed[i].0 != key,
    ensures
        seed_lookup(seed, key) == 0,
    decreases seed.len(),
{
    if seed.len() > 0 {
        assert(seed[0].0 != key);
        assert forall|i: int| 0 <= i < seed.drop_first().len() implies #[trigger] seed.drop_first()[i].0
            != key by {
            assert(seed.drop_first()[i] == seed[i + 1]);
        }
        lemma_seed_lookup_absent(seed.drop_first(), key);
    }
}

/// With unique identifiers, the account found for `id` is the one at `i`.
pub proof fn lemma_user_index_unique(us: Seq<UserModel>, id: Seq<char>, i: int)
    requires
        forall|a: int, b: int|
            0 <= a < b < us.len() ==> #[trigger] us[a].id != #[trigger] us[b].id,
        0 <= i < us.len(),
        us[i].id == id,
    ensures
        has_user(us, id),
        user_index(us, id) == i,
{
    assert(has_user(us, id));
    let k: int = user_index(us, id);
    if k < i {
        assert(us[k].id != us[i].id);
    } else if k > i {
        assert(us[i].id != us[k].id);
    }
}

/// With unique identifiers, the market found for `id` is the one at `i`.
pub proof fn lemma_market_index_unique(ms: Seq<MarketModel>, id: Seq<char>, i: int)
    requires
        forall|a: int, b: int|
            0 <= a < b < ms.len() ==> #[trigger] ms[a].id != #[trigger] ms[b].id,
        0 <= i < ms.len(),
        ms[i].id == id,
    ensures
        has_market(ms, id),
        market_index(ms, id) == i,
{
    assert(has_market(ms, id));
    let k: int = market_index(ms, id);
    if k < i {
        assert(ms[k].id != ms[i].id);
    } else if k > i {
        assert(ms[i].id != ms[k].id);
    }
}

/// Two account lists with the same identifiers at the same places hold the
/// same identifiers.
pub proof fn lemma_same_user_ids(us: Seq<UserModel>, us2: Seq<UserModel>)
    requires
        us.len() == us2.len(),
        forall|i: int| 0 <= i < us.len() ==> (#[trigger] us2[i]).id == us[i].id,
    ensures
        forall|x: Seq<char>| #[trigger] has_user(us2, x) == has_user(us, x),
{
    assert forall|x: Seq<char>| #[trigger] has_user(us2, x) == has_user(us, x) by {
        if has_user(us, x) {
            let k: int = choose|k: int| 0 <= k < us.len() && us[k].id == x;
            assert(us2[k].id == x);
        }
        if has_user(us2, x) {
            let k: int = choose|k: int| 0 <= k < us2.len() && us2[k].id == x;
            assert(us[k].id == x);
        }
    }
}

/// Two market lists with the same identifiers at the same places hold the
/// same identifiers.
pub proof fn lemma_same_market_ids(ms: Seq<MarketModel>, ms2: Seq<MarketModel>)
    requires
        ms.len() == ms2.len(),
        forall|i: int| 0 <= i < ms.len() ==> (#[trigger] ms2[i]).id == ms[i].id,
    ensures
        forall|x: Seq<char>| #[trigger] has_market(ms2, x) == has_market(ms, x),
{
    assert forall|x: Seq<char>| #[trigger] has_market(ms2, x) == has_market(ms, x) by {
        if has_market(ms, x) {
            let k: int = choose|k: int| 0 <= k < ms.len() && ms[k].id == x;
            assert(ms2[k].id == x);
        }
        if has_market(ms2, x) {
            let k: int = choose|k: int| 0 <= k < ms2.len() && ms2[k].id == x;
            assert(ms[k].id == x);
        }
    }
}

} // verus!
