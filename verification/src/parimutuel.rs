//! Pure parimutuel math, kept apart from storage so the money logic stands on
//! its own.
//!
//! All stakes go into one pool; when the outcome is known, the whole pool is
//! split across the winning units in proportion to stake. Each share is
//! floored; the dust from integer division stays with the house.

use vstd::prelude::*;

verus! {

/// The sum of the amounts in a list of `(holder, amount)` pairs.
pub open spec fn total_of(ws: Seq<(Seq<char>, u64)>) -> nat
    decreases ws.len(),
{
    if ws.len() == 0 {
        0
    } else {
        total_of(ws.drop_last()) + ws.last().1 as nat
    }
}

/// The floored pro-rata share of `pool` for `units` out of `winning` units.
pub open spec fn share(units: nat, pool: nat, winning: nat) -> nat {
    units * pool / winning
}

/// Each winner's holder with the floored share of `pool` for its units.
pub open spec fn payout_list(pool: nat, ws: Seq<(Seq<char>, u64)>) -> Seq<(Seq<char>, u64)> {
    ws.map_values(|w: (Seq<char>, u64)| (w.0, share(w.1 as nat, pool, total_of(ws)) as u64))
}

pub proof fn lemma_total_of_take_le(ws: Seq<(Seq<char>, u64)>, i: int)
    requires
        0 <= i <= ws.len(),
    ensures
        total_of(ws.take(i)) <= total_of(ws),
    decreases ws.len() - i,
{
    if i < ws.len() {
        lemma_total_of_take_le(ws, i + 1);
        assert(ws.take(i + 1).drop_last() =~= ws.take(i));
    } else {
        assert(ws.take(i) =~= ws);
    }
}

pub proof fn lemma_element_le_total(ws: Seq<(Seq<char>, u64)>, i: int)
    requires
        0 <= i < ws.len(),
    ensures
        ws[i].1 <= total_of(ws),
{
    lemma_total_of_take_le(ws, i + 1);
    assert(ws.take(i + 1).drop_last() =~= ws.take(i));
}

pub proof fn lemma_total_of_push(ws: Seq<(Seq<char>, u64)>, w: (Seq<char>, u64))
    ensures
        total_of(ws.push(w)) == total_of(ws) + w.1,
{
    assert(ws.push(w).drop_last() =~= ws);
}

/// A share never exceeds the pool when the units are part of the winning units.
pub proof fn lemma_share_le_pool(units: nat, pool: nat, winning: nat)
    requires
        units <= winning,
        winning > 0,
    ensures
        share(units, pool, winning) <= pool,
{
    assert(units * pool <= winning * pool) by (nonlinear_arith)
        requires
            units <= winning,
    ;
    vstd::arithmetic::div_mod::lemma_div_is_ordered(
        (units * pool) as int,
        (winning * pool) as int,
        winning as int,
    );
    vstd::arithmetic::div_mod::lemma_div_multiples_vanish(pool as int, winning as int);
    assert(winning * pool == pool * winning) by (nonlinear_arith);
}

/// The sum of the floored shares of `pool` for the units in `ws`, each taken
/// out of `winning` units.
pub open spec fn shares_total(ws: Seq<(Seq<char>, u64)>, pool: nat, winning: nat) -> nat
    decreases ws.len(),
{
    if ws.len() == 0 {
        0
    } else {
        shares_total(ws.drop_last(), pool, winning) + share(ws.last().1 as nat, pool, winning)
    }
}

proof fn lemma_shares_total_bounds(ws: Seq<(Seq<char>, u64)>, pool: nat, winning: nat)
    requires
        winning > 0,
    ensures
        shares_total(ws, pool, winning) * winning <= total_of(ws) * pool,
        total_of(ws) * pool < (shares_total(ws, pool, winning) + ws.len()) * winning || ws.len()
            == 0,
    decreases ws.len(),
{
    if ws.len() > 0 {
        let rest = ws.drop_last();
        lemma_shares_total_bounds(rest, pool, winning);
        let a: nat = ws.last().1 as nat * pool;
        let f: nat = share(ws.last().1 as nat, pool, winning);
        vstd::arithmetic::div_mod::lemma_fundamental_div_mod(a as int, winning as int);
        vstd::arithmetic::div_mod::lemma_remainder(a as int, winning as int);
        let r: int = (a as int) % (winning as int);
        let s0 = shares_total(rest, pool, winning);
        let t0: nat = total_of(rest);
        let u: nat = ws.last().1 as nat;
        assert(f * winning <= a && a < (f + 1) * winning) by (nonlinear_arith)
            requires
                a == winning * f + r,
                0 <= r < winning,
        ;
        assert((s0 + f) * winning <= (t0 + u) * pool) by (nonlinear_arith)
            requires
                s0 * winning <= t0 * pool,
                f * winning <= a,
                a == u * pool,
        ;
        if rest.len() == 0 {
            assert(t0 == 0);
            assert(s0 == 0);
            assert((t0 + u) * pool < (s0 + f + 1) * winning) by (nonlinear_arith)
                requires
                    t0 == 0,
                    s0 == 0,
                    a < (f + 1) * winning,
                    a == u * pool,
            ;
        } else {
            assert((t0 + u) * pool < (s0 + f + rest.len() + 1) * winning) by (nonlinear_arith)
                requires
                    t0 * pool < (s0 + rest.len()) * winning,
                    a < (f + 1) * winning,
                    a == u * pool,
            ;
        }
        assert(ws.len() == rest.len() + 1);
    } else {
        assert(0 * winning <= 0 * pool) by (nonlinear_arith);
    }
}

proof fn lemma_payout_list_total(pool: nat, ws: Seq<(Seq<char>, u64)>, winning: nat, k: int)
    requires
        0 <= k <= ws.len(),
        winning == total_of(ws),
        winning > 0,
        pool <= u64::MAX,
    ensures
        total_of(payout_list(pool, ws).take(k)) == shares_total(ws.take(k), pool, winning),
    decreases k,
{
    if k > 0 {
        lemma_payout_list_total(pool, ws, winning, k - 1);
        let pl = payout_list(pool, ws);
        assert(pl.take(k).drop_last() =~= pl.take(k - 1));
        assert(ws.take(k).drop_last() =~= ws.take(k - 1));
        lemma_element_le_total(ws, k - 1);
        lemma_share_le_pool(ws[k - 1].1 as nat, pool, winning);
    }
}

/// Law: the payouts of a settled pool add up to at most the pool, and the
/// dust left over is less than one point per winning position.
pub proof fn law_payouts_within_pool(pool: nat, ws: Seq<(Seq<char>, u64)>)
    requires
        total_of(ws) > 0,
        pool <= u64::MAX,
    ensures
        total_of(payout_list(pool, ws)) <= pool,
        pool < total_of(payout_list(pool, ws)) + ws.len(),
{
    let w: nat = total_of(ws);
    lemma_payout_list_total(pool, ws, w, ws.len() as int);
    assert(payout_list(pool, ws).take(ws.len() as int) =~= payout_list(pool, ws));
    assert(ws.take(ws.len() as int) =~= ws);
    lemma_shares_total_bounds(ws, pool, w);
    let s: nat = shares_total(ws, pool, w);
    assert(s <= pool) by (nonlinear_arith)
        requires
            s * w <= w * pool,
            w > 0,
    ;
    assert(ws.len() > 0);
    assert(pool < s + ws.len()) by (nonlinear_arith)
        requires
            w * pool < (s + ws.len()) * w,
            w > 0,
    ;
}

/// Law: when the pool holds at least the winning units (it always holds the
/// winners' own stakes), no winner gets back less than it staked.
pub proof fn law_winner_recovers_stake(pool: nat, ws: Seq<(Seq<char>, u64)>, i: int)
    requires
        0 <= i < ws.len(),
        total_of(ws) <= pool <= u64::MAX,
        total_of(ws) > 0,
    ensures
        payout_list(pool, ws)[i].1 >= ws[i].1,
{
    let w: nat = total_of(ws);
    let u: nat = ws[i].1 as nat;
    lemma_element_le_total(ws, i);
    lemma_share_le_pool(u, pool, w);
    assert(u * w <= u * pool) by (nonlinear_arith)
        requires
            w <= pool,
    ;
    vstd::arithmetic::div_mod::lemma_div_is_ordered((u * w) as int, (u * pool) as int, w as int);
    vstd::arithmetic::div_mod::lemma_div_multiples_vanish(u as int, w as int);
    assert(u * w == w * u) by (nonlinear_arith);
}

/// Compute payouts for the winning positions given the full pool.
///
/// Returns `(winning_units, payouts)` where `payouts[i]` corresponds to
/// `winning[i]`: its holder and the floored share `units * pool / winning_units`.
/// If there are no winning units the payouts are empty, and the caller should
/// refund stakes instead.
pub fn payouts(total_pool: u64, winning: &[(String, u64)]) -> (r: (u64, Vec<(String, u64)>))
    requires
        total_of(winning.deep_view()) <= u64::MAX,
    ensures
        r.0 == total_of(winning.deep_view()),
        r.1.deep_view() == (if r.0 == 0 {
            Seq::empty()
        } else {
            payout_list(total_pool as nat, winning.deep_view())
        }),
{
    let ghost ws = winning.deep_view();
    let mut winning_units: u64 = 0;
    let mut i: usize = 0;
    while i < winning.len()
        invariant
            ws == winning.deep_view(),
            total_of(ws) <= u64::MAX,
            i <= winning.len(),
            winning_units == total_of(ws.take(i as int)),
        decreases winning.len() - i,
    {
        proof {
            assert(ws.take(i + 1).drop_last() =~= ws.take(i as int));
            lemma_total_of_take_le(ws, i + 1);
        }
        winning_units = winning_units + winning[i].1;
        i = i + 1;
    }
    assert(ws.take(winning.len() as int) =~= ws);
    let mut out: Vec<(String, u64)> = Vec::new();
    if winning_units == 0 {
        assert(out.deep_view() =~= Seq::<(Seq<char>, u64)>::empty());
        return (0, out);
    }
    let mut j: usize = 0;
    while j < winning.len()
        invariant
            ws == winning.deep_view(),
            winning_units == total_of(ws),
            winning_units > 0,
            j <= winning.len(),
            out.deep_view() =~= payout_list(total_pool as nat, ws).take(j as int),
        decreases winning.len() - j,
    {
        let units: u64 = winning[j].1;
        proof {
            lemma_element_le_total(ws, j as int);
            lemma_share_le_pool(units as nat, total_pool as nat, winning_units as nat);
            assert((units as nat) * (total_pool as nat) <= u64::MAX * u64::MAX) by (nonlinear_arith)
                requires
                    units <= u64::MAX,
                    total_pool <= u64::MAX,
            ;
        }
        let amount: u128 = (units as u128) * (total_pool as u128) / (winning_units as u128);
        let holder: String = winning[j].0.clone();
        let ghost prev = out.deep_view();
        out.push((holder, amount as u64));
        proof {
            assert(amount == share(units as nat, total_pool as nat, winning_units as nat));
            assert(ws[j as int] == winning@[j as int].deep_view());
            assert(holder@ == ws[j as int].0);
            assert(out.deep_view() =~= prev.push((ws[j as int].0, amount as u64)));
            let pl = payout_list(total_pool as nat, ws);
            assert(pl[j as int] == (ws[j as int].0, amount as u64));
            assert(out.deep_view() =~= payout_list(total_pool as nat, ws).take(j + 1));
        }
        j = j + 1;
    }
    assert(payout_list(total_pool as nat, ws).take(winning.len() as int) =~= payout_list(
        total_pool as nat,
        ws,
    ));
    (winning_units, out)
}

} // verus!
