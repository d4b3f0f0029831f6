//! The mathematical model of the store: its state, what each operation does to
//! it, the points it holds, and the laws that relate them.

use vstd::prelude::*;

use crate::error::Error;
use crate::models::{
    phase_at, phase_rank, seed_lookup, MarketModel, MarketStatus, OutcomeStatModel, Phase,
    PoolModel, PositionModel, ReceiptModel, UserModel,
};
use crate::parimutuel::{payout_list, total_of};
use crate::text::{bytes_le, id_text};

verus! {

/// Points every new account starts with.
pub const STARTING_BALANCE: u64 = 1000;

/// The whole state of a store.
pub struct StoreModel {
    pub users: Seq<UserModel>,
    pub markets: Seq<MarketModel>,
    pub positions: Seq<PositionModel>,
    /// The counter that the next identifier is made from.
    pub next_id: nat,
}

// ---------------------------------------------------------------------------
// Lookups
// ---------------------------------------------------------------------------

pub open spec fn has_user(us: Seq<UserModel>, id: Seq<char>) -> bool {
    exists|i: int| 0 <= i < us.len() && us[i].id == id
}

/// The index of the account with identifier `id` (meaningful when there is one).
pub open spec fn user_index(us: Seq<UserModel>, id: Seq<char>) -> int {
    choose|i: int| 0 <= i < us.len() && us[i].id == id
}

pub open spec fn has_market(ms: Seq<MarketModel>, id: Seq<char>) -> bool {
    exists|i: int| 0 <= i < ms.len() && ms[i].id == id
}

/// The index of the market with identifier `id` (meaningful when there is one).
pub open spec fn market_index(ms: Seq<MarketModel>, id: Seq<char>) -> int {
    choose|i: int| 0 <= i < ms.len() && ms[i].id == id
}

pub open spec fn has_position(ps: Seq<PositionModel>, id: Seq<char>) -> bool {
    exists|i: int| 0 <= i < ps.len() && ps[i].id == id
}

/// Whether the market with identifier `id` exists and is not resolved.
pub open spec fn market_open(ms: Seq<MarketModel>, id: Seq<char>) -> bool {
    exists|i: int| 0 <= i < ms.len() && ms[i].id == id && ms[i].status == MarketStatus::Open
}

// ---------------------------------------------------------------------------
// Stakes and points
// ---------------------------------------------------------------------------

/// `(user, units)` of every position on market `mid`, in the order placed.
pub open spec fn stakes_of(ps: Seq<PositionModel>, mid: Seq<char>) -> Seq<(Seq<char>, u64)>
    decreases ps.len(),
{
    if ps.len() == 0 {
        Seq::empty()
    } else {
        let rest = stakes_of(ps.drop_last(), mid);
        if ps.last().market_id == mid {
            rest.push((ps.last().user_id, ps.last().units))
        } else {
            rest
        }
    }
}

/// `(user, units)` of every position on outcome `o` of market `mid`, in the
/// order placed.
pub open spec fn outcome_stakes(ps: Seq<PositionModel>, mid: Seq<char>, o: Seq<char>) -> Seq<
    (Seq<char>, u64),
>
    decreases ps.len(),
{
    if ps.len() == 0 {
        Seq::empty()
    } else {
        let rest = outcome_stakes(ps.drop_last(), mid, o);
        if ps.last().market_id == mid && ps.last().outcome == o {
            rest.push((ps.last().user_id, ps.last().units))
        } else {
            rest
        }
    }
}

/// Real units staked on market `mid`.
pub open spec fn market_stake(ps: Seq<PositionModel>, mid: Seq<char>) -> nat {
    total_of(stakes_of(ps, mid))
}

/// Real units staked on outcome `o` of market `mid`.
pub open spec fn outcome_stake(ps: Seq<PositionModel>, mid: Seq<char>, o: Seq<char>) -> nat {
    total_of(outcome_stakes(ps, mid, o))
}

/// The positions of user `uid`, in the order placed.
pub open spec fn positions_by(ps: Seq<PositionModel>, uid: Seq<char>) -> Seq<PositionModel>
    decreases ps.len(),
{
    if ps.len() == 0 {
        Seq::empty()
    } else {
        let rest = positions_by(ps.drop_last(), uid);
        if ps.last().user_id == uid {
            rest.push(ps.last())
        } else {
            rest
        }
    }
}

/// The sum of all account balances.
pub open spec fn balance_total(us: Seq<UserModel>) -> nat
    decreases us.len(),
{
    if us.len() == 0 {
        0
    } else {
        balance_total(us.drop_last()) + us.last().balance as nat
    }
}

/// Units staked on markets that are not yet resolved.
pub open spec fn open_stake(ps: Seq<PositionModel>, ms: Seq<MarketModel>) -> nat
    decreases ps.len(),
{
    if ps.len() == 0 {
        0
    } else {
        open_stake(ps.drop_last(), ms) + if market_open(ms, ps.last().market_id) {
            ps.last().units as nat
        } else {
            0
        }
    }
}

/// The house seed of one market while it is unresolved.
pub open spec fn live_seed(m: MarketModel) -> nat {
    if m.status == MarketStatus::Open {
        total_of(m.seed)
    } else {
        0
    }
}

/// House seed on markets that are not yet resolved.
pub open spec fn open_seed(ms: Seq<MarketModel>) -> nat
    decreases ms.len(),
{
    if ms.len() == 0 {
        0
    } else {
        open_seed(ms.drop_last()) + live_seed(ms.last())
    }
}

/// All points in play: balances, stakes in unresolved markets, and house seed
/// on unresolved markets.
pub open spec fn points_in_play(s: StoreModel) -> nat {
    balance_total(s.users) + open_stake(s.positions, s.markets) + open_seed(s.markets)
}

// ---------------------------------------------------------------------------
// Well-formedness
// ---------------------------------------------------------------------------

/// No two accounts share an identifier.
pub open spec fn unique_user_ids(us: Seq<UserModel>) -> bool {
    forall|i: int, j: int| 0 <= i < j < us.len() ==> #[trigger] us[i].id != #[trigger] us[j].id
}

/// No two seed entries are for the same outcome.
pub open spec fn distinct_keys(seed: Seq<(Seq<char>, u64)>) -> bool {
    forall|i: int, j: int| 0 <= i < j < seed.len() ==> #[trigger] seed[i].0 != #[trigger] seed[j].0
}

/// No two markets share an identifier.
pub open spec fn unique_market_ids(ms: Seq<MarketModel>) -> bool {
    forall|i: int, j: int| 0 <= i < j < ms.len() ==> #[trigger] ms[i].id != #[trigger] ms[j].id
}

/// What every store keeps: identifiers are unique and were never handed out
/// from a counter value at or past `next_id`; every position is positive and
/// belongs to an existing account and to one of the listed outcomes of an
/// existing market; each market seeds an outcome at
/// most once; each market's pool fits in a `u64`; and all points in play fit
/// in a `u64`.
pub open spec fn well_formed(s: StoreModel) -> bool {
    &&& unique_user_ids(s.users)
    &&& forall|k: nat| k >= s.next_id ==> !has_user(s.users, #[trigger] id_text("u"@, k))
    &&& unique_market_ids(s.markets)
    &&& forall|k: nat| k >= s.next_id ==> !has_market(s.markets, #[trigger] id_text("m"@, k))
    &&& forall|i: int|
        #![trigger s.positions[i]]
        0 <= i < s.positions.len() ==> {
            &&& s.positions[i].units > 0
            &&& has_user(s.users, s.positions[i].user_id)
            &&& has_market(s.markets, s.positions[i].market_id)
            &&& s.markets[market_index(s.markets, s.positions[i].market_id)].outcomes.contains(
                s.positions[i].outcome,
            )
        }
    &&& forall|k: nat| k >= s.next_id ==> !has_position(s.positions, #[trigger] id_text("p"@, k))
    &&& forall|i: int|
        #![trigger s.markets[i]]
        0 <= i < s.markets.len() ==> distinct_keys(s.markets[i].seed)
    &&& forall|i: int|
        0 <= i < s.markets.len() ==> market_stake(s.positions, #[trigger] s.markets[i].id)
            + total_of(s.markets[i].seed) <= u64::MAX
    &&& points_in_play(s) <= u64::MAX
}

pub open spec fn empty_store() -> StoreModel {
    StoreModel { users: Seq::empty(), markets: Seq::empty(), positions: Seq::empty(), next_id: 1 }
}

// ---------------------------------------------------------------------------
// Operations
// ---------------------------------------------------------------------------

/// The store after registering an account named `name`.
pub open spec fn after_register(s: StoreModel, name: Seq<char>) -> StoreModel {
    StoreModel {
        users: s.users.push(
            UserModel { id: id_text("u"@, s.next_id), name, balance: STARTING_BALANCE },
        ),
        next_id: s.next_id + 1,
        ..s
    }
}

/// The outcomes of `s` without repeats, each kept at its first occurrence.
pub open spec fn distinct(s: Seq<Seq<char>>) -> Seq<Seq<char>>
    decreases s.len(),
{
    if s.len() == 0 {
        Seq::empty()
    } else {
        let d = distinct(s.drop_last());
        if d.contains(s.last()) {
            d
        } else {
            d.push(s.last())
        }
    }
}

/// The house seed of a new market: `seed` units on each distinct outcome, or
/// none when `seed` is zero.
pub open spec fn seed_entries(outcomes: Seq<Seq<char>>, seed: u64) -> Seq<(Seq<char>, u64)> {
    if seed == 0 {
        Seq::empty()
    } else {
        distinct(outcomes).map_values(|o: Seq<char>| (o, seed))
    }
}

/// The market that `after_open_market` adds.
pub open spec fn new_market(
    s: StoreModel,
    question: Seq<char>,
    outcomes: Seq<Seq<char>>,
    closes_at: Option<u64>,
    seed: u64,
) -> MarketModel {
    MarketModel {
        id: id_text("m"@, s.next_id),
        question,
        outcomes,
        status: MarketStatus::Open,
        closes_at,
        seed: seed_entries(outcomes, seed),
        winning_outcome: None,
        resolved_by: None,
        resolved_note: None,
        resolved_at: None,
    }
}

/// The store after opening a market.
pub open spec fn after_open_market(
    s: StoreModel,
    question: Seq<char>,
    outcomes: Seq<Seq<char>>,
    closes_at: Option<u64>,
    seed: u64,
) -> StoreModel {
    StoreModel {
        markets: s.markets.push(new_market(s, question, outcomes, closes_at, seed)),
        next_id: s.next_id + 1,
        ..s
    }
}

/// Why a prediction is refused, checked in this order; `None` when it is
/// accepted.
pub open spec fn predict_failure(
    s: StoreModel,
    mid: Seq<char>,
    uid: Seq<char>,
    outcome: Seq<char>,
    units: u64,
    now: u64,
) -> Option<Error> {
    if units == 0 {
        Some(Error::ZeroUnits)
    } else if !has_market(s.markets, mid) {
        Some(Error::MarketNotFound)
    } else {
        let m = s.markets[market_index(s.markets, mid)];
        match phase_at(m, now) {
            Phase::Resolved => Some(Error::MarketResolved),
            Phase::Closed => Some(Error::PredictionsClosed),
            Phase::Open => if !m.outcomes.contains(outcome) {
                Some(Error::UnknownOutcome)
            } else if !has_user(s.users, uid) {
                Some(Error::UserNotFound)
            } else {
                let b = s.users[user_index(s.users, uid)].balance;
                if b < units {
                    Some(Error::InsufficientBalance { have: b, need: units })
                } else {
                    None
                }
            },
        }
    }
}

/// The position an accepted prediction records.
pub open spec fn placed_position(
    s: StoreModel,
    mid: Seq<char>,
    uid: Seq<char>,
    outcome: Seq<char>,
    units: u64,
) -> PositionModel {
    PositionModel { id: id_text("p"@, s.next_id), market_id: mid, user_id: uid, outcome, units }
}

/// The store after an accepted prediction: the stake leaves the account and
/// the position is recorded.
pub open spec fn after_predict(
    s: StoreModel,
    mid: Seq<char>,
    uid: Seq<char>,
    outcome: Seq<char>,
    units: u64,
) -> StoreModel {
    let i: int = user_index(s.users, uid);
    StoreModel {
        users: s.users.update(
            i,
            UserModel { balance: (s.users[i].balance - units) as u64, ..s.users[i] },
        ),
        markets: s.markets,
        positions: s.positions.push(placed_position(s, mid, uid, outcome, units)),
        next_id: s.next_id + 1,
    }
}

/// Why a resolution is refused, checked in this order; `None` when it is
/// accepted. A timed market can only be resolved once its window has closed;
/// one without a deadline is closed by resolving it.
pub open spec fn resolve_failure(s: StoreModel, mid: Seq<char>, outcome: Seq<char>, now: u64) -> Option<
    Error,
> {
    if !has_market(s.markets, mid) {
        Some(Error::MarketNotFound)
    } else {
        let m = s.markets[market_index(s.markets, mid)];
        if phase_at(m, now) == Phase::Resolved {
            Some(Error::MarketResolved)
        } else if phase_at(m, now) == Phase::Open && m.closes_at is Some {
            Some(Error::TooEarlyToResolve)
        } else if !m.outcomes.contains(outcome) {
            Some(Error::UnknownOutcome)
        } else {
            None
        }
    }
}

/// The receipt of an accepted resolution. When someone backed the winning
/// outcome, the whole pool (real stake plus house seed) is split pro rata
/// among those positions; otherwise every stake is refunded and the seed is
/// forfeited.
pub open spec fn settlement(s: StoreModel, mid: Seq<char>, outcome: Seq<char>) -> ReceiptModel {
    let m = s.markets[market_index(s.markets, mid)];
    let stake: nat = market_stake(s.positions, mid);
    let seed: nat = total_of(m.seed);
    let ws = outcome_stakes(s.positions, mid, outcome);
    if ws.len() == 0 {
        ReceiptModel {
            market_id: mid,
            winning_outcome: outcome,
            total_pool: stake as u64,
            seed_subsidy: 0,
            winning_units: 0,
            refunded: true,
            payouts: stakes_of(s.positions, mid),
        }
    } else {
        ReceiptModel {
            market_id: mid,
            winning_outcome: outcome,
            total_pool: (stake + seed) as u64,
            seed_subsidy: seed as u64,
            winning_units: total_of(ws) as u64,
            refunded: false,
            payouts: if total_of(ws) == 0 {
                Seq::empty()
            } else {
                payout_list(stake + seed, ws)
            },
        }
    }
}

/// The accounts after crediting `amount` to account `uid`, if it exists.
pub open spec fn credit(us: Seq<UserModel>, uid: Seq<char>, amount: u64) -> Seq<UserModel> {
    if has_user(us, uid) {
        let i: int = user_index(us, uid);
        us.update(i, UserModel { balance: (us[i].balance + amount) as u64, ..us[i] })
    } else {
        us
    }
}

/// The accounts after crediting each `(user, amount)` in turn.
pub open spec fn apply_credits(us: Seq<UserModel>, cs: Seq<(Seq<char>, u64)>) -> Seq<UserModel>
    decreases cs.len(),
{
    if cs.len() == 0 {
        us
    } else {
        credit(apply_credits(us, cs.drop_last()), cs.last().0, cs.last().1)
    }
}

/// The market as an accepted resolution leaves it: resolved, with the
/// committee's action recorded.
pub open spec fn resolved_market(
    m: MarketModel,
    outcome: Seq<char>,
    by: Seq<char>,
    note: Seq<char>,
    now: u64,
) -> MarketModel {
    MarketModel {
        status: MarketStatus::Resolved,
        winning_outcome: Some(outcome),
        resolved_by: Some(by),
        resolved_note: Some(note),
        resolved_at: Some(now),
        ..m
    }
}

/// The store after an accepted resolution.
pub open spec fn after_resolve(
    s: StoreModel,
    mid: Seq<char>,
    outcome: Seq<char>,
    by: Seq<char>,
    note: Seq<char>,
    now: u64,
) -> StoreModel {
    let i: int = market_index(s.markets, mid);
    StoreModel {
        users: apply_credits(s.users, settlement(s, mid, outcome).payouts),
        markets: s.markets.update(i, resolved_market(s.markets[i], outcome, by, note, now)),
        positions: s.positions,
        next_id: s.next_id,
    }
}

/// The order of the market list: by phase (open, closed, resolved), then by
/// question.
pub open spec fn listed_before(a: MarketModel, b: MarketModel, now: u64) -> bool {
    phase_rank(phase_at(a, now)) < phase_rank(phase_at(b, now)) || (phase_rank(phase_at(a, now))
        == phase_rank(phase_at(b, now)) && bytes_le(
        vstd::utf8::encode_utf8(a.question),
        vstd::utf8::encode_utf8(b.question),
    ))
}

pub open spec fn listing_sorted(ms: Seq<MarketModel>, now: u64) -> bool {
    forall|i: int, j: int| 0 <= i < j < ms.len() ==> listed_before(#[trigger] ms[i], #[trigger] ms[j], now)
}

/// The units on outcome `o` of market `m` (whose identifier is `mid`).
pub open spec fn outcome_stat(s: StoreModel, mid: Seq<char>, m: MarketModel, o: Seq<char>) -> OutcomeStatModel {
    OutcomeStatModel {
        outcome: o,
        real_units: outcome_stake(s.positions, mid, o) as u64,
        seed_units: seed_lookup(m.seed, o),
        pool_units: (outcome_stake(s.positions, mid, o) + seed_lookup(m.seed, o)) as u64,
    }
}

/// The pool view of market `mid` at time `now`.
pub open spec fn pool_of(s: StoreModel, mid: Seq<char>, now: u64) -> PoolModel {
    let m = s.markets[market_index(s.markets, mid)];
    let stake: nat = market_stake(s.positions, mid);
    PoolModel {
        market: m,
        phase: phase_at(m, now),
        total_units: (stake + total_of(m.seed)) as u64,
        total_real_units: stake as u64,
        outcomes: m.outcomes.map_values(|o: Seq<char>| outcome_stat(s, mid, m, o)),
    }
}

} // verus!
