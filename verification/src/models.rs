//! Domain models. Play money only: balances and stakes are integer "points".
//!
//! Each model has a mathematical view (`*Model`) over which the contracts of
//! the store are stated.

use vstd::prelude::*;

use crate::parimutuel::total_of;
use crate::text::same_text;

verus! {

/// A participant with a play-money balance.
#[derive(Debug, Clone)]
pub struct User {
    pub id: String,
    pub name: String,
    pub balance: u64,
}

#[derive(Debug, Clone, Copy, PartialEq, Eq)]
pub enum MarketStatus {
    Open,
    Resolved,
}

/// A single binary/multi-outcome market.
///
/// Lifecycle: accepts predictions while **open**; once `closes_at` passes it is
/// **closed** (awaiting the committee); after the committee acts it is
/// **resolved**. `closes_at` is unix seconds; `None` means "no deadline".
///
/// `seed` is an optional house subsidy per outcome, as `(outcome, units)`
/// pairs with distinct outcomes. It gives a fresh market a starting price and
/// is added to the prize pool, but the house never claims a payout: the seed is
/// forfeited at resolution and becomes a bonus split among the real winners.
#[derive(Debug, Clone)]
pub struct Market {
    pub id: String,
    pub question: String,
    pub outcomes: Vec<String>,
    pub status: MarketStatus,
    pub closes_at: Option<u64>,
    /// House seed units per outcome. Absent = no seed.
    pub seed: Vec<(String, u64)>,
    pub winning_outcome: Option<String>,
    pub resolved_by: Option<String>,
    pub resolved_note: Option<String>,
    pub resolved_at: Option<u64>,
}

/// The lifecycle phase a market is in right now (a function of status + clock).
#[derive(Debug, Clone, Copy, PartialEq, Eq)]
pub enum Phase {
    Open,
    Closed,
    Resolved,
}

/// One prediction: `units` points staked on `outcome`.
#[derive(Debug, Clone, PartialEq)]
pub struct Position {
    pub id: String,
    pub market_id: String,
    pub user_id: String,
    pub outcome: String,
    pub units: u64,
}

/// Per-outcome view of a market's pool, in whole units.
#[derive(Debug, Clone)]
pub struct OutcomeStat {
    pub outcome: String,
    /// Real predictor units on this outcome.
    pub real_units: u64,
    /// House seed units on this outcome.
    pub seed_units: u64,
    /// real + seed: what drives the bar and the price.
    pub pool_units: u64,
}

/// Public view of a market's pool: the belief-as-a-price signal.
#[derive(Debug, Clone)]
pub struct PoolView {
    pub market: Market,
    pub phase: Phase,
    /// Total pool driving the price = real stake + house seed.
    pub total_units: u64,
    /// Real predictor stake only (excludes seed): the basis for payouts.
    pub total_real_units: u64,
    pub outcomes: Vec<OutcomeStat>,
}

/// Summary returned when a market resolves.
#[derive(Debug, Clone)]
pub struct ResolutionReceipt {
    pub market_id: String,
    pub winning_outcome: String,
    /// Full prize pool paid out = real stake + forfeited house seed.
    pub total_pool: u64,
    /// The portion that was house subsidy.
    pub seed_subsidy: u64,
    pub winning_units: u64,
    pub refunded: bool,
    /// (user_id, amount credited)
    pub payouts: Vec<(String, u64)>,
}

pub struct UserModel {
    pub id: Seq<char>,
    pub name: Seq<char>,
    pub balance: u64,
}

pub struct MarketModel {
    pub id: Seq<char>,
    pub question: Seq<char>,
    pub outcomes: Seq<Seq<char>>,
    pub status: MarketStatus,
    pub closes_at: Option<u64>,
    pub seed: Seq<(Seq<char>, u64)>,
    pub winning_outcome: Option<Seq<char>>,
    pub resolved_by: Option<Seq<char>>,
    pub resolved_note: Option<Seq<char>>,
    pub resolved_at: Option<u64>,
}

pub struct PositionModel {
    pub id: Seq<char>,
    pub market_id: Seq<char>,
    pub user_id: Seq<char>,
    pub outcome: Seq<char>,
    pub units: u64,
}

pub struct OutcomeStatModel {
    pub outcome: Seq<char>,
    pub real_units: u64,
    pub seed_units: u64,
    pub pool_units: u64,
}

pub struct PoolModel {
    pub market: MarketModel,
    pub phase: Phase,
    pub total_units: u64,
    pub total_real_units: u64,
    pub outcomes: Seq<OutcomeStatModel>,
}

pub struct ReceiptModel {
    pub market_id: Seq<char>,
    pub winning_outcome: Seq<char>,
    pub total_pool: u64,
    pub seed_subsidy: u64,
    pub winning_units: u64,
    pub refunded: bool,
    pub payouts: Seq<(Seq<char>, u64)>,
}

impl View for User {
    type V = UserModel;

    open spec fn view(&self) -> UserModel {
        UserModel { id: self.id@, name: self.name@, balance: self.balance }
    }
}

impl View for Market {
    type V = MarketModel;

    open spec fn view(&self) -> MarketModel {
        MarketModel {
            id: self.id@,
            question: self.question@,
            outcomes: self.outcomes.deep_view(),
            status: self.status,
            closes_at: self.closes_at,
            seed: self.seed.deep_view(),
            winning_outcome: self.winning_outcome.deep_view(),
            resolved_by: self.resolved_by.deep_view(),
            resolved_note: self.resolved_note.deep_view(),
            resolved_at: self.resolved_at,
        }
    }
}

impl View for Position {
    type V = PositionModel;

    open spec fn view(&self) -> PositionModel {
        PositionModel {
            id: self.id@,
            market_id: self.market_id@,
            user_id: self.user_id@,
            outcome: self.outcome@,
            units: self.units,
        }
    }
}

impl View for OutcomeStat {
    type V = OutcomeStatModel;

    open spec fn view(&self) -> OutcomeStatModel {
        OutcomeStatModel {
            outcome: self.outcome@,
            real_units: self.real_units,
            seed_units: self.seed_units,
            pool_units: self.pool_units,
        }
    }
}

impl View for PoolView {
    type V = PoolModel;

    open spec fn view(&self) -> PoolModel {
        PoolModel {
            market: self.market@,
            phase: self.phase,
            total_units: self.total_units,
            total_real_units: self.total_real_units,
            outcomes: self.outcomes@.map_values(|o: OutcomeStat| o@),
        }
    }
}

impl View for ResolutionReceipt {
    type V = ReceiptModel;

    open spec fn view(&self) -> ReceiptModel {
        ReceiptModel {
            market_id: self.market_id@,
            winning_outcome: self.winning_outcome@,
            total_pool: self.total_pool,
            seed_subsidy: self.seed_subsidy,
            winning_units: self.winning_units,
            refunded: self.refunded,
            payouts: self.payouts.deep_view(),
        }
    }
}

/// The seed units of `outcome`: those of the first entry for it, or 0.
pub open spec fn seed_lookup(seed: Seq<(Seq<char>, u64)>, outcome: Seq<char>) -> u64
    decreases seed.len(),
{
    if seed.len() == 0 {
        0
    } else if seed[0].0 == outcome {
        seed[0].1
    } else {
        seed_lookup(seed.drop_first(), outcome)
    }
}

/// The phase of a market at unix time `now`.
pub open spec fn phase_at(m: MarketModel, now: u64) -> Phase {
    match m.status {
        MarketStatus::Resolved => Phase::Resolved,
        MarketStatus::Open => match m.closes_at {
            Some(t) => if now >= t {
                Phase::Closed
            } else {
                Phase::Open
            },
            None => Phase::Open,
        },
    }
}

/// The position of a phase in the lifecycle: open, then closed, then resolved.
pub open spec fn phase_rank(p: Phase) -> nat {
    match p {
        Phase::Open => 0,
        Phase::Closed => 1,
        Phase::Resolved => 2,
    }
}

/// Law: a market's phase never moves backwards as the clock advances.
pub proof fn law_phase_monotone(m: MarketModel, t1: u64, t2: u64)
    requires
        t1 <= t2,
    ensures
        phase_rank(phase_at(m, t1)) <= phase_rank(phase_at(m, t2)),
{
}

pub fn phase_of(m: &Market, now: u64) -> (p: Phase)
    ensures
        p == phase_at(m@, now),
{
    match m.status {
        MarketStatus::Resolved => Phase::Resolved,
        MarketStatus::Open => match m.closes_at {
            Some(t) => if now >= t {
                Phase::Closed
            } else {
                Phase::Open
            },
            None => Phase::Open,
        },
    }
}

/// A copy of a list of strings that keeps every string.
pub fn copy_texts(v: &Vec<String>) -> (r: Vec<String>)
    ensures
        r.deep_view() == v.deep_view(),
{
    let mut r: Vec<String> = Vec::new();
    let mut i: usize = 0;
    while i < v.len()
        invariant
            i <= v.len(),
            r.deep_view() =~= v.deep_view().take(i as int),
        decreases v.len() - i,
    {
        let ghost prev = r.deep_view();
        r.push(v[i].clone());
        assert(r.deep_view() =~= prev.push(v.deep_view()[i as int]));
        assert(v.deep_view().take(i + 1) =~= v.deep_view().take(i as int).push(
            v.deep_view()[i as int],
        ));
        i = i + 1;
    }
    assert(v.deep_view().take(v.len() as int) =~= v.deep_view());
    r
}

/// A copy of a list of `(text, amount)` pairs.
pub fn copy_pairs(v: &Vec<(String, u64)>) -> (r: Vec<(String, u64)>)
    ensures
        r.deep_view() == v.deep_view(),
{
    let mut r: Vec<(String, u64)> = Vec::new();
    let mut i: usize = 0;
    while i < v.len()
        invariant
            i <= v.len(),
            r.deep_view() =~= v.deep_view().take(i as int),
        decreases v.len() - i,
    {
        let ghost prev = r.deep_view();
        r.push((v[i].0.clone(), v[i].1));
        assert(r.deep_view() =~= prev.push(v.deep_view()[i as int]));
        assert(v.deep_view().take(i + 1) =~= v.deep_view().take(i as int).push(
            v.deep_view()[i as int],
        ));
        i = i + 1;
    }
    assert(v.deep_view().take(v.len() as int) =~= v.deep_view());
    r
}

fn copy_opt_text(o: &Option<String>) -> (r: Option<String>)
    ensures
        r.deep_view() == o.deep_view(),
{
    match o {
        Some(s) => Some(s.clone()),
        None => None,
    }
}

impl User {
    /// A copy of this user with the same view.
    pub fn snapshot(&self) -> (r: User)
        ensures
            r@ == self@,
    {
        User { id: self.id.clone(), name: self.name.clone(), balance: self.balance }
    }
}

impl Position {
    /// A copy of this position with the same view.
    pub fn snapshot(&self) -> (r: Position)
        ensures
            r@ == self@,
    {
        Position {
            id: self.id.clone(),
            market_id: self.market_id.clone(),
            user_id: self.user_id.clone(),
            outcome: self.outcome.clone(),
            units: self.units,
        }
    }
}

impl Market {
    /// A copy of this market with the same view.
    pub fn snapshot(&self) -> (r: Market)
        ensures
            r@ == self@,
    {
        Market {
            id: self.id.clone(),
            question: self.question.clone(),
            outcomes: copy_texts(&self.outcomes),
            status: self.status,
            closes_at: self.closes_at,
            seed: copy_pairs(&self.seed),
            winning_outcome: copy_opt_text(&self.winning_outcome),
            resolved_by: copy_opt_text(&self.resolved_by),
            resolved_note: copy_opt_text(&self.resolved_note),
            resolved_at: self.resolved_at,
        }
    }

    /// The total house seed over all outcomes.
    pub fn seed_total(&self) -> (t: u64)
        requires
            total_of(self@.seed) <= u64::MAX,
        ensures
            t == total_of(self@.seed),
    {
        let ghost s = self@.seed;
        let mut t: u64 = 0;
        let mut i: usize = 0;
        while i < self.seed.len()
            invariant
                s == self@.seed,
                s.len() == self.seed.len(),
                total_of(s) <= u64::MAX,
                i <= s.len(),
                t == total_of(s.take(i as int)),
            decreases s.len() - i,
        {
            proof {
                assert(s.take(i + 1).drop_last() =~= s.take(i as int));
                crate::parimutuel::lemma_total_of_take_le(s, i + 1);
            }
            t = t + self.seed[i].1;
            i = i + 1;
        }
        assert(s.take(s.len() as int) =~= s);
        t
    }

    /// The house seed on `outcome` (0 when it has none).
    pub fn seed_of(&self, outcome: &str) -> (v: u64)
        ensures
            v == seed_lookup(self@.seed, outcome@),
    {
        let ghost s = self@.seed;
        let mut i: usize = 0;
        assert(s.skip(0) =~= s);
        while i < self.seed.len()
            invariant
                s == self@.seed,
                s.len() == self.seed.len(),
                i <= s.len(),
                seed_lookup(s, outcome@) == seed_lookup(s.skip(i as int), outcome@),
            decreases s.len() - i,
        {
            if same_text(self.seed[i].0.as_str(), outcome) {
                return self.seed[i].1;
            }
            assert(s.skip(i as int).drop_first() =~= s.skip(i + 1));
            i = i + 1;
        }
        0
    }
}

} // verus!
