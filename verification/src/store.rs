//! Storage: an in-memory store of accounts, markets and positions.
//!
//! Every mutating operation takes the store by `&mut`, so a balance debit and
//! the position it pays for happen together: you cannot overspend a balance by
//! racing two predictions.

use vstd::prelude::*;

use crate::accounting::{
    lemma_apply_credits, lemma_balance_le_total, lemma_market_index_unique,
    lemma_outcome_stake_le, lemma_seed_lookup_le, lemma_user_index_unique,
};
use crate::error::Error;
use crate::ledger::{
    after_open_market, after_predict, after_register, after_resolve, apply_credits,
    balance_total, credit, distinct, empty_store, has_market, has_user, listed_before,
    listing_sorted, market_index, market_stake, outcome_stakes,
    outcome_stat, placed_position, points_in_play, pool_of, positions_by, predict_failure,
    resolve_failure, seed_entries, settlement, stakes_of, unique_market_ids,
    unique_user_ids, user_index, well_formed, StoreModel, STARTING_BALANCE,
};
use crate::laws::{
    law_listing_total, law_listing_transitive, law_new_store, law_open_market, law_predict,
    law_register, law_resolve, lemma_insert_sorted, lemma_settlement_fits,
};
use crate::models::{
    phase_of, phase_rank, Market, MarketModel, MarketStatus, OutcomeStat, Phase,
    PoolView, Position, ResolutionReceipt, User,
};
use crate::parimutuel::{payouts, total_of};
use crate::text::{id_text, make_id, same_text, text_le, trim_text, trimmed};

verus! {

/// The current unix time in seconds: `SystemTime::now` measured from
/// `UNIX_EPOCH` with `duration_since` and `as_secs`, or 0 if the clock reads
/// before the epoch. Nothing is stated of the result: it depends on the clock.
#[verifier::external_body]
pub fn now() -> u64 {
    std::time::SystemTime::now().duration_since(std::time::UNIX_EPOCH).map(|d| d.as_secs()).unwrap_or(0)
}

/// Whether some entry of `v` has key `key`.
fn has_key(v: &Vec<(String, u64)>, key: &str) -> (r: bool)
    ensures
        r == exists|j: int| 0 <= j < v.deep_view().len() && v.deep_view()[j].0 == key@,
{
    let mut k: usize = 0;
    while k < v.len()
        invariant
            k <= v.len(),
            forall|j: int| 0 <= j < k ==> v.deep_view()[j].0 != key@,
        decreases v.len() - k,
    {
        if same_text(v[k].0.as_str(), key) {
            assert(v.deep_view()[k as int].0 == key@);
            return true;
        }
        k = k + 1;
    }
    false
}

/// The house seed of a new market: `seed` units on each distinct outcome.
fn build_seed(outcomes: &Vec<String>, seed: u64) -> (r: Vec<(String, u64)>)
    ensures
        r.deep_view() == seed_entries(outcomes.deep_view(), seed),
{
    let mut r: Vec<(String, u64)> = Vec::new();
    if seed == 0 {
        assert(r.deep_view() =~= Seq::<(Seq<char>, u64)>::empty());
        return r;
    }
    let ghost os = outcomes.deep_view();
    let mut i: usize = 0;
    assert(os.take(0) =~= Seq::<Seq<char>>::empty());
    assert(r.deep_view() =~= distinct(os.take(0)).map_values(|o: Seq<char>| (o, seed)));
    while i < outcomes.len()
        invariant
            os == outcomes.deep_view(),
            i <= outcomes.len(),
            seed > 0,
            r.deep_view() =~= distinct(os.take(i as int)).map_values(|o: Seq<char>| (o, seed)),
        decreases outcomes.len() - i,
    {
        let ghost d = distinct(os.take(i as int));
        assert(os.take(i + 1).drop_last() =~= os.take(i as int));
        assert(os.take(i + 1).last() == os[i as int]);
        let found = has_key(&r, outcomes[i].as_str());
        proof {
            if d.contains(os[i as int]) {
                let j: int = choose|j: int| 0 <= j < d.len() && d[j] == os[i as int];
                assert(r.deep_view()[j].0 == os[i as int]);
            }
            if found {
                let j: int = choose|j: int|
                    0 <= j < r.deep_view().len() && r.deep_view()[j].0 == outcomes[i as int]@;
                assert(d[j] == os[i as int]);
            }
        }
        if !found {
            let ghost prev = r.deep_view();
            r.push((outcomes[i].clone(), seed));
            assert(r.deep_view() =~= prev.push((os[i as int], seed)));
        }
        i = i + 1;
    }
    assert(os.take(outcomes.len() as int) =~= os);
    r
}

/// Whether `v` holds `x`.
fn contains_text(v: &Vec<String>, x: &str) -> (r: bool)
    ensures
        r == v.deep_view().contains(x@),
{
    let mut k: usize = 0;
    while k < v.len()
        invariant
            k <= v.len(),
            forall|j: int| 0 <= j < k ==> v.deep_view()[j] != x@,
        decreases v.len() - k,
    {
        if same_text(v[k].as_str(), x) {
            assert(v.deep_view()[k as int] == x@);
            return true;
        }
        k = k + 1;
    }
    false
}

/// Whether `r`, with the store left as `s2`, is what a prediction on store
/// `s` at time `now` gives: the refusal that `predict_failure` names with the
/// store untouched, or the recorded position with the stake debited.
pub open spec fn predicted(
    s: StoreModel,
    s2: StoreModel,
    r: Result<Position, Error>,
    mid: Seq<char>,
    uid: Seq<char>,
    outcome: Seq<char>,
    units: u64,
    now: u64,
) -> bool {
    match r {
        Ok(p) => {
            &&& predict_failure(s, mid, uid, outcome, units, now) is None
            &&& p@ == placed_position(s, mid, uid, outcome, units)
            &&& s2 == after_predict(s, mid, uid, outcome, units)
        },
        Err(e) => {
            &&& predict_failure(s, mid, uid, outcome, units, now) == Some(e)
            &&& s2 == s
        },
    }
}

/// The sum of the amounts in `v`.
fn sum_amounts(v: &Vec<(String, u64)>) -> (t: u64)
    requires
        total_of(v.deep_view()) <= u64::MAX,
    ensures
        t == total_of(v.deep_view()),
{
    let ghost s = v.deep_view();
    let mut t: u64 = 0;
    let mut i: usize = 0;
    while i < v.len()
        invariant
            s == v.deep_view(),
            total_of(s) <= u64::MAX,
            i <= v.len(),
            t == total_of(s.take(i as int)),
        decreases v.len() - i,
    {
        proof {
            assert(s.take(i + 1).drop_last() =~= s.take(i as int));
            crate::parimutuel::lemma_total_of_take_le(s, i + 1);
        }
        t = t + v[i].1;
        i = i + 1;
    }
    assert(s.take(v.len() as int) =~= s);
    t
}

/// Whether `r`, with the store left as `s2`, is what a resolution on store
/// `s` at time `now` gives: the refusal that `resolve_failure` names with the
/// store untouched, or the settlement with its credits applied and the market
/// marked resolved.
pub open spec fn resolved(
    s: StoreModel,
    s2: StoreModel,
    r: Result<ResolutionReceipt, Error>,
    mid: Seq<char>,
    outcome: Seq<char>,
    by: Seq<char>,
    note: Seq<char>,
    now: u64,
) -> bool {
    match r {
        Ok(rc) => {
            &&& resolve_failure(s, mid, outcome, now) is None
            &&& rc@ == settlement(s, mid, outcome)
            &&& s2 == after_resolve(s, mid, outcome, by, note, now)
        },
        Err(e) => {
            &&& resolve_failure(s, mid, outcome, now) == Some(e)
            &&& s2 == s
        },
    }
}

/// The views of a list of markets.
pub open spec fn market_views(ms: Seq<Market>) -> Seq<MarketModel> {
    ms.map_values(|m: Market| m@)
}

fn rank(p: Phase) -> (r: u8)
    ensures
        r == phase_rank(p),
{
    match p {
        Phase::Open => 0,
        Phase::Closed => 1,
        Phase::Resolved => 2,
    }
}

/// Whether `a` comes no later than `b` in the market list at time `now`.
fn listed_le(a: &Market, b: &Market, now: u64) -> (r: bool)
    ensures
        r == listed_before(a@, b@, now),
{
    let ra: u8 = rank(phase_of(a, now));
    let rb: u8 = rank(phase_of(b, now));
    if ra < rb {
        true
    } else if ra > rb {
        false
    } else {
        text_le(a.question.as_str(), b.question.as_str())
    }
}

/// The in-memory store.
pub struct MemStore {
    users: Vec<User>,
    markets: Vec<Market>,
    positions: Vec<Position>,
    next_id: u64,
    in_play: u64,
}

impl View for MemStore {
    type V = StoreModel;

    closed spec fn view(&self) -> StoreModel {
        StoreModel {
            users: self.users@.map_values(|u: User| u@),
            markets: self.markets@.map_values(|m: Market| m@),
            positions: self.positions@.map_values(|p: Position| p@),
            next_id: self.next_id as nat,
        }
    }
}

impl MemStore {
    /// The store's invariant (see `well_formed`), with its count of the points
    /// in play kept current.
    pub closed spec fn wf(&self) -> bool {
        &&& well_formed(self@)
        &&& self.in_play == points_in_play(self@)
    }

    /// The store's invariant, stated over its model, so that callers can apply
    /// the laws of `crate::laws` to a store they hold.
    pub proof fn model_well_formed(&self)
        requires
            self.wf(),
        ensures
            well_formed(self@),
    {
    }

    /// An empty store.
    pub fn new() -> (r: MemStore)
        ensures
            r.wf(),
            r@ == empty_store(),
            points_in_play(r@) == 0,
    {
        let r = MemStore {
            users: Vec::new(),
            markets: Vec::new(),
            positions: Vec::new(),
            next_id: 1,
            in_play: 0,
        };
        proof {
            assert(r@.users =~= Seq::empty());
            assert(r@.markets =~= Seq::empty());
            assert(r@.positions =~= Seq::empty());
            law_new_store();
        }
        r
    }

    /// All points in play: balances, stakes and house seed on unresolved
    /// markets. Registering an account or opening a seeded market needs room
    /// for its points below `u64::MAX`.
    pub fn points_in_play(&self) -> (r: u64)
        requires
            self.wf(),
        ensures
            r == points_in_play(self@),
    {
        self.in_play
    }

    /// The counter value the next identifier is made from. Operations that
    /// hand out an identifier need it below `u64::MAX`.
    pub fn next_serial(&self) -> (r: u64)
        ensures
            r == self@.next_id,
    {
        self.next_id
    }

    fn find_user(&self, id: &str) -> (r: Option<usize>)
        requires
            unique_user_ids(self@.users),
        ensures
            match r {
                Some(i) => i < self.users.len() && has_user(self@.users, id@) && user_index(
                    self@.users,
                    id@,
                ) == i,
                None => !has_user(self@.users, id@),
            },
    {
        let mut i: usize = 0;
        while i < self.users.len()
            invariant
                unique_user_ids(self@.users),
                i <= self.users.len(),
                forall|j: int| 0 <= j < i ==> self@.users[j].id != id@,
            decreases self.users.len() - i,
        {
            if same_text(self.users[i].id.as_str(), id) {
                proof {
                    lemma_user_index_unique(self@.users, id@, i as int);
                }
                return Some(i);
            }
            i = i + 1;
        }
        None
    }

    fn find_market(&self, id: &str) -> (r: Option<usize>)
        requires
            unique_market_ids(self@.markets),
        ensures
            match r {
                Some(i) => i < self.markets.len() && has_market(self@.markets, id@) && market_index(
                    self@.markets,
                    id@,
                ) == i,
                None => !has_market(self@.markets, id@),
            },
    {
        let mut i: usize = 0;
        while i < self.markets.len()
            invariant
                unique_market_ids(self@.markets),
                i <= self.markets.len(),
                forall|j: int| 0 <= j < i ==> self@.markets[j].id != id@,
            decreases self.markets.len() - i,
        {
            if same_text(self.markets[i].id.as_str(), id) {
                proof {
                    lemma_market_index_unique(self@.markets, id@, i as int);
                }
                return Some(i);
            }
            i = i + 1;
        }
        None
    }

    /// A fresh identifier: `prefix` and the counter, which then moves on.
    fn new_id(&mut self, prefix: &str) -> (r: String)
        requires
            old(self).next_id < u64::MAX,
        ensures
            r@ == id_text(prefix@, old(self)@.next_id),
            final(self)@ == (StoreModel { next_id: old(self)@.next_id + 1, ..old(self)@ }),
            final(self).in_play == old(self).in_play,
    {
        let r = make_id(prefix, self.next_id);
        self.next_id = self.next_id + 1;
        r
    }

    /// Registers an account under exactly `name`, with the starting balance.
    pub fn register_user(&mut self, name: String) -> (u: User)
        requires
            old(self).wf(),
            points_in_play(old(self)@) + STARTING_BALANCE <= u64::MAX,
            old(self)@.next_id < u64::MAX,
        ensures
            final(self).wf(),
            final(self)@ == after_register(old(self)@, name@),
            u@ == final(self)@.users.last(),
            points_in_play(final(self)@) == points_in_play(old(self)@) + STARTING_BALANCE,
    {
        proof {
            law_register(self@, name@);
        }
        let ghost s0 = self@;
        let id = self.new_id("u");
        let user = User { id, name, balance: STARTING_BALANCE };
        let copy = user.snapshot();
        self.users.push(user);
        self.in_play = self.in_play + STARTING_BALANCE;
        proof {
            assert(self@.users =~= s0.users.push(copy@));
            assert(self@ =~= after_register(s0, name@));
        }
        copy
    }

    /// Registers an account named `name` with surrounding white space trimmed,
    /// with the starting balance of 1,000 points.
    pub fn create_user(&mut self, name: &str) -> (u: User)
        requires
            old(self).wf(),
            points_in_play(old(self)@) + STARTING_BALANCE <= u64::MAX,
            old(self)@.next_id < u64::MAX,
        ensures
            final(self).wf(),
            final(self)@ == after_register(old(self)@, trimmed(name@)),
            u@ == final(self)@.users.last(),
            points_in_play(final(self)@) == points_in_play(old(self)@) + STARTING_BALANCE,
    {
        let t = trim_text(name);
        self.register_user(t.to_owned())
    }

    /// Opens a market asking exactly `question`, with `seed` house units on each
    /// distinct outcome.
    pub fn open_market(
        &mut self,
        question: String,
        outcomes: Vec<String>,
        closes_at: Option<u64>,
        seed: u64,
    ) -> (m: Market)
        requires
            old(self).wf(),
            points_in_play(old(self)@) + total_of(seed_entries(outcomes.deep_view(), seed))
                <= u64::MAX,
            old(self)@.next_id < u64::MAX,
        ensures
            final(self).wf(),
            final(self)@ == after_open_market(
                old(self)@,
                question@,
                outcomes.deep_view(),
                closes_at,
                seed,
            ),
            m@ == final(self)@.markets.last(),
            points_in_play(final(self)@) == points_in_play(old(self)@) + total_of(
                seed_entries(outcomes.deep_view(), seed),
            ),
    {
        proof {
            law_open_market(self@, question@, outcomes.deep_view(), closes_at, seed);
        }
        let ghost s0 = self@;
        let id = self.new_id("m");
        let entries = build_seed(&outcomes, seed);
        let market = Market {
            id,
            question,
            outcomes,
            status: MarketStatus::Open,
            closes_at,
            seed: entries,
            winning_outcome: None,
            resolved_by: None,
            resolved_note: None,
            resolved_at: None,
        };
        let added: u64 = market.seed_total();
        let copy = market.snapshot();
        self.markets.push(market);
        self.in_play = self.in_play + added;
        proof {
            assert(self@.markets =~= s0.markets.push(copy@));
            assert(self@ =~= after_open_market(s0, question@, outcomes.deep_view(), closes_at, seed));
        }
        copy
    }

    /// Opens a market asking `question` (surrounding white space trimmed) with
    /// the given outcomes, optional unix-seconds deadline after which
    /// predictions stop, and `seed` house units on each distinct outcome (0 for
    /// no seed).
    pub fn create_market(
        &mut self,
        question: &str,
        outcomes: Vec<String>,
        closes_at: Option<u64>,
        seed: u64,
    ) -> (m: Market)
        requires
            old(self).wf(),
            points_in_play(old(self)@) + total_of(seed_entries(outcomes.deep_view(), seed))
                <= u64::MAX,
            old(self)@.next_id < u64::MAX,
        ensures
            final(self).wf(),
            final(self)@ == after_open_market(
                old(self)@,
                trimmed(question@),
                outcomes.deep_view(),
                closes_at,
                seed,
            ),
            m@ == final(self)@.markets.last(),
            points_in_play(final(self)@) == points_in_play(old(self)@) + total_of(
                seed_entries(outcomes.deep_view(), seed),
            ),
    {
        let q = trim_text(question);
        self.open_market(q.to_owned(), outcomes, closes_at, seed)
    }

    /// Stakes `units` points of account `user_id` on `outcome` of market
    /// `market_id`, with the clock reading `now`.
    pub fn predict_at(
        &mut self,
        market_id: &str,
        user_id: &str,
        outcome: &str,
        units: u64,
        now: u64,
    ) -> (r: Result<Position, Error>)
        requires
            old(self).wf(),
            old(self)@.next_id < u64::MAX,
        ensures
            final(self).wf(),
            predicted(old(self)@, final(self)@, r, market_id@, user_id@, outcome@, units, now),
            points_in_play(final(self)@) == points_in_play(old(self)@),
    {
        if units == 0 {
            return Err(Error::ZeroUnits);
        }
        let mi: usize = match self.find_market(market_id) {
            Some(i) => i,
            None => {
                return Err(Error::MarketNotFound);
            },
        };
        match phase_of(&self.markets[mi], now) {
            Phase::Resolved => {
                return Err(Error::MarketResolved);
            },
            Phase::Closed => {
                return Err(Error::PredictionsClosed);
            },
            Phase::Open => {},
        }
        if !contains_text(&self.markets[mi].outcomes, outcome) {
            return Err(Error::UnknownOutcome);
        }
        let ui: usize = match self.find_user(user_id) {
            Some(i) => i,
            None => {
                return Err(Error::UserNotFound);
            },
        };
        let balance: u64 = self.users[ui].balance;
        if balance < units {
            return Err(Error::InsufficientBalance { have: balance, need: units });
        }
        proof {
            law_predict(self@, market_id@, user_id@, outcome@, units, now);
        }
        let ghost s0 = self@;
        let debited = User {
            id: self.users[ui].id.clone(),
            name: self.users[ui].name.clone(),
            balance: balance - units,
        };
        self.users.set(ui, debited);
        let id = self.new_id("p");
        let pos = Position {
            id,
            market_id: market_id.to_owned(),
            user_id: user_id.to_owned(),
            outcome: outcome.to_owned(),
            units,
        };
        let copy = pos.snapshot();
        self.positions.push(pos);
        proof {
            let t = after_predict(s0, market_id@, user_id@, outcome@, units);
            assert(self@.users =~= t.users);
            assert(self@.positions =~= t.positions);
            assert(self@ =~= t);
        }
        Ok(copy)
    }

    /// Stakes `units` points of account `user_id` on `outcome` of market
    /// `market_id`, at the current time: the outcome is that of `predict_at`
    /// at whatever time the clock read.
    pub fn predict(&mut self, market_id: &str, user_id: &str, outcome: &str, units: u64) -> (r:
        Result<Position, Error>)
        requires
            old(self).wf(),
            old(self)@.next_id < u64::MAX,
        ensures
            final(self).wf(),
            exists|t: u64|
                predicted(old(self)@, final(self)@, r, market_id@, user_id@, outcome@, units, t),
            points_in_play(final(self)@) == points_in_play(old(self)@),
    {
        let t: u64 = now();
        self.predict_at(market_id, user_id, outcome, units, t)
    }

    /// `(user, units)` of every position on market `mid`, in the order placed.
    fn stakes_list(&self, mid: &str) -> (r: Vec<(String, u64)>)
        ensures
            r.deep_view() == stakes_of(self@.positions, mid@),
    {
        let ghost ps = self@.positions;
        let mut r: Vec<(String, u64)> = Vec::new();
        let mut i: usize = 0;
        assert(ps.take(0) =~= Seq::<crate::models::PositionModel>::empty());
        while i < self.positions.len()
            invariant
                ps == self@.positions,
                i <= self.positions.len(),
                r.deep_view() =~= stakes_of(ps.take(i as int), mid@),
            decreases self.positions.len() - i,
        {
            assert(ps.take(i + 1).drop_last() =~= ps.take(i as int));
            assert(ps.take(i + 1).last() == ps[i as int]);
            if same_text(self.positions[i].market_id.as_str(), mid) {
                let ghost prev = r.deep_view();
                r.push((self.positions[i].user_id.clone(), self.positions[i].units));
                assert(r.deep_view() =~= prev.push((ps[i as int].user_id, ps[i as int].units)));
            }
            i = i + 1;
        }
        assert(ps.take(self.positions.len() as int) =~= ps);
        r
    }

    /// `(user, units)` of every position on `outcome` of market `mid`, in the
    /// order placed.
    fn outcome_list(&self, mid: &str, outcome: &str) -> (r: Vec<(String, u64)>)
        ensures
            r.deep_view() == outcome_stakes(self@.positions, mid@, outcome@),
    {
        let ghost ps = self@.positions;
        let mut r: Vec<(String, u64)> = Vec::new();
        let mut i: usize = 0;
        assert(ps.take(0) =~= Seq::<crate::models::PositionModel>::empty());
        while i < self.positions.len()
            invariant
                ps == self@.positions,
                i <= self.positions.len(),
                r.deep_view() =~= outcome_stakes(ps.take(i as int), mid@, outcome@),
            decreases self.positions.len() - i,
        {
            assert(ps.take(i + 1).drop_last() =~= ps.take(i as int));
            assert(ps.take(i + 1).last() == ps[i as int]);
            if same_text(self.positions[i].market_id.as_str(), mid) && same_text(
                self.positions[i].outcome.as_str(),
                outcome,
            ) {
                let ghost prev = r.deep_view();
                r.push((self.positions[i].user_id.clone(), self.positions[i].units));
                assert(r.deep_view() =~= prev.push((ps[i as int].user_id, ps[i as int].units)));
            }
            i = i + 1;
        }
        assert(ps.take(self.positions.len() as int) =~= ps);
        r
    }

    /// Resolves market `market_id` as `winning_outcome`, by `resolved_by` with
    /// `note`, with the clock reading `now`. When someone backed the winner,
    /// the whole pool (real stake plus house seed) is split pro rata among
    /// those positions; otherwise every stake is refunded and the seed is
    /// forfeited.
    pub fn resolve_at(
        &mut self,
        market_id: &str,
        winning_outcome: &str,
        resolved_by: &str,
        note: &str,
        now: u64,
    ) -> (r: Result<ResolutionReceipt, Error>)
        requires
            old(self).wf(),
        ensures
            final(self).wf(),
            resolved(
                old(self)@,
                final(self)@,
                r,
                market_id@,
                winning_outcome@,
                resolved_by@,
                note@,
                now,
            ),
            points_in_play(final(self)@) <= points_in_play(old(self)@),
    {
        let mi: usize = match self.find_market(market_id) {
            Some(i) => i,
            None => {
                return Err(Error::MarketNotFound);
            },
        };
        match phase_of(&self.markets[mi], now) {
            Phase::Resolved => {
                return Err(Error::MarketResolved);
            },
            Phase::Open => {
                if self.markets[mi].closes_at.is_some() {
                    return Err(Error::TooEarlyToResolve);
                }
            },
            Phase::Closed => {},
        }
        if !contains_text(&self.markets[mi].outcomes, winning_outcome) {
            return Err(Error::UnknownOutcome);
        }
        let ghost s0 = self@;
        let ghost mid = market_id@;
        let ghost o = winning_outcome@;
        proof {
            lemma_settlement_fits(s0, mid, o, now);
            law_resolve(s0, mid, o, resolved_by@, note@, now);
            assert(s0.markets[mi as int] == self.markets@[mi as int]@);
        }
        let all = self.stakes_list(market_id);
        let winners = self.outcome_list(market_id, winning_outcome);
        let stake: u64 = sum_amounts(&all);
        let seed: u64 = self.markets[mi].seed_total();
        let (winning_units, credits, refunded, total_pool, seed_subsidy): (
            u64,
            Vec<(String, u64)>,
            bool,
            u64,
            u64,
        ) = if winners.len() == 0 {
            (0u64, all, true, stake, 0u64)
        } else {
            let (wu, pays): (u64, Vec<(String, u64)>) = payouts(stake + seed, winners.as_slice());
            (wu, pays, false, stake + seed, seed)
        };
        let ghost cs = credits.deep_view();
        assert(cs == settlement(s0, mid, o).payouts);
        // Credit every payout (or refund) to its account.
        let mut credited: u64 = 0;
        let mut k: usize = 0;
        proof {
            assert(cs.take(0) =~= Seq::<(Seq<char>, u64)>::empty());
            lemma_apply_credits(s0.users, cs);
        }
        while k < credits.len()
            invariant
                cs == credits.deep_view(),
                k <= credits.len(),
                unique_user_ids(s0.users),
                forall|j: int| 0 <= j < cs.len() ==> has_user(s0.users, #[trigger] cs[j].0),
                balance_total(s0.users) + total_of(cs) <= u64::MAX,
                self@.users == apply_credits(s0.users, cs.take(k as int)),
                self@.markets == s0.markets,
                self@.positions == s0.positions,
                self.next_id == s0.next_id,
                self.in_play == points_in_play(s0),
                credited == total_of(cs.take(k as int)),
            decreases credits.len() - k,
        {
            let ghost us0 = self@.users;
            proof {
                crate::parimutuel::lemma_total_of_take_le(cs, k + 1);
                assert(cs.take(k + 1).drop_last() =~= cs.take(k as int));
                assert(cs.take(k + 1).last() == cs[k as int]);
                let ck = cs.take(k as int);
                assert forall|j: int| 0 <= j < ck.len() implies has_user(s0.users, #[trigger] ck[j].0) by {
                    assert(ck[j] == cs[j]);
                }
                crate::parimutuel::lemma_total_of_take_le(cs, k as int);
                lemma_apply_credits(s0.users, ck);
                crate::accounting::lemma_same_user_ids(s0.users, us0);
                assert forall|a: int, b: int|
                    0 <= a < b < us0.len() implies #[trigger] us0[a].id != #[trigger] us0[b].id by {
                    assert(us0[a].id == s0.users[a].id && us0[b].id == s0.users[b].id);
                }
            }
            match self.find_user(credits[k].0.as_str()) {
                Some(i) => {
                    proof {
                        lemma_balance_le_total(us0, i as int);
                    }
                    let u = User {
                        id: self.users[i].id.clone(),
                        name: self.users[i].name.clone(),
                        balance: self.users[i].balance + credits[k].1,
                    };
                    self.users.set(i, u);
                    proof {
                        assert(self@.users =~= credit(us0, cs[k as int].0, cs[k as int].1));
                    }
                },
                None => {},
            }
            credited = credited + credits[k].1;
            k = k + 1;
        }
        assert(cs.take(credits.len() as int) =~= cs);
        // Record the committee's action.
        let m = &self.markets[mi];
        let closed = Market {
            id: m.id.clone(),
            question: m.question.clone(),
            outcomes: crate::models::copy_texts(&m.outcomes),
            status: MarketStatus::Resolved,
            closes_at: m.closes_at,
            seed: crate::models::copy_pairs(&m.seed),
            winning_outcome: Some(winning_outcome.to_owned()),
            resolved_by: Some(resolved_by.to_owned()),
            resolved_note: Some(note.to_owned()),
            resolved_at: Some(now),
        };
        self.markets.set(mi, closed);
        self.in_play = self.in_play - stake - seed + credited;
        proof {
            let t = after_resolve(s0, mid, o, resolved_by@, note@, now);
            assert(self@.markets =~= t.markets);
            assert(self@ =~= t);
        }
        Ok(
            ResolutionReceipt {
                market_id: market_id.to_owned(),
                winning_outcome: winning_outcome.to_owned(),
                total_pool,
                seed_subsidy,
                winning_units,
                refunded,
                payouts: credits,
            },
        )
    }

    /// Resolves market `market_id` as `winning_outcome` at the current time:
    /// the outcome is that of `resolve_at` at whatever time the clock read.
    pub fn resolve(
        &mut self,
        market_id: &str,
        winning_outcome: &str,
        resolved_by: &str,
        note: &str,
    ) -> (r: Result<ResolutionReceipt, Error>)
        requires
            old(self).wf(),
        ensures
            final(self).wf(),
            exists|t: u64|
                resolved(
                    old(self)@,
                    final(self)@,
                    r,
                    market_id@,
                    winning_outcome@,
                    resolved_by@,
                    note@,
                    t,
                ),
            points_in_play(final(self)@) <= points_in_play(old(self)@),
    {
        let t: u64 = now();
        self.resolve_at(market_id, winning_outcome, resolved_by, note, t)
    }

    /// Every market, ordered by phase at time `now` (open, then closed, then
    /// resolved), then by question.
    pub fn list_markets_at(&self, now: u64) -> (r: Vec<Market>)
        ensures
            market_views(r@).to_multiset() == self@.markets.to_multiset(),
            listing_sorted(market_views(r@), now),
    {
        let ghost ms = self@.markets;
        let mut r: Vec<Market> = Vec::new();
        let mut i: usize = 0;
        proof {
            assert(ms.take(0) =~= Seq::<MarketModel>::empty());
            assert(r@.map_values(|m: Market| m@) =~= Seq::<MarketModel>::empty());
        }
        while i < self.markets.len()
            invariant
                ms == self@.markets,
                i <= self.markets.len(),
                r@.map_values(|m: Market| m@).to_multiset() == ms.take(i as int).to_multiset(),
                listing_sorted(r@.map_values(|m: Market| m@), now),
            decreases self.markets.len() - i,
        {
            let m = self.markets[i].snapshot();
            let ghost rv = r@.map_values(|x: Market| x@);
            let mut j: usize = 0;
            while j < r.len() && listed_le(&r[j], &m, now)
                invariant
                    rv == r@.map_values(|x: Market| x@),
                    j <= r.len(),
                    forall|k: int| 0 <= k < j ==> listed_before(#[trigger] rv[k], m@, now),
                decreases r.len() - j,
            {
                j = j + 1;
            }
            proof {
                assert forall|k: int| j <= k < rv.len() implies listed_before(
                    m@,
                    #[trigger] rv[k],
                    now,
                ) by {
                    law_listing_total(rv[j as int], m@, now);
                    if k > j {
                        law_listing_transitive(m@, rv[j as int], rv[k], now);
                    }
                }
                lemma_insert_sorted(rv, j as int, m@, now);
            }
            r.insert(j, m);
            proof {
                assert(r@.map_values(|x: Market| x@) =~= rv.insert(j as int, ms[i as int]));
                vstd::seq_lib::to_multiset_insert(rv, j as int, ms[i as int]);
                assert(ms.take(i + 1) =~= ms.take(i as int).push(ms[i as int]));
                vstd::seq_lib::to_multiset_build(ms.take(i as int), ms[i as int]);
            }
            i = i + 1;
        }
        assert(ms.take(self.markets.len() as int) =~= ms);
        r
    }

    /// Every market, ordered by phase at the current time (open, then closed,
    /// then resolved), then by question.
    pub fn list_markets(&self) -> (r: Vec<Market>)
        ensures
            market_views(r@).to_multiset() == self@.markets.to_multiset(),
            exists|t: u64| #[trigger] listing_sorted(market_views(r@), t),
    {
        let t: u64 = now();
        self.list_markets_at(t)
    }

    /// The pool of market `market_id` at time `now`: the real stake and house
    /// seed overall and on each listed outcome.
    pub fn pool_view_at(&self, market_id: &str, now: u64) -> (r: Result<PoolView, Error>)
        requires
            self.wf(),
        ensures
            match r {
                Ok(v) => has_market(self@.markets, market_id@) && v@ == pool_of(
                    self@,
                    market_id@,
                    now,
                ),
                Err(e) => e == Error::MarketNotFound && !has_market(self@.markets, market_id@),
            },
    {
        let mi: usize = match self.find_market(market_id) {
            Some(i) => i,
            None => {
                return Err(Error::MarketNotFound);
            },
        };
        let market = self.markets[mi].snapshot();
        let ghost s = self@;
        let ghost mid = market_id@;
        let ghost mm = market@;
        proof {
            assert(s.markets[mi as int] == mm);
            assert(market_stake(s.positions, s.markets[mi as int].id) + total_of(
                s.markets[mi as int].seed,
            ) <= u64::MAX);
        }
        let all = self.stakes_list(market_id);
        let stake: u64 = sum_amounts(&all);
        let seed: u64 = market.seed_total();
        let mut stats: Vec<OutcomeStat> = Vec::new();
        let mut i: usize = 0;
        while i < market.outcomes.len()
            invariant
                s == self@,
                mid == market_id@,
                mm == market@,
                mm == s.markets[market_index(s.markets, mid)],
                stake == market_stake(s.positions, mid),
                stake + total_of(mm.seed) <= u64::MAX,
                i <= market.outcomes.len(),
                stats.len() == i,
                forall|k: int|
                    0 <= k < i ==> (#[trigger] stats@[k])@ == outcome_stat(
                        s,
                        mid,
                        mm,
                        mm.outcomes[k],
                    ),
            decreases market.outcomes.len() - i,
        {
            let ghost o = market@.outcomes[i as int];
            assert(market.outcomes.deep_view()[i as int] == market.outcomes@[i as int]@);
            let ws = self.outcome_list(market_id, market.outcomes[i].as_str());
            proof {
                lemma_outcome_stake_le(s.positions, mid, o);
                lemma_seed_lookup_le(mm.seed, o);
            }
            let units: u64 = sum_amounts(&ws);
            let seeded: u64 = market.seed_of(market.outcomes[i].as_str());
            stats.push(
                OutcomeStat {
                    outcome: market.outcomes[i].clone(),
                    real_units: units,
                    seed_units: seeded,
                    pool_units: units + seeded,
                },
            );
            i = i + 1;
        }
        let phase = phase_of(&market, now);
        let v = PoolView {
            market,
            phase,
            total_units: stake + seed,
            total_real_units: stake,
            outcomes: stats,
        };
        proof {
            assert(v@.outcomes =~= mm.outcomes.map_values(|o: Seq<char>| outcome_stat(s, mid, mm, o)));
        }
        Ok(v)
    }

    /// The pool of market `market_id` at the current time.
    pub fn pool_view(&self, market_id: &str) -> (r: Result<PoolView, Error>)
        requires
            self.wf(),
        ensures
            match r {
                Ok(v) => has_market(self@.markets, market_id@) && exists|t: u64|
                    v@ == pool_of(self@, market_id@, t),
                Err(e) => e == Error::MarketNotFound && !has_market(self@.markets, market_id@),
            },
    {
        let t: u64 = now();
        self.pool_view_at(market_id, t)
    }

    /// The positions of account `user_id`, in the order placed.
    pub fn positions_of_user(&self, user_id: &str) -> (r: Vec<Position>)
        ensures
            r@.map_values(|p: Position| p@) == positions_by(self@.positions, user_id@),
    {
        let ghost ps = self@.positions;
        let mut r: Vec<Position> = Vec::new();
        let mut i: usize = 0;
        assert(ps.take(0) =~= Seq::<crate::models::PositionModel>::empty());
        while i < self.positions.len()
            invariant
                ps == self@.positions,
                i <= self.positions.len(),
                r@.map_values(|p: Position| p@) =~= positions_by(ps.take(i as int), user_id@),
            decreases self.positions.len() - i,
        {
            assert(ps.take(i + 1).drop_last() =~= ps.take(i as int));
            assert(ps.take(i + 1).last() == ps[i as int]);
            if same_text(self.positions[i].user_id.as_str(), user_id) {
                let ghost prev = r@.map_values(|p: Position| p@);
                r.push(self.positions[i].snapshot());
                assert(r@.map_values(|p: Position| p@) =~= prev.push(ps[i as int]));
            }
            i = i + 1;
        }
        assert(ps.take(self.positions.len() as int) =~= ps);
        r
    }

    /// The account with identifier `id`.
    pub fn get_user(&self, id: &str) -> (r: Result<User, Error>)
        requires
            self.wf(),
        ensures
            match r {
                Ok(u) => has_user(self@.users, id@) && u@ == self@.users[user_index(
                    self@.users,
                    id@,
                )],
                Err(e) => e == Error::UserNotFound && !has_user(self@.users, id@),
            },
    {
        match self.find_user(id) {
            Some(i) => Ok(self.users[i].snapshot()),
            None => Err(Error::UserNotFound),
        }
    }
}

} // verus!
