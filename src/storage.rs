use vstd::prelude::*;
use std::collections::HashMap;
use crate::error::Error;
use crate::types::{Bet, BetView, Pool, Round, RoundView};

verus! {

broadcast use vstd::std_specs::hash::group_hash_axioms;

/// The persisted state. Singletons sit in the instance scope; rounds and bets share one
/// record scope keyed by their 64-bit ids.
pub struct Store {
    pub admin: Option<Vec<u8>>,
    pub pool: Option<Pool>,
    pub rounds: HashMap<u64, Round>,
    pub bets: HashMap<u64, Bet>,
}

impl Store {
    pub open spec fn round_views(&self) -> Map<u64, RoundView> {
        self.rounds@.map_values(|r: Round| r@)
    }

    pub open spec fn bet_views(&self) -> Map<u64, BetView> {
        self.bets@.map_values(|b: Bet| b@)
    }

    /// Whether the record scope holds anything under `key`.
    pub open spec fn holds(&self, key: u64) -> bool {
        self.rounds@.contains_key(key) || self.bets@.contains_key(key)
    }

    /// The pool, or zero totals before one is written.
    pub open spec fn pool_view(&self) -> Pool {
        match self.pool {
            Some(p) => p,
            None => Pool::spec_zero(),
        }
    }

    /// A store with nothing in it.
    pub fn new() -> (r: Store)
        ensures
            r.admin.is_none(),
            r.pool.is_none(),
            r.round_views() == Map::<u64, RoundView>::empty(),
            r.bet_views() == Map::<u64, BetView>::empty(),
    {
        let r = Store { admin: None, pool: None, rounds: HashMap::new(), bets: HashMap::new() };
        assert(r.round_views() =~= Map::<u64, RoundView>::empty());
        assert(r.bet_views() =~= Map::<u64, BetView>::empty());
        r
    }
}

pub fn has_admin(store: &Store) -> (r: bool)
    ensures
        r == store.admin.is_some(),
{
    store.admin.is_some()
}

pub fn get_admin(store: &Store) -> (r: Vec<u8>)
    requires
        store.admin.is_some(),
    ensures
        r@ == store.admin->Some_0@,
{
    match &store.admin {
        Some(a) => crate::types::copy_bytes(a),
        None => Vec::new(),
    }
}

pub fn set_admin(store: &mut Store, admin: Vec<u8>)
    ensures
        final(store).admin == Some(admin),
        final(store).pool == old(store).pool,
        final(store).rounds == old(store).rounds,
        final(store).bets == old(store).bets,
{
    store.admin = Some(admin);
}

/// Whether the record scope holds anything under `key`.
pub fn has(store: &Store, key: u64) -> (r: bool)
    ensures
        r == store.holds(key),
{
    store.rounds.contains_key(&key) || store.bets.contains_key(&key)
}

pub fn get_round(store: &Store, round_id: u64) -> (r: Result<Round, Error>)
    ensures
        match r {
            Ok(round) => store.round_views().contains_key(round_id) && round@
                == store.round_views()[round_id],
            Err(e) => !store.round_views().contains_key(round_id) && e == Error::RoundNotFound,
        },
{
    match store.rounds.get(&round_id) {
        Some(round) => Ok(round.snapshot()),
        None => Err(Error::RoundNotFound),
    }
}

pub fn set_round(store: &mut Store, round_id: u64, round: Round)
    ensures
        final(store).round_views() == old(store).round_views().insert(round_id, round@),
        final(store).rounds@.dom() == old(store).rounds@.dom().insert(round_id),
        final(store).bets == old(store).bets,
        final(store).admin == old(store).admin,
        final(store).pool == old(store).pool,
{
    store.rounds.insert(round_id, round);
    assert(store.round_views() =~= old(store).round_views().insert(round_id, round@));
}

pub fn get_bet(store: &Store, bet_id: u64) -> (r: Result<Bet, Error>)
    ensures
        match r {
            Ok(bet) => store.bet_views().contains_key(bet_id) && bet@ == store.bet_views()[bet_id],
            Err(e) => !store.bet_views().contains_key(bet_id) && e == Error::BetNotFound,
        },
{
    match store.bets.get(&bet_id) {
        Some(bet) => Ok(bet.snapshot()),
        None => Err(Error::BetNotFound),
    }
}

pub fn set_bet(store: &mut Store, bet_id: u64, bet: Bet)
    ensures
        final(store).bet_views() == old(store).bet_views().insert(bet_id, bet@),
        final(store).bets@.dom() == old(store).bets@.dom().insert(bet_id),
        final(store).rounds == old(store).rounds,
        final(store).admin == old(store).admin,
        final(store).pool == old(store).pool,
{
    store.bets.insert(bet_id, bet);
    assert(store.bet_views() =~= old(store).bet_views().insert(bet_id, bet@));
}

/// The pool statistics, zero before any are written.
pub fn get_pool(store: &Store) -> (r: Pool)
    ensures
        r == store.pool_view(),
{
    match store.pool {
        Some(p) => p,
        None => Pool { total_bets: 0, total_payouts: 0, total_house_earnings: 0 },
    }
}

pub fn set_pool(store: &mut Store, pool: Pool)
    ensures
        final(store).pool == Some(pool),
        final(store).admin == old(store).admin,
        final(store).rounds == old(store).rounds,
        final(store).bets == old(store).bets,
{
    store.pool = Some(pool);
}

} // verus!
