use vstd::prelude::*;
use crate::digest::{bytes_equal, generate_bet_id, verify_commitment, MAX_PLAYER_LEN};
use crate::error::Error;
use crate::model::{
    bet_ok, lemma_total_push, lemma_total_update, lemma_total_zero, round_ok, spec_cash_out,
    spec_create_round, spec_finalize_round, spec_place_bet, spec_start_round, State,
    Tally,
};
use crate::payout::{payout, MAX_BET, MIN_BET, MIN_MULTIPLIER};
use crate::storage::{
    get_admin, get_bet, get_pool, get_round, has, set_admin, set_bet, set_pool, set_round, Store,
};
use crate::types::{Bet, BetStatus, BetView, Pool, Round, RoundStatus, RoundView};

verus! {

broadcast use vstd::std_specs::hash::group_hash_axioms;

/// The crash-game ledger: rounds with a committed crash point, bets, and pool accounting.
///
/// Callers are authenticated by the host before an operation runs: administrative
/// operations by the administrator, bet operations by the player named. Timestamps come
/// from the host's clock as `now`.
pub struct BalloonFlyContract {
    pub store: Store,
    /// Ids of the bets in the order they were placed.
    pub order: Ghost<Seq<u64>>,
}

pub open spec fn round_result_view(r: Result<Round, Error>) -> Result<RoundView, Error> {
    match r {
        Ok(round) => Ok(round@),
        Err(e) => Err(e),
    }
}

pub open spec fn bet_result_view(r: Result<Bet, Error>) -> Result<BetView, Error> {
    match r {
        Ok(bet) => Ok(bet@),
        Err(e) => Err(e),
    }
}

impl View for BalloonFlyContract {
    type V = State;

    open spec fn view(&self) -> State {
        State {
            admin: match self.store.admin {
                Some(a) => Some(a@),
                None => None,
            },
            pool: self.store.pool_view(),
            rounds: self.store.round_views(),
            bets: self.store.bet_views(),
            order: self.order@,
        }
    }
}

impl BalloonFlyContract {
    pub open spec fn wf(&self) -> bool {
        self@.inv()
    }

    /// Sets up the contract with its administrator and zero pool totals.
    pub fn new(admin: Vec<u8>) -> (r: Self)
        ensures
            r.wf(),
            r@.admin == Some(admin@),
            r@.pool == Pool::spec_zero(),
            r@.rounds == Map::<u64, RoundView>::empty(),
            r@.bets == Map::<u64, BetView>::empty(),
    {
        let mut store = Store::new();
        set_admin(&mut store, admin);
        set_pool(&mut store, Pool { total_bets: 0, total_payouts: 0, total_house_earnings: 0 });
        let r = BalloonFlyContract { store, order: Ghost(Seq::empty()) };
        assert(r@.order =~= Seq::<u64>::empty());
        r
    }

    /// The administrator.
    pub fn admin(&self) -> (r: Vec<u8>)
        requires
            self.wf(),
        ensures
            Some(r@) == self@.admin,
    {
        get_admin(&self.store)
    }

    /// Creates a round in `Waiting`, committed to `server_seed_hash`.
    pub fn create_round(&mut self, round_id: u64, server_seed_hash: [u8; 32], now: u64) -> (r:
        Result<Round, Error>)
        requires
            old(self).wf(),
        ensures
            final(self).wf(),
            final(self)@ == spec_create_round(old(self)@, round_id, server_seed_hash, now).0,
            round_result_view(r) == spec_create_round(old(self)@, round_id, server_seed_hash, now).1,
    {
        if has(&self.store, round_id) {
            return Err(Error::RoundAlreadyExists);
        }
        let ghost s0 = self@;
        assert(!s0.rounds.contains_key(round_id));
        let round = Round {
            id: round_id,
            status: RoundStatus::Waiting,
            server_seed_hash,
            crash_multiplier: 0,
            created_at: now,
            started_at: 0,
            ended_at: 0,
            total_bet_amount: 0,
            total_payout: 0,
            bet_count: 0,
            client_seeds: Vec::new(),
        };
        let out = round.snapshot();
        set_round(&mut self.store, round_id, round);
        assert(out@.client_seeds =~= Seq::<[u8; 32]>::empty());
        proof {
            assert forall|i: int| 0 <= i < s0.order.len() implies #[trigger] s0.bets[s0.order[i]].round_id
                != round_id by {
                let k = s0.order[i];
                assert(s0.order.contains(k));
                assert(s0.bets.contains_key(k));
                assert(s0.rounds.contains_key(s0.bets[k].round_id));
            }
            lemma_total_zero(s0.order, s0.bets, Tally::RoundStake(round_id));
            lemma_total_zero(s0.order, s0.bets, Tally::RoundPayout(round_id));
            lemma_total_zero(s0.order, s0.bets, Tally::RoundCount(round_id));
            let s1 = self@;
            assert forall|k: u64| #[trigger] s1.rounds.contains_key(k) implies s1.round_totals_match(
                k,
            ) && round_ok(k, s1.rounds[k]) by {
                if k != round_id {
                    assert(s0.rounds.contains_key(k));
                }
            }
            assert forall|k: u64| #[trigger] s1.bets.contains_key(k) implies s1.rounds.contains_key(
                s1.bets[k].round_id,
            ) by {
                assert(s0.bets.contains_key(k));
            }
        }
        Ok(out)
    }

    /// Reveals the server seed and fixes the crash point, moving the round to `InProgress`.
    pub fn start_round(
        &mut self,
        round_id: u64,
        server_seed: [u8; 32],
        crash_multiplier: u64,
        now: u64,
    ) -> (r: Result<(), Error>)
        requires
            old(self).wf(),
        ensures
            final(self).wf(),
            final(self)@ == spec_start_round(
                old(self)@,
                round_id,
                server_seed,
                crash_multiplier,
                now,
            ).0,
            r == spec_start_round(old(self)@, round_id, server_seed, crash_multiplier, now).1,
    {
        let mut round = match get_round(&self.store, round_id) {
            Ok(round) => round,
            Err(e) => {
                return Err(e);
            },
        };
        if round.status != RoundStatus::Waiting {
            return Err(Error::InvalidRoundStatus);
        }
        if !verify_commitment(&round.server_seed_hash, &server_seed) {
            return Err(Error::InvalidServerSeedHash);
        }
        if crash_multiplier < MIN_MULTIPLIER {
            return Err(Error::InvalidMultiplier);
        }
        let ghost s0 = self@;
        round.status = RoundStatus::InProgress;
        round.crash_multiplier = crash_multiplier;
        round.started_at = now;
        set_round(&mut self.store, round_id, round);
        proof {
            let s1 = self@;
            assert forall|k: u64| #[trigger] s1.rounds.contains_key(k) implies s1.round_totals_match(
                k,
            ) && round_ok(k, s1.rounds[k]) by {
                assert(s0.rounds.contains_key(k));
            }
        }
        Ok(())
    }
    /// Places `player`'s bet of `amount` in round `round_id` and returns the bet's id.
    pub fn place_bet(
        &mut self,
        player: Vec<u8>,
        round_id: u64,
        amount: i128,
        client_seed: [u8; 32],
        now: u64,
    ) -> (r: Result<u64, Error>)
        requires
            old(self).wf(),
            old(self)@.place_bet_fits(round_id, amount),
            player@.len() <= MAX_PLAYER_LEN,
        ensures
            final(self).wf(),
            final(self)@ == spec_place_bet(
                old(self)@,
                player@,
                round_id,
                amount,
                client_seed,
                now,
            ).0,
            r == spec_place_bet(old(self)@, player@, round_id, amount, client_seed, now).1,
    {
        let mut round = match get_round(&self.store, round_id) {
            Ok(round) => round,
            Err(e) => {
                return Err(e);
            },
        };
        if round.status != RoundStatus::Waiting {
            return Err(Error::InvalidRoundStatus);
        }
        if amount < MIN_BET || amount > MAX_BET {
            return Err(Error::InvalidBetAmount);
        }
        let bet_id = generate_bet_id(round_id, player.as_slice());
        if has(&self.store, bet_id) {
            return Err(Error::BetAlreadyPlaced);
        }
        let ghost s0 = self@;
        let bet = Bet {
            id: bet_id,
            round_id,
            player,
            amount,
            cash_out_multiplier: 0,
            payout: 0,
            status: BetStatus::Active,
            timestamp: now,
        };
        let ghost bv = bet@;
        set_bet(&mut self.store, bet_id, bet);
        round.total_bet_amount = round.total_bet_amount + amount;
        round.bet_count = round.bet_count + 1;
        if round.client_seeds.len() < 3 {
            round.client_seeds.push(client_seed);
        }
        set_round(&mut self.store, round_id, round);
        let mut pool = get_pool(&self.store);
        pool.total_bets = pool.total_bets + amount;
        set_pool(&mut self.store, pool);
        proof {
            self.order@ = s0.order.push(bet_id);
            assert(!s0.order.contains(bet_id));
            lemma_total_push(s0.order, s0.bets, bet_id, bv, Tally::Stake);
            lemma_total_push(s0.order, s0.bets, bet_id, bv, Tally::Payout);
            lemma_total_push(s0.order, s0.bets, bet_id, bv, Tally::Fee);
            let s1 = self@;
            assert(s1.order.no_duplicates()) by {
                assert forall|i: int, j: int|
                    0 <= i < s1.order.len() && 0 <= j < s1.order.len() && i != j implies s1.order[i]
                    != s1.order[j] by {
                    if i == s0.order.len() as int {
                        assert(s0.order[j] == s1.order[j]);
                    } else if j == s0.order.len() as int {
                        assert(s0.order[i] == s1.order[i]);
                    } else {
                        assert(s0.order[i] == s1.order[i]);
                        assert(s0.order[j] == s1.order[j]);
                    }
                }
            }
            assert forall|k: u64| #[trigger] s1.bets.contains_key(k) <==> s1.order.contains(k) by {
                if k != bet_id {
                    if s1.order.contains(k) {
                        let j = choose|j: int| 0 <= j < s1.order.len() && s1.order[j] == k;
                        assert(j != s0.order.len() as int);
                        assert(s0.order[j] == k);
                    }
                    if s0.order.contains(k) {
                        let j = choose|j: int| 0 <= j < s0.order.len() && s0.order[j] == k;
                        assert(s1.order[j] == k);
                    }
                } else {
                    assert(s1.order[s0.order.len() as int] == k);
                }
            }
            assert forall|k: u64| #[trigger] s1.bets.contains_key(k) implies bet_ok(
                k,
                s1.bets[k],
            ) by {
                if k != bet_id {
                    assert(s0.bets.contains_key(k));
                }
            }
            assert forall|k: u64| #[trigger] s1.rounds.contains_key(k) implies round_ok(
                k,
                s1.rounds[k],
            ) && s1.round_totals_match(k) by {
                assert(s0.rounds.contains_key(k));
                lemma_total_push(s0.order, s0.bets, bet_id, bv, Tally::RoundStake(k));
                lemma_total_push(s0.order, s0.bets, bet_id, bv, Tally::RoundPayout(k));
                lemma_total_push(s0.order, s0.bets, bet_id, bv, Tally::RoundCount(k));
            }
            assert forall|k: u64| #[trigger] s1.bets.contains_key(k) implies s1.rounds.contains_key(
                s1.bets[k].round_id,
            ) by {
                if k != bet_id {
                    assert(s0.bets.contains_key(k));
                }
            }
        }
        Ok(bet_id)
    }

    /// Settles `player`'s bet `bet_id` at `current_multiplier` and returns the net payout.
    pub fn cash_out(&mut self, player: Vec<u8>, bet_id: u64, current_multiplier: u64) -> (r:
        Result<i128, Error>)
        requires
            old(self).wf(),
            old(self)@.cash_out_fits(bet_id, current_multiplier),
        ensures
            final(self).wf(),
            final(self)@ == spec_cash_out(old(self)@, player@, bet_id, current_multiplier).0,
            r == spec_cash_out(old(self)@, player@, bet_id, current_multiplier).1,
    {
        let mut bet = match get_bet(&self.store, bet_id) {
            Ok(bet) => bet,
            Err(e) => {
                return Err(e);
            },
        };
        if !bytes_equal(bet.player.as_slice(), player.as_slice()) {
            return Err(Error::Unauthorized);
        }
        if bet.status != BetStatus::Active {
            return Err(Error::BetNotActive);
        }
        let mut round = match get_round(&self.store, bet.round_id) {
            Ok(round) => round,
            Err(e) => {
                return Err(e);
            },
        };
        if round.status != RoundStatus::InProgress {
            return Err(Error::InvalidRoundStatus);
        }
        if current_multiplier >= round.crash_multiplier {
            return Err(Error::AlreadyCrashed);
        }
        if current_multiplier < MIN_MULTIPLIER {
            return Err(Error::InvalidMultiplier);
        }
        let ghost s0 = self@;
        assert(bet_ok(bet_id, s0.bets[bet_id]));
        let (net_payout, house_fee) = payout(bet.amount, current_multiplier);
        let round_id = bet.round_id;
        bet.cash_out_multiplier = current_multiplier;
        bet.payout = net_payout;
        bet.status = BetStatus::CashedOut;
        let ghost bv = bet@;
        set_bet(&mut self.store, bet_id, bet);
        round.total_payout = round.total_payout + net_payout;
        set_round(&mut self.store, round_id, round);
        let mut pool = get_pool(&self.store);
        pool.total_payouts = pool.total_payouts + net_payout;
        pool.total_house_earnings = pool.total_house_earnings + house_fee;
        set_pool(&mut self.store, pool);
        proof {
            assert(s0.order.contains(bet_id));
            lemma_total_update(s0.order, s0.bets, bet_id, bv, Tally::Stake);
            lemma_total_update(s0.order, s0.bets, bet_id, bv, Tally::Payout);
            lemma_total_update(s0.order, s0.bets, bet_id, bv, Tally::Fee);
            let s1 = self@;
            assert forall|k: u64| #[trigger] s1.bets.contains_key(k) <==> s1.order.contains(k) by {
                assert(s0.bets.contains_key(k) <==> s0.order.contains(k));
            }
            assert forall|k: u64| #[trigger] s1.bets.contains_key(k) implies bet_ok(
                k,
                s1.bets[k],
            ) && s1.rounds.contains_key(s1.bets[k].round_id) by {
                assert(s0.bets.contains_key(k));
            }
            assert forall|k: u64| #[trigger] s1.rounds.contains_key(k) implies round_ok(
                k,
                s1.rounds[k],
            ) && s1.round_totals_match(k) by {
                assert(s0.rounds.contains_key(k));
                lemma_total_update(s0.order, s0.bets, bet_id, bv, Tally::RoundStake(k));
                lemma_total_update(s0.order, s0.bets, bet_id, bv, Tally::RoundPayout(k));
                lemma_total_update(s0.order, s0.bets, bet_id, bv, Tally::RoundCount(k));
            }
        }
        Ok(net_payout)
    }

    /// Ends a round in progress. Bets that were not cashed out keep their status.
    pub fn finalize_round(&mut self, round_id: u64, now: u64) -> (r: Result<(), Error>)
        requires
            old(self).wf(),
        ensures
            final(self).wf(),
            final(self)@ == spec_finalize_round(old(self)@, round_id, now).0,
            r == spec_finalize_round(old(self)@, round_id, now).1,
    {
        let mut round = match get_round(&self.store, round_id) {
            Ok(round) => round,
            Err(e) => {
                return Err(e);
            },
        };
        if round.status != RoundStatus::InProgress {
            return Err(Error::InvalidRoundStatus);
        }
        let ghost s0 = self@;
        round.status = RoundStatus::Ended;
        round.ended_at = now;
        set_round(&mut self.store, round_id, round);
        proof {
            let s1 = self@;
            assert forall|k: u64| #[trigger] s1.rounds.contains_key(k) implies s1.round_totals_match(
                k,
            ) && round_ok(k, s1.rounds[k]) by {
                assert(s0.rounds.contains_key(k));
            }
        }
        Ok(())
    }

    /// A copy of round `round_id`.
    pub fn get_round(&self, round_id: u64) -> (r: Result<Round, Error>)
        ensures
            round_result_view(r) == (if self@.rounds.contains_key(round_id) {
                Ok(self@.rounds[round_id])
            } else {
                Err(Error::RoundNotFound)
            }),
    {
        get_round(&self.store, round_id)
    }

    /// A copy of bet `bet_id`.
    pub fn get_bet(&self, bet_id: u64) -> (r: Result<Bet, Error>)
        ensures
            bet_result_view(r) == (if self@.bets.contains_key(bet_id) {
                Ok(self@.bets[bet_id])
            } else {
                Err(Error::BetNotFound)
            }),
    {
        get_bet(&self.store, bet_id)
    }

    /// The pool totals.
    pub fn get_pool(&self) -> (r: Pool)
        ensures
            r == self@.pool,
    {
        get_pool(&self.store)
    }
}


} // verus!
