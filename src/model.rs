use vstd::prelude::*;
use crate::digest::{bet_id_of, sha256_of};
use crate::error::Error;
use crate::payout::{house_fee, net_payout, valid_stake, MIN_MULTIPLIER};
use crate::types::{BetStatus, BetView, Pool, RoundStatus, RoundView};

verus! {

/// The whole contract state as a mathematical value. `order` lists the bet ids in the
/// order the bets were placed; it is bookkeeping for the accounting invariant.
pub struct State {
    pub admin: Option<Seq<u8>>,
    pub pool: Pool,
    pub rounds: Map<u64, RoundView>,
    pub bets: Map<u64, BetView>,
    pub order: Seq<u64>,
}

/// Which running total a bet contributes to.
pub enum Tally {
    Stake,
    Payout,
    Fee,
    /// Stakes of the bets in one round.
    RoundStake(u64),
    /// Net payouts of the bets in one round.
    RoundPayout(u64),
    /// The number of bets in one round.
    RoundCount(u64),
}

/// What one bet contributes to a running total.
pub open spec fn tally(b: BetView, t: Tally) -> int {
    match t {
        Tally::Stake => b.amount as int,
        Tally::Payout => b.payout as int,
        Tally::Fee => if b.status == BetStatus::CashedOut {
            house_fee(b.amount as int, b.cash_out_multiplier as int)
        } else {
            0
        },
        Tally::RoundStake(r) => if b.round_id == r {
            b.amount as int
        } else {
            0
        },
        Tally::RoundPayout(r) => if b.round_id == r {
            b.payout as int
        } else {
            0
        },
        Tally::RoundCount(r) => if b.round_id == r {
            1
        } else {
            0
        },
    }
}

/// The sum of one tally over the listed bets.
pub open spec fn total_over(order: Seq<u64>, bets: Map<u64, BetView>, t: Tally) -> int
    decreases order.len(),
{
    if order.len() == 0 {
        0
    } else {
        total_over(order.drop_last(), bets, t) + tally(bets[order.last()], t)
    }
}

pub open spec fn round_ok(key: u64, r: RoundView) -> bool {
    &&& r.id == key
    &&& r.client_seeds.len() <= 3
    &&& r.status == RoundStatus::Waiting ==> r.crash_multiplier == 0
    &&& r.status != RoundStatus::Waiting ==> r.crash_multiplier >= MIN_MULTIPLIER
    &&& r.status == RoundStatus::Waiting ==> r.started_at == 0
    &&& r.status != RoundStatus::Ended ==> r.ended_at == 0
}

pub open spec fn bet_ok(key: u64, b: BetView) -> bool {
    &&& b.id == key
    &&& valid_stake(b.amount as int)
    &&& b.status == BetStatus::Active ==> b.cash_out_multiplier == 0 && b.payout == 0
    &&& b.status == BetStatus::CashedOut ==> b.cash_out_multiplier >= MIN_MULTIPLIER && b.payout
        == net_payout(b.amount as int, b.cash_out_multiplier as int)
}

/// A fresh round, as `create_round` makes it.
pub open spec fn fresh_round(id: u64, commitment: [u8; 32], now: u64) -> RoundView {
    RoundView {
        id,
        status: RoundStatus::Waiting,
        server_seed_hash: commitment,
        crash_multiplier: 0,
        created_at: now,
        started_at: 0,
        ended_at: 0,
        total_bet_amount: 0,
        total_payout: 0,
        bet_count: 0,
        client_seeds: Seq::empty(),
    }
}

impl State {
    /// Whether the record scope holds a round or a bet under `key`.
    pub open spec fn holds(self, key: u64) -> bool {
        self.rounds.contains_key(key) || self.bets.contains_key(key)
    }

    pub open spec fn total_staked(self) -> int {
        total_over(self.order, self.bets, Tally::Stake)
    }

    pub open spec fn total_paid(self) -> int {
        total_over(self.order, self.bets, Tally::Payout)
    }

    pub open spec fn total_fees(self) -> int {
        total_over(self.order, self.bets, Tally::Fee)
    }

    /// Each round's totals and bet count are the sums over the bets placed in it.
    pub open spec fn round_totals_match(self, k: u64) -> bool {
        &&& self.rounds[k].total_bet_amount == total_over(self.order, self.bets, Tally::RoundStake(k))
        &&& self.rounds[k].total_payout == total_over(self.order, self.bets, Tally::RoundPayout(k))
        &&& self.rounds[k].bet_count == total_over(self.order, self.bets, Tally::RoundCount(k))
    }

    /// The state invariant: well-formed records, every bet in an existing round, and pool
    /// and round totals equal to the sums over the bets placed.
    pub open spec fn inv(self) -> bool {
        &&& self.admin.is_some()
        &&& forall|k: u64| #[trigger] self.rounds.contains_key(k) ==> round_ok(k, self.rounds[k])
        &&& forall|k: u64| #[trigger] self.rounds.contains_key(k) ==> self.round_totals_match(k)
        &&& forall|k: u64| #[trigger] self.bets.contains_key(k) ==> bet_ok(k, self.bets[k])
        &&& forall|k: u64| #[trigger] self.bets.contains_key(k) ==> self.rounds.contains_key(
            self.bets[k].round_id,
        )
        &&& self.order.no_duplicates()
        &&& forall|k: u64| #[trigger] self.bets.contains_key(k) <==> self.order.contains(k)
        &&& self.pool.total_bets == self.total_staked()
        &&& self.pool.total_payouts == self.total_paid()
        &&& self.pool.total_house_earnings == self.total_fees()
    }

    /// The running totals that a bet of `amount` in `round_id` would raise stay in range.
    pub open spec fn place_bet_fits(self, round_id: u64, amount: i128) -> bool {
        valid_stake(amount as int) && self.rounds.contains_key(round_id) ==> {
            &&& self.pool.total_bets + amount <= i128::MAX
            &&& self.rounds[round_id].total_bet_amount + amount <= i128::MAX
            &&& self.rounds[round_id].bet_count < u32::MAX
        }
    }

    /// The totals that cashing out `bet_id` at `multiplier` would raise stay in range.
    pub open spec fn cash_out_fits(self, bet_id: u64, multiplier: u64) -> bool {
        self.bets.contains_key(bet_id) ==> {
            let b = self.bets[bet_id];
            &&& self.pool.total_payouts + net_payout(b.amount as int, multiplier as int)
                <= i128::MAX
            &&& self.pool.total_house_earnings + house_fee(b.amount as int, multiplier as int)
                <= i128::MAX
            &&& self.rounds.contains_key(b.round_id) ==> self.rounds[b.round_id].total_payout
                + net_payout(b.amount as int, multiplier as int) <= i128::MAX
        }
    }
}

/// `create_round`: the next state and the result.
pub open spec fn spec_create_round(s: State, round_id: u64, commitment: [u8; 32], now: u64) -> (
    State,
    Result<RoundView, Error>,
) {
    if s.holds(round_id) {
        (s, Err(Error::RoundAlreadyExists))
    } else {
        let r = fresh_round(round_id, commitment, now);
        (State { rounds: s.rounds.insert(round_id, r), ..s }, Ok(r))
    }
}

/// `start_round`: the next state and the result.
pub open spec fn spec_start_round(
    s: State,
    round_id: u64,
    server_seed: [u8; 32],
    crash_multiplier: u64,
    now: u64,
) -> (State, Result<(), Error>) {
    if !s.rounds.contains_key(round_id) {
        (s, Err(Error::RoundNotFound))
    } else if s.rounds[round_id].status != RoundStatus::Waiting {
        (s, Err(Error::InvalidRoundStatus))
    } else if sha256_of(server_seed@) != s.rounds[round_id].server_seed_hash@ {
        (s, Err(Error::InvalidServerSeedHash))
    } else if crash_multiplier < MIN_MULTIPLIER {
        (s, Err(Error::InvalidMultiplier))
    } else {
        let r = RoundView {
            status: RoundStatus::InProgress,
            crash_multiplier,
            started_at: now,
            ..s.rounds[round_id]
        };
        (State { rounds: s.rounds.insert(round_id, r), ..s }, Ok(()))
    }
}

/// `place_bet`: the next state and the result.
pub open spec fn spec_place_bet(
    s: State,
    player: Seq<u8>,
    round_id: u64,
    amount: i128,
    client_seed: [u8; 32],
    now: u64,
) -> (State, Result<u64, Error>) {
    if !s.rounds.contains_key(round_id) {
        (s, Err(Error::RoundNotFound))
    } else if s.rounds[round_id].status != RoundStatus::Waiting {
        (s, Err(Error::InvalidRoundStatus))
    } else if !valid_stake(amount as int) {
        (s, Err(Error::InvalidBetAmount))
    } else if s.holds(bet_id_of(round_id, player)) {
        (s, Err(Error::BetAlreadyPlaced))
    } else {
        let id = bet_id_of(round_id, player);
        let bet = BetView {
            id,
            round_id,
            player,
            amount,
            cash_out_multiplier: 0,
            payout: 0,
            status: BetStatus::Active,
            timestamp: now,
        };
        let r = s.rounds[round_id];
        let r2 = RoundView {
            total_bet_amount: (r.total_bet_amount + amount) as i128,
            bet_count: (r.bet_count + 1) as u32,
            client_seeds: if r.client_seeds.len() < 3 {
                r.client_seeds.push(client_seed)
            } else {
                r.client_seeds
            },
            ..r
        };
        let pool = Pool { total_bets: (s.pool.total_bets + amount) as i128, ..s.pool };
        (
            State {
                pool,
                rounds: s.rounds.insert(round_id, r2),
                bets: s.bets.insert(id, bet),
                order: s.order.push(id),
                ..s
            },
            Ok(id),
        )
    }
}

/// `cash_out`: the next state and the result.
pub open spec fn spec_cash_out(s: State, player: Seq<u8>, bet_id: u64, multiplier: u64) -> (
    State,
    Result<i128, Error>,
) {
    if !s.bets.contains_key(bet_id) {
        (s, Err(Error::BetNotFound))
    } else if s.bets[bet_id].player != player {
        (s, Err(Error::Unauthorized))
    } else if s.bets[bet_id].status != BetStatus::Active {
        (s, Err(Error::BetNotActive))
    } else if !s.rounds.contains_key(s.bets[bet_id].round_id) {
        (s, Err(Error::RoundNotFound))
    } else if s.rounds[s.bets[bet_id].round_id].status != RoundStatus::InProgress {
        (s, Err(Error::InvalidRoundStatus))
    } else if multiplier >= s.rounds[s.bets[bet_id].round_id].crash_multiplier {
        (s, Err(Error::AlreadyCrashed))
    } else if multiplier < MIN_MULTIPLIER {
        (s, Err(Error::InvalidMultiplier))
    } else {
        let b = s.bets[bet_id];
        let net = net_payout(b.amount as int, multiplier as int) as i128;
        let fee = house_fee(b.amount as int, multiplier as int) as i128;
        let b2 = BetView {
            cash_out_multiplier: multiplier,
            payout: net,
            status: BetStatus::CashedOut,
            ..b
        };
        let r = s.rounds[b.round_id];
        let r2 = RoundView { total_payout: (r.total_payout + net) as i128, ..r };
        let pool = Pool {
            total_payouts: (s.pool.total_payouts + net) as i128,
            total_house_earnings: (s.pool.total_house_earnings + fee) as i128,
            ..s.pool
        };
        (
            State {
                pool,
                rounds: s.rounds.insert(b.round_id, r2),
                bets: s.bets.insert(bet_id, b2),
                ..s
            },
            Ok(net),
        )
    }
}

/// `finalize_round`: the next state and the result. Bets left active stay as they are.
pub open spec fn spec_finalize_round(s: State, round_id: u64, now: u64) -> (
    State,
    Result<(), Error>,
) {
    if !s.rounds.contains_key(round_id) {
        (s, Err(Error::RoundNotFound))
    } else if s.rounds[round_id].status != RoundStatus::InProgress {
        (s, Err(Error::InvalidRoundStatus))
    } else {
        let r = RoundView { status: RoundStatus::Ended, ended_at: now, ..s.rounds[round_id] };
        (State { rounds: s.rounds.insert(round_id, r), ..s }, Ok(()))
    }
}

/// Changing a bet that is not listed leaves a total as it was.
pub proof fn lemma_total_frame(order: Seq<u64>, bets: Map<u64, BetView>, k: u64, b: BetView, t: Tally)
    requires
        !order.contains(k),
    ensures
        total_over(order, bets.insert(k, b), t) == total_over(order, bets, t),
    decreases order.len(),
{
    if order.len() > 0 {
        assert(!order.drop_last().contains(k)) by {
            if order.drop_last().contains(k) {
                let j = choose|j: int| 0 <= j < order.drop_last().len() && order.drop_last()[j] == k;
                assert(order[j] == k);
            }
        }
        lemma_total_frame(order.drop_last(), bets, k, b, t);
        assert(order.last() != k) by {
            assert(order[order.len() - 1] == order.last());
        }
    }
}

/// Changing one listed bet moves a total by the change in that bet's tally.
pub proof fn lemma_total_update(order: Seq<u64>, bets: Map<u64, BetView>, k: u64, b: BetView, t: Tally)
    requires
        order.no_duplicates(),
        order.contains(k),
    ensures
        total_over(order, bets.insert(k, b), t) == total_over(order, bets, t) - tally(bets[k], t)
            + tally(b, t),
    decreases order.len(),
{
    let pre = order.drop_last();
    if order.last() == k {
        assert(!pre.contains(k)) by {
            if pre.contains(k) {
                let j = choose|j: int| 0 <= j < pre.len() && pre[j] == k;
                assert(order[j] == order[order.len() - 1]);
            }
        }
        lemma_total_frame(pre, bets, k, b, t);
    } else {
        assert(pre.no_duplicates());
        assert(pre.contains(k)) by {
            let j = choose|j: int| 0 <= j < order.len() && order[j] == k;
            assert(j != order.len() - 1);
            assert(pre[j] == k);
        }
        lemma_total_update(pre, bets, k, b, t);
    }
}

/// A total over bets that all tally zero is zero.
pub proof fn lemma_total_zero(order: Seq<u64>, bets: Map<u64, BetView>, t: Tally)
    requires
        forall|i: int| 0 <= i < order.len() ==> tally(#[trigger] bets[order[i]], t) == 0,
    ensures
        total_over(order, bets, t) == 0,
    decreases order.len(),
{
    if order.len() > 0 {
        let pre = order.drop_last();
        assert forall|i: int| 0 <= i < pre.len() implies tally(#[trigger] bets[pre[i]], t) == 0 by {
            assert(pre[i] == order[i]);
        }
        lemma_total_zero(pre, bets, t);
        assert(tally(bets[order[order.len() - 1]], t) == 0);
    }
}

/// Listing a new bet raises a total by that bet's tally.
pub proof fn lemma_total_push(order: Seq<u64>, bets: Map<u64, BetView>, k: u64, b: BetView, t: Tally)
    requires
        !order.contains(k),
    ensures
        total_over(order.push(k), bets.insert(k, b), t) == total_over(order, bets, t) + tally(b, t),
{
    assert(order.push(k).drop_last() =~= order);
    lemma_total_frame(order, bets, k, b, t);
}

} // verus!
