use vstd::prelude::*;

verus! {

/// The lifecycle of a round; it only moves forward.
#[derive(Copy, Clone, Debug, PartialEq, Eq, Structural)]
pub enum RoundStatus {
    Waiting,
    InProgress,
    Ended,
}

/// The lifecycle of a bet.
#[derive(Copy, Clone, Debug, PartialEq, Eq, Structural)]
pub enum BetStatus {
    Active,
    CashedOut,
    Lost,
}

/// One betting epoch.
#[derive(Clone, Debug)]
pub struct Round {
    pub id: u64,
    pub status: RoundStatus,
    pub server_seed_hash: [u8; 32],
    /// Fixed point with two decimals (100 = 1.00x); 0 until the round starts.
    pub crash_multiplier: u64,
    pub created_at: u64,
    pub started_at: u64,
    pub ended_at: u64,
    pub total_bet_amount: i128,
    pub total_payout: i128,
    pub bet_count: u32,
    /// The seeds of the first bets, at most three.
    pub client_seeds: Vec<[u8; 32]>,
}

/// A round as a mathematical value.
pub struct RoundView {
    pub id: u64,
    pub status: RoundStatus,
    pub server_seed_hash: [u8; 32],
    pub crash_multiplier: u64,
    pub created_at: u64,
    pub started_at: u64,
    pub ended_at: u64,
    pub total_bet_amount: i128,
    pub total_payout: i128,
    pub bet_count: u32,
    pub client_seeds: Seq<[u8; 32]>,
}

impl View for Round {
    type V = RoundView;

    open spec fn view(&self) -> RoundView {
        RoundView {
            id: self.id,
            status: self.status,
            server_seed_hash: self.server_seed_hash,
            crash_multiplier: self.crash_multiplier,
            created_at: self.created_at,
            started_at: self.started_at,
            ended_at: self.ended_at,
            total_bet_amount: self.total_bet_amount,
            total_payout: self.total_payout,
            bet_count: self.bet_count,
            client_seeds: self.client_seeds@,
        }
    }
}

impl Round {
    /// An independent copy of this round.
    pub fn snapshot(&self) -> (r: Round)
        ensures
            r@ == self@,
    {
        let mut seeds: Vec<[u8; 32]> = Vec::new();
        let mut i: usize = 0;
        while i < self.client_seeds.len()
            invariant
                i <= self.client_seeds@.len(),
                seeds@ == self.client_seeds@.take(i as int),
            decreases self.client_seeds@.len() - i,
        {
            seeds.push(self.client_seeds[i]);
            assert(self.client_seeds@.take(i + 1) =~= self.client_seeds@.take(i as int).push(
                self.client_seeds@[i as int],
            ));
            i = i + 1;
        }
        assert(self.client_seeds@.take(self.client_seeds@.len() as int) =~= self.client_seeds@);
        Round {
            id: self.id,
            status: self.status,
            server_seed_hash: self.server_seed_hash,
            crash_multiplier: self.crash_multiplier,
            created_at: self.created_at,
            started_at: self.started_at,
            ended_at: self.ended_at,
            total_bet_amount: self.total_bet_amount,
            total_payout: self.total_payout,
            bet_count: self.bet_count,
            client_seeds: seeds,
        }
    }
}

/// One player's stake in one round. The player is named by the bytes of their address.
#[derive(Clone, Debug)]
pub struct Bet {
    pub id: u64,
    pub round_id: u64,
    pub player: Vec<u8>,
    pub amount: i128,
    /// 0 until cashed out.
    pub cash_out_multiplier: u64,
    /// 0 until cashed out.
    pub payout: i128,
    pub status: BetStatus,
    pub timestamp: u64,
}

/// A bet as a mathematical value.
pub struct BetView {
    pub id: u64,
    pub round_id: u64,
    pub player: Seq<u8>,
    pub amount: i128,
    pub cash_out_multiplier: u64,
    pub payout: i128,
    pub status: BetStatus,
    pub timestamp: u64,
}

impl View for Bet {
    type V = BetView;

    open spec fn view(&self) -> BetView {
        BetView {
            id: self.id,
            round_id: self.round_id,
            player: self.player@,
            amount: self.amount,
            cash_out_multiplier: self.cash_out_multiplier,
            payout: self.payout,
            status: self.status,
            timestamp: self.timestamp,
        }
    }
}

/// A copy of a byte string.
pub fn copy_bytes(v: &Vec<u8>) -> (r: Vec<u8>)
    ensures
        r@ == v@,
{
    let mut out: Vec<u8> = Vec::new();
    let mut i: usize = 0;
    while i < v.len()
        invariant
            i <= v@.len(),
            out@ == v@.take(i as int),
        decreases v@.len() - i,
    {
        out.push(v[i]);
        assert(v@.take(i + 1) =~= v@.take(i as int).push(v@[i as int]));
        i = i + 1;
    }
    assert(v@.take(v@.len() as int) =~= v@);
    out
}

impl Bet {
    /// An independent copy of this bet.
    pub fn snapshot(&self) -> (r: Bet)
        ensures
            r@ == self@,
    {
        Bet {
            id: self.id,
            round_id: self.round_id,
            player: copy_bytes(&self.player),
            amount: self.amount,
            cash_out_multiplier: self.cash_out_multiplier,
            payout: self.payout,
            status: self.status,
            timestamp: self.timestamp,
        }
    }
}

/// Lifetime totals over all rounds.
#[derive(Copy, Clone, Debug, PartialEq, Eq, Structural)]
pub struct Pool {
    pub total_bets: i128,
    pub total_payouts: i128,
    pub total_house_earnings: i128,
}

impl Pool {
    pub open spec fn spec_zero() -> Pool {
        Pool { total_bets: 0, total_payouts: 0, total_house_earnings: 0 }
    }
}

} // verus!
