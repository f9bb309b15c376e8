use vstd::prelude::*;
use crate::digest::{bet_id_of, sha256_of};
use crate::error::Error;
use crate::model::{
    bet_ok, spec_cash_out, spec_create_round, spec_finalize_round, spec_place_bet,
    spec_start_round, total_over, State, Tally,
};
use crate::payout::{gross_payout, house_fee, valid_stake, MAX_BET, MIN_BET, MIN_MULTIPLIER};
use crate::types::{BetStatus, RoundStatus, RoundView};

verus! {

/// Creating a round under an id that is already taken fails with `RoundAlreadyExists`
/// and leaves the state as the first creation left it.
pub proof fn lemma_create_round_twice(
    s: State,
    round_id: u64,
    first: [u8; 32],
    second: [u8; 32],
    t1: u64,
    t2: u64,
)
    ensures
        ({
            let s1 = spec_create_round(s, round_id, first, t1).0;
            spec_create_round(s1, round_id, second, t2) == (s1, Err::<crate::types::RoundView, Error>(Error::RoundAlreadyExists))
        }),
{
}

/// A waiting round starts at a valid multiplier exactly when the revealed seed hashes to
/// the round's commitment; a seed that does not fails with `InvalidServerSeedHash` and
/// changes nothing.
pub proof fn lemma_start_round_needs_commitment(
    s: State,
    round_id: u64,
    server_seed: [u8; 32],
    crash_multiplier: u64,
    now: u64,
)
    requires
        s.rounds.contains_key(round_id),
        s.rounds[round_id].status == RoundStatus::Waiting,
    ensures
        crash_multiplier >= MIN_MULTIPLIER ==> (spec_start_round(
            s,
            round_id,
            server_seed,
            crash_multiplier,
            now,
        ).1 is Ok <==> sha256_of(server_seed@) == s.rounds[round_id].server_seed_hash@),
        sha256_of(server_seed@) != s.rounds[round_id].server_seed_hash@ ==> spec_start_round(
            s,
            round_id,
            server_seed,
            crash_multiplier,
            now,
        ) == (s, Err::<(), Error>(Error::InvalidServerSeedHash)),
{
}

/// With the right seed, a waiting round refuses a crash point below 1.00x with
/// `InvalidMultiplier` and starts at any other.
pub proof fn lemma_start_round_multiplier_floor(
    s: State,
    round_id: u64,
    server_seed: [u8; 32],
    crash_multiplier: u64,
    now: u64,
)
    requires
        s.rounds.contains_key(round_id),
        s.rounds[round_id].status == RoundStatus::Waiting,
        sha256_of(server_seed@) == s.rounds[round_id].server_seed_hash@,
    ensures
        crash_multiplier < MIN_MULTIPLIER ==> spec_start_round(
            s,
            round_id,
            server_seed,
            crash_multiplier,
            now,
        ) == (s, Err::<(), Error>(Error::InvalidMultiplier)),
        crash_multiplier >= MIN_MULTIPLIER ==> spec_start_round(
            s,
            round_id,
            server_seed,
            crash_multiplier,
            now,
        ).1 == Ok::<(), Error>(()),
{
}

/// In a waiting round a stake outside the closed bounds fails with `InvalidBetAmount` and
/// changes nothing, while a new player's stake of exactly either bound is accepted.
pub proof fn lemma_place_bet_amount_bounds(
    s: State,
    player: Seq<u8>,
    round_id: u64,
    amount: i128,
    client_seed: [u8; 32],
    now: u64,
)
    requires
        s.rounds.contains_key(round_id),
        s.rounds[round_id].status == RoundStatus::Waiting,
    ensures
        !valid_stake(amount as int) ==> spec_place_bet(
            s,
            player,
            round_id,
            amount,
            client_seed,
            now,
        ) == (s, Err::<u64, Error>(Error::InvalidBetAmount)),
        (amount == MIN_BET || amount == MAX_BET) && !s.holds(bet_id_of(round_id, player))
            ==> spec_place_bet(s, player, round_id, amount, client_seed, now).1 == Ok::<
            u64,
            Error,
        >(bet_id_of(round_id, player)),
{
}

/// Once a player's bet in a round is placed, another valid bet by that player in that
/// round fails with `BetAlreadyPlaced`.
pub proof fn lemma_second_bet_rejected(
    s: State,
    player: Seq<u8>,
    round_id: u64,
    first_amount: i128,
    second_amount: i128,
    first_seed: [u8; 32],
    second_seed: [u8; 32],
    t1: u64,
    t2: u64,
)
    requires
        spec_place_bet(s, player, round_id, first_amount, first_seed, t1).1 is Ok,
        valid_stake(second_amount as int),
    ensures
        ({
            let s1 = spec_place_bet(s, player, round_id, first_amount, first_seed, t1).0;
            spec_place_bet(s1, player, round_id, second_amount, second_seed, t2) == (s1, Err::<
                u64,
                Error,
            >(Error::BetAlreadyPlaced))
        }),
{
    let id = bet_id_of(round_id, player);
    let s1 = spec_place_bet(s, player, round_id, first_amount, first_seed, t1).0;
    assert(s1.bets.contains_key(id));
    assert(s1.rounds.contains_key(round_id));
}

/// A bet that was cashed out cannot be cashed out again: the second attempt fails with
/// `BetNotActive` and changes nothing.
pub proof fn lemma_cash_out_once(
    s: State,
    player: Seq<u8>,
    bet_id: u64,
    first: u64,
    second: u64,
)
    requires
        spec_cash_out(s, player, bet_id, first).1 is Ok,
    ensures
        ({
            let s1 = spec_cash_out(s, player, bet_id, first).0;
            spec_cash_out(s1, player, bet_id, second) == (s1, Err::<i128, Error>(
                Error::BetNotActive,
            ))
        }),
{
}

/// An owner's active bet in a round in progress cannot be cashed out at or past the
/// round's crash point: the attempt fails with `AlreadyCrashed` and changes nothing.
pub proof fn lemma_cash_out_after_crash(s: State, player: Seq<u8>, bet_id: u64, multiplier: u64)
    requires
        s.bets.contains_key(bet_id),
        s.bets[bet_id].player == player,
        s.bets[bet_id].status == BetStatus::Active,
        s.rounds.contains_key(s.bets[bet_id].round_id),
        s.rounds[s.bets[bet_id].round_id].status == RoundStatus::InProgress,
        multiplier >= s.rounds[s.bets[bet_id].round_id].crash_multiplier,
    ensures
        spec_cash_out(s, player, bet_id, multiplier) == (s, Err::<i128, Error>(
            Error::AlreadyCrashed,
        )),
{
}

/// In every reachable state no round holds more than three client seeds, however many
/// bets it has.
pub proof fn lemma_client_seeds_capped(s: State)
    requires
        s.inv(),
    ensures
        forall|k: u64| #[trigger] s.rounds.contains_key(k) ==> s.rounds[k].client_seeds.len() <= 3,
{
}

/// In every reachable state the pool totals are the sums, over every bet ever placed, of
/// the stakes, of the net payouts, and of the house fees of the bets cashed out.
pub proof fn lemma_pool_matches_bets(s: State)
    requires
        s.inv(),
    ensures
        s.pool.total_bets == s.total_staked(),
        s.pool.total_payouts == s.total_paid(),
        s.pool.total_house_earnings == s.total_fees(),
        forall|k: u64| #[trigger] s.bets.contains_key(k) <==> s.order.contains(k),
        s.order.no_duplicates(),
{
}

/// In every reachable state every bet belongs to an existing round, and each round's
/// staked total, paid-out total and bet count are the sums over the bets placed in it.
pub proof fn lemma_round_totals_match_bets(s: State, round_id: u64)
    requires
        s.inv(),
        s.rounds.contains_key(round_id),
    ensures
        s.rounds[round_id].total_bet_amount == total_over(
            s.order,
            s.bets,
            Tally::RoundStake(round_id),
        ),
        s.rounds[round_id].total_payout == total_over(s.order, s.bets, Tally::RoundPayout(round_id)),
        s.rounds[round_id].bet_count == total_over(s.order, s.bets, Tally::RoundCount(round_id)),
        forall|k: u64| #[trigger] s.bets.contains_key(k) ==> s.rounds.contains_key(s.bets[k].round_id),
{
}

/// The position of a status in the round lifecycle.
pub open spec fn status_rank(s: RoundStatus) -> int {
    match s {
        RoundStatus::Waiting => 0,
        RoundStatus::InProgress => 1,
        RoundStatus::Ended => 2,
    }
}

/// `b` is a later version of round `a`: same commitment, status no earlier, and a crash
/// point that, once set, stays as it was.
pub open spec fn round_successor(a: RoundView, b: RoundView) -> bool {
    &&& b.server_seed_hash == a.server_seed_hash
    &&& status_rank(a.status) <= status_rank(b.status)
    &&& a.status != RoundStatus::Waiting ==> b.crash_multiplier == a.crash_multiplier
        && b.started_at == a.started_at
    &&& a.status == RoundStatus::Ended ==> b == a
}

/// Every round of `s` is still in `t`, as a later version of itself.
pub open spec fn rounds_evolve(s: State, t: State) -> bool {
    forall|k: u64| #[trigger] s.rounds.contains_key(k) ==> t.rounds.contains_key(k)
        && round_successor(s.rounds[k], t.rounds[k])
}

/// No pool total is lower in `t` than in `s`.
pub open spec fn pool_grows(s: State, t: State) -> bool {
    &&& s.pool.total_bets <= t.pool.total_bets
    &&& s.pool.total_payouts <= t.pool.total_payouts
    &&& s.pool.total_house_earnings <= t.pool.total_house_earnings
}

/// No operation moves a round backwards, changes its commitment, or changes its crash
/// point once set; an ended round is never changed again; no operation lowers a pool
/// total.
pub proof fn lemma_operations_move_forward(
    s: State,
    round_id: u64,
    bet_id: u64,
    seed: [u8; 32],
    player: Seq<u8>,
    amount: i128,
    multiplier: u64,
    now: u64,
)
    requires
        s.inv(),
        s.place_bet_fits(round_id, amount),
        s.cash_out_fits(bet_id, multiplier),
    ensures
        rounds_evolve(s, spec_create_round(s, round_id, seed, now).0),
        pool_grows(s, spec_create_round(s, round_id, seed, now).0),
        rounds_evolve(s, spec_start_round(s, round_id, seed, multiplier, now).0),
        pool_grows(s, spec_start_round(s, round_id, seed, multiplier, now).0),
        rounds_evolve(s, spec_place_bet(s, player, round_id, amount, seed, now).0),
        pool_grows(s, spec_place_bet(s, player, round_id, amount, seed, now).0),
        rounds_evolve(s, spec_cash_out(s, player, bet_id, multiplier).0),
        pool_grows(s, spec_cash_out(s, player, bet_id, multiplier).0),
        rounds_evolve(s, spec_finalize_round(s, round_id, now).0),
        pool_grows(s, spec_finalize_round(s, round_id, now).0),
{
    if s.bets.contains_key(bet_id) {
        let b = s.bets[bet_id];
        assert(bet_ok(bet_id, b));
        let g = gross_payout(b.amount as int, multiplier as int);
        assert(0 <= g <= 1_000_000_000_000 * 18_446_744_073_709_551_615) by (nonlinear_arith)
            requires
                g == b.amount as int * multiplier as int / 100,
                0 <= b.amount <= 1_000_000_000_000,
                0 <= multiplier <= 18_446_744_073_709_551_615,
        ;
        assert(0 <= house_fee(b.amount as int, multiplier as int) <= g) by (nonlinear_arith)
            requires
                house_fee(b.amount as int, multiplier as int) == g * 300 / 10000,
                g >= 0,
        ;
    }
}

} // verus!
