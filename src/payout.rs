use vstd::prelude::*;

verus! {

/// House edge in basis points (3.00%).
pub const HOUSE_EDGE_BPS: u32 = 300;

/// Smallest accepted stake, inclusive.
pub const MIN_BET: i128 = 10_000_000;

/// Largest accepted stake, inclusive.
pub const MAX_BET: i128 = 1_000_000_000_000;

/// Lowest multiplier (1.00x) for a crash point or a cash-out claim.
pub const MIN_MULTIPLIER: u64 = 100;

/// A stake the ledger accepts.
pub open spec fn valid_stake(stake: int) -> bool {
    MIN_BET <= stake <= MAX_BET
}

/// Gross payout: the stake times the multiplier, which carries two implied decimals.
pub open spec fn gross_payout(stake: int, multiplier: int) -> int {
    stake * multiplier / 100
}

/// The house's share of a cash-out, taken from the gross payout.
pub open spec fn house_fee(stake: int, multiplier: int) -> int {
    gross_payout(stake, multiplier) * (HOUSE_EDGE_BPS as int) / 10000
}

/// What the player receives: the gross payout less the house fee.
pub open spec fn net_payout(stake: int, multiplier: int) -> int {
    gross_payout(stake, multiplier) - house_fee(stake, multiplier)
}

/// Computes `(net, fee)` for a stake cashed out at `multiplier`: multiply first, then
/// truncate at each division, fee from the gross, and subtract the fee last.
pub fn payout(stake: i128, multiplier: u64) -> (r: (i128, i128))
    requires
        valid_stake(stake as int),
    ensures
        r.0 == net_payout(stake as int, multiplier as int),
        r.1 == house_fee(stake as int, multiplier as int),
        0 <= r.1 <= r.0,
{
    let s: u128 = stake as u128;
    let m: u128 = multiplier as u128;
    assert(s * m <= 1_000_000_000_000u128 * 18_446_744_073_709_551_615u128) by (nonlinear_arith)
        requires
            s <= 1_000_000_000_000u128,
            m <= 18_446_744_073_709_551_615u128,
    ;
    let gross: u128 = s * m / 100;
    assert(gross <= 1_000_000_000_000u128 * 18_446_744_073_709_551_615u128);
    let fee: u128 = gross * 300 / 10000;
    assert(fee <= gross) by (nonlinear_arith)
        requires
            fee == gross * 300 / 10000,
    ;
    let net: u128 = gross - fee;
    assert(fee <= net) by (nonlinear_arith)
        requires
            fee == gross * 300 / 10000,
            net == gross - fee,
    ;
    (net as i128, fee as i128)
}

} // verus!
