use vstd::prelude::*;

verus! {

/// The closed set of failures an operation can report; none of them leaves a partial effect.
#[derive(Copy, Clone, Debug, PartialEq, Eq, Structural, PartialOrd, Ord)]
pub enum Error {
    /// Round not found
    RoundNotFound,
    /// Round already exists
    RoundAlreadyExists,
    /// Invalid round status for this operation
    InvalidRoundStatus,
    /// Invalid server seed hash
    InvalidServerSeedHash,
    /// Invalid multiplier value
    InvalidMultiplier,
    /// Invalid bet amount
    InvalidBetAmount,
    /// Bet already placed for this round
    BetAlreadyPlaced,
    /// Bet not found
    BetNotFound,
    /// Bet is not active
    BetNotActive,
    /// Unauthorized operation
    Unauthorized,
    /// Round already crashed
    AlreadyCrashed,
    /// Transfer failed
    TransferFailed,
    /// Admin not initialized
    AdminNotInitialized,
}

impl Error {
    /// The stable numeric code of each error.
    pub open spec fn spec_code(self) -> u32 {
        match self {
            Error::RoundNotFound => 1,
            Error::RoundAlreadyExists => 2,
            Error::InvalidRoundStatus => 3,
            Error::InvalidServerSeedHash => 4,
            Error::InvalidMultiplier => 5,
            Error::InvalidBetAmount => 6,
            Error::BetAlreadyPlaced => 7,
            Error::BetNotFound => 8,
            Error::BetNotActive => 9,
            Error::Unauthorized => 10,
            Error::AlreadyCrashed => 11,
            Error::TransferFailed => 12,
            Error::AdminNotInitialized => 13,
        }
    }

    pub fn code(&self) -> (r: u32)
        ensures
            r == self.spec_code(),
    {
        match self {
            Error::RoundNotFound => 1,
            Error::RoundAlreadyExists => 2,
            Error::InvalidRoundStatus => 3,
            Error::InvalidServerSeedHash => 4,
            Error::InvalidMultiplier => 5,
            Error::InvalidBetAmount => 6,
            Error::BetAlreadyPlaced => 7,
            Error::BetNotFound => 8,
            Error::BetNotActive => 9,
            Error::Unauthorized => 10,
            Error::AlreadyCrashed => 11,
            Error::TransferFailed => 12,
            Error::AdminNotInitialized => 13,
        }
    }
}

} // verus!
