//! A crash-game wagering ledger: rounds whose crash point is committed by hash before any
//! bet, bets that settle at most once, exact payout arithmetic, and pool accounting.
//! Every operation is verified against a state-transition specification (`model`), and
//! the properties that tie operations together are proved in `laws`.

pub mod contract;
pub mod digest;
pub mod error;
pub mod laws;
pub mod model;
pub mod payout;
pub mod storage;
pub mod types;

pub use contract::BalloonFlyContract;
pub use error::Error;
pub use types::{Bet, BetStatus, Pool, Round, RoundStatus};
