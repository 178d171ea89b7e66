//! Retroactive public-goods funding round manager.
//!
//! Tracks funding rounds, accepts project submissions, lets a fixed-credit
//! electorate allocate votes across submissions, computes a proportional
//! funding split from the vote tally, and plans the final disbursement.
//! The host layer (storage, authorization, clock, events, token transfers)
//! is kept outside: every entry point here works on plain values.

pub mod contract;
pub mod engine;
pub mod errors;
pub mod types;

pub use contract::RetroPGFContract;
pub use contract::VOTE_CREDITS;
pub use errors::ContractError;
pub use types::{Payment, Round, Submission, VoterAllocation};
