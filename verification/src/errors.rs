//! The closed set of failure kinds returned by the round manager.

use vstd::prelude::*;

verus! {

/// Every entry point returns success or one of these specific kinds;
/// nothing is silently swallowed and nothing is retried internally.
#[derive(Copy, Clone, Debug, PartialEq, Eq, Structural)]
pub enum ContractError {
    Unauthorized,
    RoundNotFound,
    RoundNotActive,
    SubmissionNotFound,
    SubmissionDeadlinePassed,
    ExceededVoteLimit,
    AlreadyVoted,
    VotingClosed,
    FundsAlreadyDisbursed,
    InvalidAllocations,
    TransferFailed,
    InsufficientFunds,
    AdminNotSet,
}

} // verus!
