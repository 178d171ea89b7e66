//! The records of the round lifecycle: rounds, submissions, recorded voter
//! allocations, and the planned payments of a disbursement pass.

use vstd::prelude::*;

verus! {

/// A time-boxed funding cycle with a fixed pool and a submission deadline.
///
/// `is_active` flips false exactly once (when voting closes) and
/// `funds_disbursed` flips true exactly once (when a disbursement is
/// confirmed); `funding_amount` and `deadline` never change after creation.
/// The submission list is append-only.
#[derive(Debug)]
pub struct Round {
    pub id: u64,
    pub funding_amount: u64,
    pub deadline: u64,
    pub is_active: bool,
    pub submissions: Vec<u64>,
    pub funds_disbursed: bool,
}

/// A project entered into a round, eligible to receive votes and funds.
/// `total_votes` only ever grows, and only while its round exists.
#[derive(Copy, Clone, PartialEq, Eq, Structural, Debug)]
pub struct Submission {
    pub id: u64,
    pub round_id: u64,
    pub submitter: u64,
    pub total_votes: u64,
}

/// A voter's recorded allocation vector for one round: pairs of
/// submission id and vote count. At most one live record exists per
/// `(round_id, voter)` pair; a re-vote overwrites the previous record.
#[derive(Debug)]
pub struct VoterAllocation {
    pub round_id: u64,
    pub voter: u64,
    pub allocations: Vec<(u64, u64)>,
}

/// One planned transfer of a disbursement pass: `amount` tokens owed to
/// `submitter`.
#[derive(Copy, Clone, PartialEq, Eq, Structural, Debug)]
pub struct Payment {
    pub submitter: u64,
    pub amount: u64,
}

/// Sum of the second components of a pair sequence, as a mathematical
/// integer: the vote counts of an allocation vector, or the amounts of a
/// stored funding split.
pub open spec fn sum_pair_values(s: Seq<(u64, u64)>) -> int
    decreases s.len(),
{
    if s.len() == 0 {
        0
    } else {
        sum_pair_values(s.drop_last()) + s.last().1
    }
}

/// Sum of the amounts of a payment plan, as a mathematical integer.
pub open spec fn sum_payment_amounts(s: Seq<Payment>) -> int
    decreases s.len(),
{
    if s.len() == 0 {
        0
    } else {
        sum_payment_amounts(s.drop_last()) + s.last().amount
    }
}

/// Summing pair values one element at a time agrees with
/// `sum_pair_values`.
pub proof fn lemma_sum_pair_values_take_step(s: Seq<(u64, u64)>, i: int)
    requires
        0 <= i < s.len(),
    ensures
        sum_pair_values(s.take(i + 1)) == sum_pair_values(s.take(i)) + s[i].1,
{
    assert(s.take(i + 1).drop_last() =~= s.take(i));
    assert(s.take(i + 1).last() == s[i]);
}

} // verus!
