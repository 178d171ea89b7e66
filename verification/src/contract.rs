//! The round manager's state machine.
//!
//! `RetroPGFContract` owns every durable record of the system: the
//! configured administrator, the registered voter slot, the rounds, the
//! submissions, each round's stored funding split, and each voter's
//! recorded allocation vector. Every entry point takes the facts the host
//! layer resolves (the caller's identity, the ledger clock, the pool
//! balance) as plain values and returns success or one specific error.
//!
//! Identities are the opaque numeric ids under which the host layer
//! registers addresses; ids of rounds and submissions are 1-based,
//! monotonic, and never reused.

use vstd::prelude::*;

use crate::engine;
use crate::engine::{share, sum_u64};
use crate::errors::ContractError;
use crate::types::{
    lemma_sum_pair_values_take_step, sum_pair_values, sum_payment_amounts, Payment, Round,
    Submission, VoterAllocation,
};

verus! {

/// The fixed per-voter credit budget that bounds the vote counts of one
/// `allocate_votes` call.
pub const VOTE_CREDITS: u64 = 20;

/// The submission store after applying the first `n` pairs of an
/// allocation vector, in order: each pair adds its vote count to the
/// tally of the submission it names; a pair naming no submission changes
/// nothing.
pub open spec fn apply_votes(subs: Seq<Submission>, allocs: Seq<(u64, u64)>, n: int) -> Seq<
    Submission,
>
    decreases n,
{
    if n <= 0 {
        subs
    } else {
        let prev = apply_votes(subs, allocs, n - 1);
        let sid = allocs[n - 1].0;
        let v = allocs[n - 1].1;
        if 1 <= sid && sid <= prev.len() {
            prev.update(
                sid - 1,
                Submission {
                    total_votes: (prev[sid - 1].total_votes + v) as u64,
                    ..prev[sid - 1]
                },
            )
        } else {
            prev
        }
    }
}

/// No submission tally overflows while an allocation vector is applied.
pub open spec fn votes_fit(subs: Seq<Submission>, allocs: Seq<(u64, u64)>) -> bool {
    forall|n: int|
        0 <= n < allocs.len() ==> {
            let prev = apply_votes(subs, allocs, n);
            let sid = (#[trigger] allocs[n]).0;
            (1 <= sid && sid <= prev.len()) ==> prev[sid - 1].total_votes + allocs[n].1
                <= u64::MAX
        }
}

/// Applying votes changes tallies only: the length of the store and every
/// record's id, round and submitter stay as they were.
pub proof fn lemma_apply_votes_shape(subs: Seq<Submission>, allocs: Seq<(u64, u64)>, n: int)
    requires
        0 <= n,
    ensures
        apply_votes(subs, allocs, n).len() == subs.len(),
        forall|j: int|
            0 <= j < subs.len() ==> {
                let a = #[trigger] apply_votes(subs, allocs, n)[j];
                &&& a.id == subs[j].id
                &&& a.round_id == subs[j].round_id
                &&& a.submitter == subs[j].submitter
            },
    decreases n,
{
    if n > 0 {
        lemma_apply_votes_shape(subs, allocs, n - 1);
    }
}

/// An element-for-element copy of an allocation vector.
fn copy_pairs(src: &Vec<(u64, u64)>) -> (dst: Vec<(u64, u64)>)
    ensures
        dst@ == src@,
{
    let mut dst: Vec<(u64, u64)> = Vec::new();
    let mut i: usize = 0;
    while i < src.len()
        invariant
            0 <= i <= src@.len(),
            dst@ == src@.take(i as int),
        decreases src@.len() - i,
    {
        let p = src[i];
        proof {
            assert(src@.take(i as int).push(src@[i as int]) =~= src@.take(i as int + 1));
        }
        dst.push(p);
        i = i + 1;
    }
    proof {
        assert(src@.take(src@.len() as int) =~= src@);
    }
    dst
}

/// Total vote count of an allocation vector. A sum of u64 counts always
/// fits in a u128, so no input is rejected.
fn sum_vote_counts(allocations: &Vec<(u64, u64)>) -> (total: u128)
    ensures
        total == sum_pair_values(allocations@),
{
    let mut total: u128 = 0;
    let mut i: usize = 0;
    while i < allocations.len()
        invariant
            0 <= i <= allocations@.len(),
            total == sum_pair_values(allocations@.take(i as int)),
            total <= i * (u64::MAX as int),
        decreases allocations@.len() - i,
    {
        proof {
            lemma_sum_pair_values_take_step(allocations@, i as int);
            assert((i + 1) * (u64::MAX as int) <= u128::MAX) by (nonlinear_arith)
                requires 0 <= i + 1 <= u64::MAX as int;
            assert(i * (u64::MAX as int) + u64::MAX <= (i + 1) * (u64::MAX as int))
                by (nonlinear_arith);
        }
        total = total + (allocations[i].1 as u128);
        i = i + 1;
    }
    proof {
        assert(allocations@.take(allocations@.len() as int) =~= allocations@);
    }
    total
}

/// At most one live allocation record exists per `(round_id, voter)`
/// pair.
pub open spec fn records_unique(recs: Seq<VoterAllocation>) -> bool {
    forall|k1: int, k2: int|
        0 <= k1 < k2 < recs.len() ==> !((#[trigger] recs[k1]).round_id == (
        #[trigger] recs[k2]).round_id && recs[k1].voter == recs[k2].voter)
}

/// Well-formedness survives a voting pass: the rounds and stored splits
/// are untouched, the submission store keeps its length and every
/// record's id, round and submitter, and the allocation ledger keeps at
/// most one record per pair.
proof fn lemma_wf_after_votes(pre: RetroPGFContract, post: RetroPGFContract)
    requires
        pre.wf(),
        post.rounds == pre.rounds,
        post.round_allocations == pre.round_allocations,
        post.submissions@.len() == pre.submissions@.len(),
        forall|j: int|
            0 <= j < pre.submissions@.len() ==> {
                let a = #[trigger] post.submissions@[j];
                &&& a.id == pre.submissions@[j].id
                &&& a.round_id == pre.submissions@[j].round_id
            },
        records_unique(post.voter_allocations@),
    ensures
        post.wf(),
{
    assert forall|i: int, k: int|
        0 <= i < post.rounds@.len() && 0 <= k < post.rounds@[i].submissions@.len() implies {
        let s = #[trigger] post.rounds@[i].submissions@[k];
        &&& 1 <= s
        &&& s <= post.submissions@.len()
        &&& post.submissions@[s - 1].round_id == i + 1
    } by {
        let s = post.rounds@[i].submissions@[k];
        assert(pre.rounds@[i].submissions@[k] == s);
        assert(1 <= s && s <= pre.submissions@.len() && pre.submissions@[s - 1].round_id == i
            + 1);
    }
    assert forall|i: int|
        0 <= i < post.rounds@.len() && (#[trigger] post.round_allocations@[i]).is_some() implies
        post.alloc_entry_wf(i) by {
        assert(pre.alloc_entry_wf(i));
    }
}

/// The voter allocation ledger after a store: some position holds exactly
/// the new record, every other position is as it was, and that position
/// either replaced the one previous record of the same `(round_id,
/// voter)` pair or was appended because no such record existed.
pub open spec fn record_stored(
    old_recs: Seq<VoterAllocation>,
    new_recs: Seq<VoterAllocation>,
    round_id: u64,
    voter: u64,
    allocs: Seq<(u64, u64)>,
) -> bool {
    exists|k: int|
        {
            &&& 0 <= k < new_recs.len()
            &&& (#[trigger] new_recs[k]).round_id == round_id
            &&& new_recs[k].voter == voter
            &&& new_recs[k].allocations@ == allocs
            &&& (forall|j: int|
                0 <= j < new_recs.len() && j != k ==> j < old_recs.len() && new_recs[j]
                    == old_recs[j])
            &&& (new_recs.len() == old_recs.len() || new_recs.len() == old_recs.len() + 1)
            &&& (k < old_recs.len() ==> old_recs[k].round_id == round_id && old_recs[k].voter
                == voter)
            &&& (k == old_recs.len() ==> new_recs.len() == old_recs.len() + 1)
        }
}

/// Sums agree when a payment plan carries an allocation vector's amounts
/// position for position.
proof fn lemma_sum_payments_eq_pairs(a: Seq<(u64, u64)>, payments: Seq<Payment>)
    requires
        payments.len() == a.len(),
        forall|k: int| 0 <= k < a.len() ==> (#[trigger] payments[k]).amount == a[k].1,
    ensures
        sum_payment_amounts(payments) == sum_pair_values(a),
    decreases a.len(),
{
    if a.len() > 0 {
        assert(forall|k: int|
            0 <= k < a.drop_last().len() ==> (#[trigger] payments.drop_last()[k]).amount
                == a.drop_last()[k].1);
        lemma_sum_payments_eq_pairs(a.drop_last(), payments.drop_last());
    }
}

/// Sums agree when an allocation vector carries a tally sequence's
/// proportional shares position for position.
proof fn lemma_sum_pairs_eq_shares(tallies: Seq<u64>, a: Seq<(u64, u64)>, funding: u64, total: int)
    requires
        a.len() == tallies.len(),
        forall|k: int|
            0 <= k < a.len() ==> (#[trigger] a[k]).1 == engine::share(tallies[k], funding, total),
    ensures
        sum_pair_values(a) == engine::sum_shares(tallies, funding, total),
    decreases a.len(),
{
    if a.len() > 0 {
        assert(forall|k: int|
            0 <= k < a.drop_last().len() ==> (#[trigger] a.drop_last()[k]).1 == engine::share(
                tallies.drop_last()[k],
                funding,
                total,
            ));
        lemma_sum_pairs_eq_shares(tallies.drop_last(), a.drop_last(), funding, total);
    }
}

/// Closing a round's voting and then disbursing it transfers amounts
/// summing to at most the round's funding pool, with equality exactly
/// when the pool divides across the vote shares with no truncation loss.
///
/// The hypotheses are what `close_voting` ensures of the stored split `a`
/// over the tallies at closing time, and what `disburse_funds` ensures of
/// the planned payments over the stored split.
pub proof fn lemma_disbursement_total(
    tallies: Seq<u64>,
    a: Seq<(u64, u64)>,
    payments: Seq<Payment>,
    funding: u64,
)
    requires
        a.len() == tallies.len(),
        forall|k: int|
            0 <= k < a.len() ==> (#[trigger] a[k]).1 == engine::share(
                tallies[k],
                funding,
                sum_u64(tallies),
            ),
        payments.len() == a.len(),
        forall|k: int| 0 <= k < a.len() ==> (#[trigger] payments[k]).amount == a[k].1,
    ensures
        0 <= sum_payment_amounts(payments) <= funding,
        sum_u64(tallies) == 0 ==> sum_payment_amounts(payments) == 0,
        sum_u64(tallies) > 0 ==> (sum_payment_amounts(payments) == funding <==> (forall|k: int|
            0 <= k < tallies.len() ==> engine::share_rem(tallies[k], funding, sum_u64(tallies))
                == 0)),
{
    lemma_sum_payments_eq_pairs(a, payments);
    lemma_sum_pairs_eq_shares(tallies, a, funding, sum_u64(tallies));
    engine::lemma_allocation_sum(tallies, funding);
}

/// The whole durable state of the round manager.
pub struct RetroPGFContract {
    /// The administrator identity, configured by `initialize`.
    pub admin: Option<u64>,
    /// The currently registered voter, set by `set_voter`.
    pub voter: Option<u64>,
    /// Round with id `r` lives at index `r - 1`.
    pub rounds: Vec<Round>,
    /// Submission with id `s` lives at index `s - 1`.
    pub submissions: Vec<Submission>,
    /// The funding split stored when round `r`'s voting closed, at index
    /// `r - 1`; `None` until then.
    pub round_allocations: Vec<Option<Vec<(u64, u64)>>>,
    /// The voters' recorded allocation vectors, at most one per
    /// `(round_id, voter)` pair.
    pub voter_allocations: Vec<VoterAllocation>,
}

impl RetroPGFContract {
    /// A round id the store knows.
    pub open spec fn valid_round_id(self, round_id: u64) -> bool {
        1 <= round_id && round_id <= self.rounds@.len()
    }

    /// The round record behind a valid round id.
    pub open spec fn spec_round(self, round_id: u64) -> Round {
        self.rounds@[round_id - 1]
    }

    /// A submission id the store knows.
    pub open spec fn valid_submission_id(self, submission_id: u64) -> bool {
        1 <= submission_id && submission_id <= self.submissions@.len()
    }

    /// The submission record behind a valid submission id.
    pub open spec fn spec_submission(self, submission_id: u64) -> Submission {
        self.submissions@[submission_id - 1]
    }

    /// The funding split stored for a round, if voting has closed.
    pub open spec fn spec_allocations(self, round_id: u64) -> Option<Vec<(u64, u64)>> {
        self.round_allocations@[round_id - 1]
    }

    /// The vote tallies of a round, in the order of its submission list.
    pub open spec fn round_tallies(self, round_id: u64) -> Seq<u64> {
        Seq::new(
            self.spec_round(round_id).submissions@.len(),
            |k: int| self.spec_submission(self.spec_round(round_id).submissions@[k]).total_votes,
        )
    }

    /// The stored funding split of one round is consistent: it exists only
    /// for a closed round, carries exactly the round's submission list as
    /// keys, and its amounts sum to at most the round's funding pool.
    pub open spec fn alloc_entry_wf(self, i: int) -> bool {
        let a = self.round_allocations@[i].unwrap()@;
        let r = self.rounds@[i];
        &&& !r.is_active
        &&& a.len() == r.submissions@.len()
        &&& (forall|k: int| 0 <= k < a.len() ==> (#[trigger] a[k]).0 == r.submissions@[k])
        &&& sum_pair_values(a) <= r.funding_amount
    }

    /// Well-formedness of the whole store. Constructors establish it and
    /// every entry point preserves it: ids equal position plus one, every
    /// listed submission belongs to exactly the round that lists it,
    /// submission lists are strictly increasing (so nothing is listed
    /// twice), stored funding splits are consistent, a disbursed round has
    /// a stored split, and at most one allocation record exists per
    /// `(round_id, voter)` pair.
    pub open spec fn wf(self) -> bool {
        &&& self.round_allocations@.len() == self.rounds@.len()
        &&& (forall|i: int|
            0 <= i < self.rounds@.len() ==> (#[trigger] self.rounds@[i]).id == i + 1)
        &&& (forall|j: int|
            0 <= j < self.submissions@.len() ==> (#[trigger] self.submissions@[j]).id == j + 1)
        &&& (forall|i: int, k: int|
            0 <= i < self.rounds@.len() && 0 <= k < self.rounds@[i].submissions@.len() ==> {
                let s = #[trigger] self.rounds@[i].submissions@[k];
                &&& 1 <= s
                &&& s <= self.submissions@.len()
                &&& self.submissions@[s - 1].round_id == i + 1
            })
        &&& (forall|i: int, k1: int, k2: int|
            0 <= i < self.rounds@.len() && 0 <= k1 < k2 < self.rounds@[i].submissions@.len()
                ==> (#[trigger] self.rounds@[i].submissions@[k1]) < (#[trigger] self.rounds@[
                i
            ].submissions@[k2]))
        &&& (forall|i: int|
            0 <= i < self.rounds@.len() && (#[trigger] self.round_allocations@[i]).is_some()
                ==> self.alloc_entry_wf(i))
        &&& (forall|i: int|
            0 <= i < self.rounds@.len() && (#[trigger] self.rounds@[i]).funds_disbursed
                ==> self.round_allocations@[i].is_some())
        &&& records_unique(self.voter_allocations@)
    }

    /// An empty round manager: no administrator, no voter, no records.
    pub fn new() -> (c: RetroPGFContract)
        ensures
            c.wf(),
            c.admin.is_none(),
            c.voter.is_none(),
            c.rounds@.len() == 0,
            c.submissions@.len() == 0,
            c.round_allocations@.len() == 0,
            c.voter_allocations@.len() == 0,
    {
        RetroPGFContract {
            admin: None,
            voter: None,
            rounds: Vec::new(),
            submissions: Vec::new(),
            round_allocations: Vec::new(),
            voter_allocations: Vec::new(),
        }
    }

    /// Configure the administrator identity, once: process-wide
    /// configuration is set at initialization and never reset.
    pub fn initialize(&mut self, admin: u64)
        requires
            old(self).wf(),
            old(self).admin.is_none(),
        ensures
            final(self).wf(),
            final(self).admin == Some(admin),
            final(self).voter == old(self).voter,
            final(self).rounds == old(self).rounds,
            final(self).submissions == old(self).submissions,
            final(self).round_allocations == old(self).round_allocations,
            final(self).voter_allocations == old(self).voter_allocations,
    {
        self.admin = Some(admin);
    }

    /// Register the acting voter identity in the single voter slot.
    pub fn set_voter(&mut self, voter: u64)
        requires
            old(self).wf(),
        ensures
            final(self).wf(),
            final(self).voter == Some(voter),
            final(self).admin == old(self).admin,
            final(self).rounds == old(self).rounds,
            final(self).submissions == old(self).submissions,
            final(self).round_allocations == old(self).round_allocations,
            final(self).voter_allocations == old(self).voter_allocations,
    {
        self.voter = Some(voter);
    }

    /// IdentityGate: succeed exactly when the caller is the configured
    /// administrator; report whether none was ever configured.
    pub fn require_administrator(&self, caller: u64) -> (r: Result<(), ContractError>)
        ensures
            r is Ok <==> self.admin == Some(caller),
            r is Err ==> (r->Err_0 == ContractError::AdminNotSet <==> self.admin.is_none()),
            r is Err && self.admin.is_some() ==> r->Err_0 == ContractError::Unauthorized,
    {
        match self.admin {
            None => Err(ContractError::AdminNotSet),
            Some(a) => {
                if a == caller {
                    Ok(())
                } else {
                    Err(ContractError::Unauthorized)
                }
            },
        }
    }

    /// RoundStore: open a new funding round with a fixed pool and
    /// deadline. Only the administrator may create rounds; the new round
    /// gets the next 1-based id, starts active with no submissions, and
    /// its funds are not disbursed.
    pub fn create_round(&mut self, caller: u64, funding_amount: u64, deadline: u64) -> (r: Result<
        u64,
        ContractError,
    >)
        requires
            old(self).wf(),
            old(self).rounds@.len() < u64::MAX,
        ensures
            final(self).wf(),
            final(self).admin == old(self).admin,
            final(self).voter == old(self).voter,
            final(self).submissions == old(self).submissions,
            final(self).voter_allocations == old(self).voter_allocations,
            match r {
                Ok(round_id) => {
                    &&& old(self).admin == Some(caller)
                    &&& round_id == old(self).rounds@.len() + 1
                    &&& ({
                        let rd = final(self).rounds@.last();
                        &&& final(self).rounds@ == old(self).rounds@.push(rd)
                        &&& rd.id == round_id
                        &&& rd.funding_amount == funding_amount
                        &&& rd.deadline == deadline
                        &&& rd.is_active
                        &&& !rd.funds_disbursed
                        &&& rd.submissions@.len() == 0
                    })
                    &&& final(self).round_allocations@ == old(self).round_allocations@.push(None)
                },
                Err(e) => {
                    &&& old(self).admin != Some(caller)
                    &&& final(self).rounds == old(self).rounds
                    &&& final(self).round_allocations == old(self).round_allocations
                    &&& (e == ContractError::AdminNotSet <==> old(self).admin.is_none())
                    &&& (old(self).admin.is_some() ==> e == ContractError::Unauthorized)
                },
            },
    {
        if let Err(e) = self.require_administrator(caller) {
            return Err(e);
        }
        let round_id: u64 = (self.rounds.len() as u64) + 1;
        let round = Round {
            id: round_id,
            funding_amount,
            deadline,
            is_active: true,
            submissions: Vec::new(),
            funds_disbursed: false,
        };
        self.rounds.push(round);
        self.round_allocations.push(None);
        Ok(round_id)
    }

    /// RoundStore lookup: the round behind an id, or `RoundNotFound`.
    pub fn get_round(&self, round_id: u64) -> (r: Result<&Round, ContractError>)
        ensures
            match r {
                Ok(round) => self.valid_round_id(round_id) && *round == self.spec_round(round_id),
                Err(e) => !self.valid_round_id(round_id) && e == ContractError::RoundNotFound,
            },
    {
        if 1 <= round_id && round_id <= self.rounds.len() as u64 {
            Ok(&self.rounds[(round_id - 1) as usize])
        } else {
            Err(ContractError::RoundNotFound)
        }
    }

    /// Enter a project into a round. The round must exist, be open, and
    /// its deadline must not have passed: the boundary is inclusive, a
    /// submission at exactly the deadline instant succeeds and anything
    /// later fails `SubmissionDeadlinePassed`. The new submission gets the
    /// next 1-based id, is attributed to the registered voter, starts with
    /// no votes, and is appended to the round's submission list.
    ///
    /// `now` is the ledger clock at the instant of the call, resolved by
    /// the host layer.
    pub fn submit_project(&mut self, round_id: u64, now: u64) -> (r: Result<u64, ContractError>)
        requires
            old(self).wf(),
            old(self).voter.is_some(),
            old(self).submissions@.len() < u64::MAX,
        ensures
            final(self).wf(),
            final(self).admin == old(self).admin,
            final(self).voter == old(self).voter,
            final(self).round_allocations == old(self).round_allocations,
            final(self).voter_allocations == old(self).voter_allocations,
            match r {
                Ok(submission_id) => {
                    &&& old(self).valid_round_id(round_id)
                    &&& old(self).spec_round(round_id).is_active
                    &&& now <= old(self).spec_round(round_id).deadline
                    &&& submission_id == old(self).submissions@.len() + 1
                    &&& final(self).submissions@ == old(self).submissions@.push(
                        Submission {
                            id: submission_id,
                            round_id,
                            submitter: old(self).voter.unwrap(),
                            total_votes: 0,
                        },
                    )
                    &&& ({
                        let rd0 = old(self).spec_round(round_id);
                        let rd1 = final(self).spec_round(round_id);
                        &&& final(self).rounds@ == old(self).rounds@.update(
                            round_id - 1,
                            rd1,
                        )
                        &&& rd1.id == rd0.id
                        &&& rd1.funding_amount == rd0.funding_amount
                        &&& rd1.deadline == rd0.deadline
                        &&& rd1.is_active == rd0.is_active
                        &&& rd1.funds_disbursed == rd0.funds_disbursed
                        &&& rd1.submissions@ == rd0.submissions@.push(submission_id)
                    })
                },
                Err(e) => {
                    &&& final(self).rounds == old(self).rounds
                    &&& final(self).submissions == old(self).submissions
                    &&& (e == ContractError::RoundNotFound || e == ContractError::RoundNotActive
                        || e == ContractError::SubmissionDeadlinePassed)
                    &&& (e == ContractError::RoundNotFound <==> !old(self).valid_round_id(
                        round_id,
                    ))
                    &&& (e == ContractError::RoundNotActive <==> old(self).valid_round_id(round_id)
                        && !old(self).spec_round(round_id).is_active)
                    &&& (e == ContractError::SubmissionDeadlinePassed <==> old(
                        self,
                    ).valid_round_id(round_id) && old(self).spec_round(round_id).is_active && now
                        > old(self).spec_round(round_id).deadline)
                },
            },
    {
        if !(1 <= round_id && round_id <= self.rounds.len() as u64) {
            return Err(ContractError::RoundNotFound);
        }
        let idx = (round_id - 1) as usize;
        if !self.rounds[idx].is_active {
            return Err(ContractError::RoundNotActive);
        }
        if now > self.rounds[idx].deadline {
            return Err(ContractError::SubmissionDeadlinePassed);
        }
        let submission_id: u64 = (self.submissions.len() as u64) + 1;
        let submitter = self.voter.unwrap();
        let submission = Submission { id: submission_id, round_id, submitter, total_votes: 0 };
        self.submissions.push(submission);
        self.rounds[idx].submissions.push(submission_id);
        Ok(submission_id)
    }

    /// Position of the live allocation record of a `(round_id, voter)`
    /// pair, if one exists.
    fn find_allocation_record(&self, round_id: u64, voter: u64) -> (r: Option<usize>)
        ensures
            match r {
                Some(k) => k < self.voter_allocations@.len()
                    && self.voter_allocations@[k as int].round_id == round_id
                    && self.voter_allocations@[k as int].voter == voter,
                None => forall|j: int|
                    0 <= j < self.voter_allocations@.len() ==> !((#[trigger] self
                        .voter_allocations@[j]).round_id == round_id && self.voter_allocations@[
                        j
                    ].voter == voter),
            },
    {
        let mut k: usize = 0;
        while k < self.voter_allocations.len()
            invariant
                0 <= k <= self.voter_allocations@.len(),
                forall|j: int|
                    0 <= j < k ==> !((#[trigger] self.voter_allocations@[j]).round_id == round_id
                        && self.voter_allocations@[j].voter == voter),
            decreases self.voter_allocations@.len() - k,
        {
            if self.voter_allocations[k].round_id == round_id && self.voter_allocations[k].voter
                == voter {
                return Some(k);
            }
            k = k + 1;
        }
        None
    }

    /// Write the one live allocation record of a `(round_id, voter)`
    /// pair: replace the previous record if one exists, append otherwise.
    fn store_allocation_record(&mut self, round_id: u64, voter: u64, allocations: &Vec<(u64, u64)>)
        requires
            records_unique(old(self).voter_allocations@),
        ensures
            final(self).admin == old(self).admin,
            final(self).voter == old(self).voter,
            final(self).rounds == old(self).rounds,
            final(self).submissions == old(self).submissions,
            final(self).round_allocations == old(self).round_allocations,
            records_unique(final(self).voter_allocations@),
            record_stored(
                old(self).voter_allocations@,
                final(self).voter_allocations@,
                round_id,
                voter,
                allocations@,
            ),
    {
        let rec_allocs = copy_pairs(allocations);
        let rec = VoterAllocation { round_id, voter, allocations: rec_allocs };
        let ghost old_recs = self.voter_allocations@;
        let ghost mut stored_at: int = 0;
        match self.find_allocation_record(round_id, voter) {
            Some(k) => {
                self.voter_allocations[k] = rec;
                proof {
                    stored_at = k as int;
                }
            },
            None => {
                proof {
                    stored_at = self.voter_allocations@.len() as int;
                }
                self.voter_allocations.push(rec);
            },
        }
        proof {
            let recs = self.voter_allocations@;
            assert(recs[stored_at].round_id == round_id);
            assert(recs[stored_at].voter == voter);
            assert(recs[stored_at].allocations@ == allocations@);
            assert(forall|j: int|
                0 <= j < recs.len() && j != stored_at ==> j < old_recs.len() && recs[j] == old_recs[
                    j
                ]);
            assert(record_stored(old_recs, recs, round_id, voter, allocations@));
            assert forall|k1: int, k2: int| 0 <= k1 < k2 < recs.len() implies !((
            #[trigger] recs[k1]).round_id == (#[trigger] recs[k2]).round_id && recs[k1].voter
                == recs[k2].voter) by {
                if k1 < old_recs.len() && k2 < old_recs.len() {
                    assert(!(old_recs[k1].round_id == old_recs[k2].round_id && old_recs[k1].voter
                        == old_recs[k2].voter));
                }
            }
        }
    }

    /// VotingLedger: record the registered voter's allocation vector for a
    /// round and push each pair's vote count into its submission's tally.
    ///
    /// The vote counts are validated first: if they sum to more than
    /// `VOTE_CREDITS` the call fails `ExceededVoteLimit` and nothing
    /// changes. The pairs are then applied in order; a pair naming an
    /// unknown submission stops the pass with `SubmissionNotFound`,
    /// leaving the pairs before it applied — the per-pair tally mutation
    /// is deliberately not rolled back. The allocation vector itself is
    /// recorded only on success, overwriting any prior record of this
    /// `(round, voter)` pair without subtracting that record's
    /// contribution from the tallies; a failed call leaves the ledger of
    /// records as it was.
    #[verifier::rlimit(50)]
    pub fn allocate_votes(&mut self, round_id: u64, allocations: &Vec<(u64, u64)>) -> (r: Result<
        (),
        ContractError,
    >)
        requires
            old(self).wf(),
            old(self).voter.is_some(),
            sum_pair_values(allocations@) <= VOTE_CREDITS ==> votes_fit(
                old(self).submissions@,
                allocations@,
            ),
        ensures
            final(self).wf(),
            final(self).admin == old(self).admin,
            final(self).voter == old(self).voter,
            final(self).rounds == old(self).rounds,
            final(self).round_allocations == old(self).round_allocations,
            match r {
                Ok(()) => {
                    &&& sum_pair_values(allocations@) <= VOTE_CREDITS
                    &&& (forall|n: int|
                        0 <= n < allocations@.len() ==> old(self).valid_submission_id(
                            (#[trigger] allocations@[n]).0,
                        ))
                    &&& final(self).submissions@ == apply_votes(
                        old(self).submissions@,
                        allocations@,
                        allocations@.len() as int,
                    )
                    &&& record_stored(
                        old(self).voter_allocations@,
                        final(self).voter_allocations@,
                        round_id,
                        old(self).voter.unwrap(),
                        allocations@,
                    )
                },
                Err(e) => {
                    ||| (e == ContractError::ExceededVoteLimit && sum_pair_values(allocations@)
                        > VOTE_CREDITS && *final(self) == *old(self))
                    ||| (e == ContractError::SubmissionNotFound && sum_pair_values(allocations@)
                        <= VOTE_CREDITS && final(self).voter_allocations == old(
                        self,
                    ).voter_allocations && (exists|n: int|
                        {
                            &&& 0 <= n < allocations@.len()
                            &&& !old(self).valid_submission_id((#[trigger] allocations@[n]).0)
                            &&& (forall|m: int|
                                0 <= m < n ==> old(self).valid_submission_id(allocations@[m].0))
                            &&& final(self).submissions@ == apply_votes(
                                old(self).submissions@,
                                allocations@,
                                n,
                            )
                        }))
                },
            },
    {
        let voter_id = self.voter.unwrap();

        // Validate the whole vector before anything is written.
        let total = sum_vote_counts(allocations);
        if total > VOTE_CREDITS as u128 {
            return Err(ContractError::ExceededVoteLimit);
        }

        // Apply the pairs in order up to the first pair that names no
        // submission; the vector is recorded only when every pair does.
        let first_bad = self.first_unknown_submission(allocations);
        match first_bad {
            None => {
                self.store_allocation_record(round_id, voter_id, allocations);
                self.apply_vote_prefix(allocations, allocations.len());
                proof {
                    lemma_wf_after_votes(*old(self), *self);
                }
                Ok(())
            },
            Some(n) => {
                self.apply_vote_prefix(allocations, n);
                proof {
                    lemma_wf_after_votes(*old(self), *self);
                }
                Err(ContractError::SubmissionNotFound)
            },
        }
    }

    /// Position of the first pair that names no submission, if any;
    /// every pair before it names a known submission.
    fn first_unknown_submission(&self, allocations: &Vec<(u64, u64)>) -> (r: Option<usize>)
        ensures
            match r {
                Some(n) => (n as int) < allocations@.len() && !(1 <= allocations@[n as int].0
                    <= self.submissions@.len()) && (forall|m: int|
                    0 <= m < n as int ==> 1 <= (#[trigger] allocations@[m]).0
                        <= self.submissions@.len()),
                None => forall|m: int|
                    0 <= m < allocations@.len() ==> 1 <= (#[trigger] allocations@[m]).0
                        <= self.submissions@.len(),
            },
    {
        let mut n: usize = 0;
        while n < allocations.len()
            invariant
                0 <= n <= allocations@.len(),
                forall|m: int|
                    0 <= m < n ==> 1 <= (#[trigger] allocations@[m]).0
                        <= self.submissions@.len(),
            decreases allocations@.len() - n,
        {
            let sid = allocations[n].0;
            if !(1 <= sid && sid <= self.submissions.len() as u64) {
                return Some(n);
            }
            n = n + 1;
        }
        None
    }

    /// Push the vote counts of the first `count` pairs into their
    /// submissions' tallies, in order.
    fn apply_vote_prefix(&mut self, allocations: &Vec<(u64, u64)>, count: usize)
        requires
            count <= allocations@.len(),
            votes_fit(old(self).submissions@, allocations@),
            forall|m: int|
                0 <= m < count ==> 1 <= (#[trigger] allocations@[m]).0 <= old(
                    self,
                ).submissions@.len(),
        ensures
            final(self).admin == old(self).admin,
            final(self).voter == old(self).voter,
            final(self).rounds == old(self).rounds,
            final(self).round_allocations == old(self).round_allocations,
            final(self).voter_allocations == old(self).voter_allocations,
            final(self).submissions@.len() == old(self).submissions@.len(),
            final(self).submissions@ == apply_votes(
                old(self).submissions@,
                allocations@,
                count as int,
            ),
            forall|j: int|
                0 <= j < old(self).submissions@.len() ==> {
                    let a = #[trigger] final(self).submissions@[j];
                    &&& a.id == old(self).submissions@[j].id
                    &&& a.round_id == old(self).submissions@[j].round_id
                    &&& a.submitter == old(self).submissions@[j].submitter
                },
    {
        let ghost old_subs = old(self).submissions@;
        let mut i: usize = 0;
        while i < count
            invariant
                0 <= i <= count <= allocations@.len(),
                self.admin == old(self).admin,
                self.voter == old(self).voter,
                self.rounds == old(self).rounds,
                self.round_allocations == old(self).round_allocations,
                self.voter_allocations == old(self).voter_allocations,
                votes_fit(old_subs, allocations@),
                old_subs == old(self).submissions@,
                self.submissions@ == apply_votes(old_subs, allocations@, i as int),
                old_subs.len() == self.submissions@.len(),
                forall|m: int|
                    0 <= m < count ==> 1 <= (#[trigger] allocations@[m]).0 <= old_subs.len(),
            decreases count - i,
        {
            proof {
                lemma_apply_votes_shape(old_subs, allocations@, i as int);
            }
            let pair = allocations[i];
            let sid = pair.0;
            let v = pair.1;
            let nsubs = self.submissions.len();
            assert(1 <= sid && sid <= nsubs as u64);
            let j = (sid - 1) as usize;
            let cur = self.submissions[j].total_votes;
            proof {
                assert(apply_votes(old_subs, allocations@, i as int)[sid - 1].total_votes
                    + allocations@[i as int].1 <= u64::MAX);
            }
            self.submissions[j].total_votes = cur + v;
            i = i + 1;
        }
        proof {
            lemma_apply_votes_shape(old_subs, allocations@, count as int);
        }
    }

    /// DisbursementCoordinator: close a round's voting and store its
    /// funding split. Only the administrator may close a round, and only
    /// while it is open; closing flips `is_active` false and stores, for
    /// each submission in the round's list, its proportional share of the
    /// funding pool computed by the AllocationEngine from the tallies at
    /// this instant. This is the single transition from "open" to
    /// "allocations available".
    #[verifier::loop_isolation(false)]
    #[verifier::rlimit(50)]
    pub fn close_voting(&mut self, caller: u64, round_id: u64) -> (r: Result<(), ContractError>)
        requires
            old(self).wf(),
        ensures
            final(self).wf(),
            final(self).admin == old(self).admin,
            final(self).voter == old(self).voter,
            final(self).submissions == old(self).submissions,
            final(self).voter_allocations == old(self).voter_allocations,
            match r {
                Ok(()) => {
                    &&& old(self).admin == Some(caller)
                    &&& old(self).valid_round_id(round_id)
                    &&& old(self).spec_round(round_id).is_active
                    &&& ({
                        let rd0 = old(self).spec_round(round_id);
                        let rd1 = final(self).spec_round(round_id);
                        let tallies = old(self).round_tallies(round_id);
                        let total = sum_u64(tallies);
                        let a = final(self).spec_allocations(round_id).unwrap()@;
                        &&& final(self).rounds@ == old(self).rounds@.update(round_id - 1, rd1)
                        &&& rd1.id == rd0.id
                        &&& rd1.funding_amount == rd0.funding_amount
                        &&& rd1.deadline == rd0.deadline
                        &&& !rd1.is_active
                        &&& rd1.funds_disbursed == rd0.funds_disbursed
                        &&& rd1.submissions@ == rd0.submissions@
                        &&& final(self).round_allocations@ == old(
                            self,
                        ).round_allocations@.update(
                            round_id - 1,
                            final(self).spec_allocations(round_id),
                        )
                        &&& final(self).spec_allocations(round_id).is_some()
                        &&& a.len() == rd0.submissions@.len()
                        &&& (forall|k: int|
                            0 <= k < a.len() ==> (#[trigger] a[k]).0 == rd0.submissions@[k] && a[
                                k
                            ].1 == share(tallies[k], rd0.funding_amount, total))
                        &&& sum_pair_values(a) <= rd0.funding_amount
                    })
                },
                Err(e) => {
                    &&& *final(self) == *old(self)
                    &&& ((e == ContractError::AdminNotSet && old(self).admin.is_none()) || (e
                        == ContractError::Unauthorized && old(self).admin.is_some() && old(
                        self,
                    ).admin != Some(caller)) || (e == ContractError::RoundNotFound && old(
                        self,
                    ).admin == Some(caller) && !old(self).valid_round_id(round_id)) || (e
                        == ContractError::RoundNotActive && old(self).admin == Some(caller)
                        && old(self).valid_round_id(round_id) && !old(self).spec_round(
                        round_id,
                    ).is_active))
                },
            },
    {
        if let Err(e) = self.require_administrator(caller) {
            return Err(e);
        }
        if !(1 <= round_id && round_id <= self.rounds.len() as u64) {
            return Err(ContractError::RoundNotFound);
        }
        let idx = (round_id - 1) as usize;
        if !self.rounds[idx].is_active {
            return Err(ContractError::RoundNotActive);
        }

        // Gather the round's tallies in submission-list order.
        let nsubs = self.rounds[idx].submissions.len();
        let mut tallies: Vec<u64> = Vec::new();
        let mut k: usize = 0;
        while k < nsubs
            invariant
                0 <= k <= nsubs,
                tallies@.len() == k,
                forall|m: int|
                    0 <= m < k ==> tallies@[m] == self.round_tallies(round_id)[m],
            decreases nsubs - k,
        {
            let sid = self.rounds[idx].submissions[k];
            let nall = self.submissions.len();
            assert(1 <= sid && sid <= nall as u64);
            let s_votes = self.submissions[(sid - 1) as usize].total_votes;
            tallies.push(s_votes);
            k = k + 1;
        }
        proof {
            assert(tallies@ =~= self.round_tallies(round_id));
        }

        // Compute the proportional split and key it by submission id.
        let funding = self.rounds[idx].funding_amount;
        let amounts = engine::compute_allocations(funding, &tallies);
        let mut pairs: Vec<(u64, u64)> = Vec::new();
        let mut k: usize = 0;
        while k < nsubs
            invariant
                0 <= k <= nsubs,
                pairs@.len() == k,
                forall|m: int|
                    0 <= m < k ==> (#[trigger] pairs@[m]).0 == self.spec_round(
                        round_id,
                    ).submissions@[m] && pairs@[m].1 == amounts@[m],
                sum_pair_values(pairs@) == sum_u64(amounts@.take(k as int)),
            decreases nsubs - k,
        {
            let sid = self.rounds[idx].submissions[k];
            let amt = amounts[k];
            proof {
                assert(pairs@.push((sid, amt)).drop_last() =~= pairs@);
                engine::lemma_sum_u64_take_step(amounts@, k as int);
            }
            pairs.push((sid, amt));
            k = k + 1;
        }
        proof {
            assert(amounts@.take(amounts@.len() as int) =~= amounts@);
        }

        // Close the round and store the split.
        self.rounds[idx].is_active = false;
        self.round_allocations[idx] = Some(pairs);
        proof {
            assert forall|i: int|
                0 <= i < self.rounds@.len() && (#[trigger] self.round_allocations@[i]).is_some()
                implies self.alloc_entry_wf(i) by {
                if i != idx {
                    assert(old(self).alloc_entry_wf(i));
                }
            }
        }
        Ok(())
    }

    /// DisbursementCoordinator: validate a disbursement and plan its
    /// transfers. Only the administrator may disburse; a round whose
    /// funds were already disbursed always fails `FundsAlreadyDisbursed`;
    /// a round whose voting never closed has no stored split and fails
    /// `VotingClosed`; a pool balance short of the round's funding amount
    /// fails `InsufficientFunds`.
    ///
    /// On success the returned plan lists, for each stored allocation in
    /// order, the submitter owed and the amount; the amounts sum to at
    /// most the round's funding pool. The host layer executes the
    /// transfers and then confirms with `confirm_disbursement`; nothing
    /// here changes state, so a failed transfer pass can be retried.
    ///
    /// `balance` is the administrator-held pool balance resolved by the
    /// host layer.
    #[verifier::loop_isolation(false)]
    pub fn disburse_funds(&self, caller: u64, round_id: u64, balance: i128) -> (r: Result<
        Vec<Payment>,
        ContractError,
    >)
        requires
            self.wf(),
        ensures
            match r {
                Ok(payments) => {
                    &&& self.admin == Some(caller)
                    &&& self.valid_round_id(round_id)
                    &&& !self.spec_round(round_id).funds_disbursed
                    &&& self.spec_allocations(round_id).is_some()
                    &&& balance >= self.spec_round(round_id).funding_amount as i128
                    &&& ({
                        let a = self.spec_allocations(round_id).unwrap()@;
                        &&& payments@.len() == a.len()
                        &&& (forall|k: int|
                            0 <= k < a.len() ==> (#[trigger] payments@[k]).submitter
                                == self.spec_submission(a[k].0).submitter && payments@[k].amount
                                == a[k].1)
                        &&& sum_payment_amounts(payments@) == sum_pair_values(a)
                        &&& sum_payment_amounts(payments@) <= self.spec_round(
                            round_id,
                        ).funding_amount
                    })
                },
                Err(e) => {
                    ||| (e == ContractError::AdminNotSet && self.admin.is_none())
                    ||| (e == ContractError::Unauthorized && self.admin.is_some() && self.admin
                        != Some(caller))
                    ||| (e == ContractError::RoundNotFound && self.admin == Some(caller)
                        && !self.valid_round_id(round_id))
                    ||| (e == ContractError::FundsAlreadyDisbursed && self.admin == Some(caller)
                        && self.valid_round_id(round_id) && self.spec_round(
                        round_id,
                    ).funds_disbursed)
                    ||| (e == ContractError::VotingClosed && self.admin == Some(caller)
                        && self.valid_round_id(round_id) && !self.spec_round(
                        round_id,
                    ).funds_disbursed && self.spec_allocations(round_id).is_none())
                    ||| (e == ContractError::InsufficientFunds && self.admin == Some(caller)
                        && self.valid_round_id(round_id) && !self.spec_round(
                        round_id,
                    ).funds_disbursed && self.spec_allocations(round_id).is_some() && balance
                        < self.spec_round(round_id).funding_amount as i128)
                },
            },
    {
        if let Err(e) = self.require_administrator(caller) {
            return Err(e);
        }
        if !(1 <= round_id && round_id <= self.rounds.len() as u64) {
            return Err(ContractError::RoundNotFound);
        }
        let idx = (round_id - 1) as usize;
        if self.rounds[idx].funds_disbursed {
            return Err(ContractError::FundsAlreadyDisbursed);
        }
        let pairs = match &self.round_allocations[idx] {
            Some(pairs) => pairs,
            None => {
                return Err(ContractError::VotingClosed);
            },
        };
        if balance < self.rounds[idx].funding_amount as i128 {
            return Err(ContractError::InsufficientFunds);
        }

        // Resolve each allocation's submitter.
        let ghost a = pairs@;
        let mut payments: Vec<Payment> = Vec::new();
        let mut k: usize = 0;
        while k < pairs.len()
            invariant
                0 <= k <= a.len(),
                payments@.len() == k,
                forall|m: int|
                    0 <= m < k ==> (#[trigger] payments@[m]).submitter == self.spec_submission(
                        a[m].0,
                    ).submitter && payments@[m].amount == a[m].1,
                sum_payment_amounts(payments@) == sum_pair_values(a.take(k as int)),
            decreases a.len() - k,
        {
            let pair = pairs[k];
            let sid = pair.0;
            let amt = pair.1;
            let nall = self.submissions.len();
            assert(1 <= sid && sid <= nall as u64);
            let submitter = self.submissions[(sid - 1) as usize].submitter;
            let payment = Payment { submitter, amount: amt };
            proof {
                assert(payments@.push(payment).drop_last() =~= payments@);
                lemma_sum_pair_values_take_step(a, k as int);
            }
            payments.push(payment);
            k = k + 1;
        }
        proof {
            assert(a.take(a.len() as int) =~= a);
        }
        Ok(payments)
    }

    /// DisbursementCoordinator: mark a round's funds as disbursed, once
    /// the host layer has executed every planned transfer of a
    /// `disburse_funds` pass in full. A second confirmation always fails
    /// `FundsAlreadyDisbursed`; a round whose voting never closed fails
    /// `VotingClosed`.
    pub fn confirm_disbursement(&mut self, caller: u64, round_id: u64) -> (r: Result<
        (),
        ContractError,
    >)
        requires
            old(self).wf(),
        ensures
            final(self).wf(),
            final(self).admin == old(self).admin,
            final(self).voter == old(self).voter,
            final(self).submissions == old(self).submissions,
            final(self).round_allocations == old(self).round_allocations,
            final(self).voter_allocations == old(self).voter_allocations,
            match r {
                Ok(()) => {
                    &&& old(self).admin == Some(caller)
                    &&& old(self).valid_round_id(round_id)
                    &&& !old(self).spec_round(round_id).funds_disbursed
                    &&& old(self).spec_allocations(round_id).is_some()
                    &&& ({
                        let rd0 = old(self).spec_round(round_id);
                        let rd1 = final(self).spec_round(round_id);
                        &&& final(self).rounds@ == old(self).rounds@.update(round_id - 1, rd1)
                        &&& rd1.id == rd0.id
                        &&& rd1.funding_amount == rd0.funding_amount
                        &&& rd1.deadline == rd0.deadline
                        &&& rd1.is_active == rd0.is_active
                        &&& rd1.funds_disbursed
                        &&& rd1.submissions@ == rd0.submissions@
                    })
                },
                Err(e) => {
                    &&& *final(self) == *old(self)
                    &&& ((e == ContractError::AdminNotSet && old(self).admin.is_none()) || (e
                        == ContractError::Unauthorized && old(self).admin.is_some() && old(
                        self,
                    ).admin != Some(caller)) || (e == ContractError::RoundNotFound && old(
                        self,
                    ).admin == Some(caller) && !old(self).valid_round_id(round_id)) || (e
                        == ContractError::FundsAlreadyDisbursed && old(self).admin == Some(caller)
                        && old(self).valid_round_id(round_id) && old(self).spec_round(
                        round_id,
                    ).funds_disbursed) || (e == ContractError::VotingClosed && old(self).admin
                        == Some(caller) && old(self).valid_round_id(round_id) && !old(
                        self,
                    ).spec_round(round_id).funds_disbursed && old(self).spec_allocations(
                        round_id,
                    ).is_none()))
                },
            },
    {
        if let Err(e) = self.require_administrator(caller) {
            return Err(e);
        }
        if !(1 <= round_id && round_id <= self.rounds.len() as u64) {
            return Err(ContractError::RoundNotFound);
        }
        let idx = (round_id - 1) as usize;
        if self.rounds[idx].funds_disbursed {
            return Err(ContractError::FundsAlreadyDisbursed);
        }
        if self.round_allocations[idx].is_none() {
            return Err(ContractError::VotingClosed);
        }
        self.rounds[idx].funds_disbursed = true;
        proof {
            assert forall|i: int|
                0 <= i < self.rounds@.len() && (#[trigger] self.round_allocations@[i]).is_some()
                implies self.alloc_entry_wf(i) by {
                assert(old(self).alloc_entry_wf(i));
            }
        }
        Ok(())
    }

    /// SubmissionStore lookup: the submission behind an id, or
    /// `SubmissionNotFound`.
    pub fn get_submission(&self, submission_id: u64) -> (r: Result<Submission, ContractError>)
        ensures
            match r {
                Ok(sub) => self.valid_submission_id(submission_id) && sub == self.spec_submission(
                    submission_id,
                ),
                Err(e) => !self.valid_submission_id(submission_id) && e
                    == ContractError::SubmissionNotFound,
            },
    {
        if 1 <= submission_id && submission_id <= self.submissions.len() as u64 {
            Ok(self.submissions[(submission_id - 1) as usize])
        } else {
            Err(ContractError::SubmissionNotFound)
        }
    }
}

} // verus!
