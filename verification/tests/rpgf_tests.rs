use rpgf::engine;
use rpgf::{ContractError, RetroPGFContract};

const ADMIN: u64 = 1;
const VOTER: u64 = 2;

fn setup() -> RetroPGFContract {
    let mut c = RetroPGFContract::new();
    c.initialize(ADMIN);
    c.set_voter(VOTER);
    c
}

#[test]
fn create_round_assigns_monotonic_ids() {
    let mut c = setup();
    assert_eq!(c.create_round(ADMIN, 1000, 100), Ok(1));
    assert_eq!(c.create_round(ADMIN, 500, 200), Ok(2));
    let r1 = c.get_round(1).unwrap();
    assert_eq!(r1.id, 1);
    assert_eq!(r1.funding_amount, 1000);
    assert_eq!(r1.deadline, 100);
    assert!(r1.is_active);
    assert!(!r1.funds_disbursed);
    assert!(r1.submissions.is_empty());
}

#[test]
fn create_round_requires_administrator() {
    let mut c = setup();
    assert_eq!(c.create_round(VOTER, 1000, 100), Err(ContractError::Unauthorized));
}

#[test]
fn create_round_without_admin_configured() {
    let mut c = RetroPGFContract::new();
    c.set_voter(VOTER);
    assert_eq!(c.create_round(ADMIN, 1000, 100), Err(ContractError::AdminNotSet));
}

#[test]
fn get_round_not_found() {
    let c = setup();
    assert!(matches!(c.get_round(1), Err(ContractError::RoundNotFound)));
}

#[test]
fn get_submission_not_found() {
    let c = setup();
    assert_eq!(c.get_submission(1).unwrap_err(), ContractError::SubmissionNotFound);
}

#[test]
fn submit_project_round_not_found() {
    let mut c = setup();
    assert_eq!(c.submit_project(1, 50), Err(ContractError::RoundNotFound));
}

#[test]
fn submit_project_round_not_active() {
    let mut c = setup();
    c.create_round(ADMIN, 1000, 100).unwrap();
    c.close_voting(ADMIN, 1).unwrap();
    assert_eq!(c.submit_project(1, 50), Err(ContractError::RoundNotActive));
}

#[test]
fn submit_project_deadline_boundary() {
    let mut c = setup();
    c.create_round(ADMIN, 1000, 100).unwrap();
    // At exactly the deadline instant the submission succeeds.
    assert_eq!(c.submit_project(1, 100), Ok(1));
    // One tick later it is rejected.
    assert_eq!(c.submit_project(1, 101), Err(ContractError::SubmissionDeadlinePassed));
}

#[test]
fn submit_project_records_submitter_and_list() {
    let mut c = setup();
    c.create_round(ADMIN, 1000, 100).unwrap();
    assert_eq!(c.submit_project(1, 10), Ok(1));
    c.set_voter(77);
    assert_eq!(c.submit_project(1, 20), Ok(2));
    let s1 = c.get_submission(1).unwrap();
    assert_eq!(s1.id, 1);
    assert_eq!(s1.round_id, 1);
    assert_eq!(s1.submitter, VOTER);
    assert_eq!(s1.total_votes, 0);
    let s2 = c.get_submission(2).unwrap();
    assert_eq!(s2.submitter, 77);
    assert_eq!(c.get_round(1).unwrap().submissions, vec![1, 2]);
}

#[test]
fn allocate_votes_at_the_credit_cap() {
    let mut c = setup();
    c.create_round(ADMIN, 1000, 100).unwrap();
    c.submit_project(1, 10).unwrap();
    c.submit_project(1, 10).unwrap();
    // Exactly 20 credits is allowed.
    assert_eq!(c.allocate_votes(1, &vec![(1, 12), (2, 8)]), Ok(()));
    assert_eq!(c.get_submission(1).unwrap().total_votes, 12);
    assert_eq!(c.get_submission(2).unwrap().total_votes, 8);
    // The successful call recorded the voter's vector.
    assert_eq!(c.voter_allocations.len(), 1);
    assert_eq!(c.voter_allocations[0].round_id, 1);
    assert_eq!(c.voter_allocations[0].voter, VOTER);
    assert_eq!(c.voter_allocations[0].allocations, vec![(1, 12), (2, 8)]);
}

#[test]
fn allocate_votes_over_the_cap_changes_nothing() {
    let mut c = setup();
    c.create_round(ADMIN, 1000, 100).unwrap();
    c.submit_project(1, 10).unwrap();
    c.submit_project(1, 10).unwrap();
    assert_eq!(c.allocate_votes(1, &vec![(1, 12), (2, 9)]), Err(ContractError::ExceededVoteLimit));
    // Validation happens before any tally changes.
    assert_eq!(c.get_submission(1).unwrap().total_votes, 0);
    assert_eq!(c.get_submission(2).unwrap().total_votes, 0);
    assert!(c.voter_allocations.is_empty());
}

#[test]
fn allocate_votes_abstain_is_allowed() {
    let mut c = setup();
    c.create_round(ADMIN, 1000, 100).unwrap();
    c.submit_project(1, 10).unwrap();
    assert_eq!(c.allocate_votes(1, &vec![]), Ok(()));
    assert_eq!(c.allocate_votes(1, &vec![(1, 0)]), Ok(()));
    assert_eq!(c.get_submission(1).unwrap().total_votes, 0);
}

#[test]
fn allocate_votes_unknown_submission_leaves_prefix_applied() {
    let mut c = setup();
    c.create_round(ADMIN, 1000, 100).unwrap();
    c.submit_project(1, 10).unwrap();
    let r = c.allocate_votes(1, &vec![(1, 5), (99, 5)]);
    assert_eq!(r, Err(ContractError::SubmissionNotFound));
    // The pair before the unknown id was already applied; there is no
    // rollback.
    assert_eq!(c.get_submission(1).unwrap().total_votes, 5);
    // The allocation vector persists only on success.
    assert!(c.voter_allocations.is_empty());
}

#[test]
fn failed_revote_keeps_the_prior_record() {
    let mut c = setup();
    c.create_round(ADMIN, 1000, 100).unwrap();
    c.submit_project(1, 10).unwrap();
    c.allocate_votes(1, &vec![(1, 5)]).unwrap();
    assert_eq!(c.allocate_votes(1, &vec![(99, 1)]), Err(ContractError::SubmissionNotFound));
    assert_eq!(c.voter_allocations.len(), 1);
    assert_eq!(c.voter_allocations[0].allocations, vec![(1, 5)]);
}

#[test]
fn revote_adds_to_tallies_without_subtracting() {
    let mut c = setup();
    c.create_round(ADMIN, 1000, 100).unwrap();
    c.submit_project(1, 10).unwrap();
    assert_eq!(c.allocate_votes(1, &vec![(1, 20)]), Ok(()));
    // A re-vote overwrites the recorded vector but the tally keeps the
    // earlier contribution: the documented double-count behaviour.
    assert_eq!(c.allocate_votes(1, &vec![(1, 10)]), Ok(()));
    assert_eq!(c.get_submission(1).unwrap().total_votes, 30);
}

#[test]
fn close_voting_requires_administrator_and_open_round() {
    let mut c = setup();
    assert_eq!(c.close_voting(ADMIN, 1), Err(ContractError::RoundNotFound));
    c.create_round(ADMIN, 1000, 100).unwrap();
    assert_eq!(c.close_voting(VOTER, 1), Err(ContractError::Unauthorized));
    assert_eq!(c.close_voting(ADMIN, 1), Ok(()));
    assert!(!c.get_round(1).unwrap().is_active);
    // A second close finds the round no longer active.
    assert_eq!(c.close_voting(ADMIN, 1), Err(ContractError::RoundNotActive));
}

#[test]
fn engine_zero_total_gives_zero_allocations() {
    let allocs = engine::compute_allocations(1000, &vec![0, 0, 0]);
    assert_eq!(allocs, vec![0, 0, 0]);
}

#[test]
fn engine_proportional_split_examples() {
    assert_eq!(engine::compute_allocations(1000, &vec![30, 70]), vec![300, 700]);
    assert_eq!(engine::compute_allocations(1000, &vec![33, 67]), vec![330, 670]);
    // total = 3: floor(10/3) = 3, floor(20/3) = 6; 3 + 6 = 9 <= 10.
    assert_eq!(engine::compute_allocations(10, &vec![1, 2]), vec![3, 6]);
}

#[test]
fn disbursement_of_even_split_pays_the_whole_pool() {
    let mut c = setup();
    c.create_round(ADMIN, 1000, 100).unwrap();
    c.set_voter(10);
    c.submit_project(1, 10).unwrap();
    c.set_voter(11);
    c.submit_project(1, 10).unwrap();
    // Tally 30 for the first submission, 70 for the second, from voters
    // bound by the 20-credit budget per call.
    c.set_voter(21);
    c.allocate_votes(1, &vec![(1, 15), (2, 5)]).unwrap();
    c.set_voter(22);
    c.allocate_votes(1, &vec![(1, 15), (2, 5)]).unwrap();
    c.set_voter(23);
    c.allocate_votes(1, &vec![(2, 20)]).unwrap();
    c.set_voter(24);
    c.allocate_votes(1, &vec![(2, 20)]).unwrap();
    c.set_voter(25);
    c.allocate_votes(1, &vec![(2, 20)]).unwrap();
    c.close_voting(ADMIN, 1).unwrap();
    let payments = c.disburse_funds(ADMIN, 1, 1000).unwrap();
    assert_eq!(payments.len(), 2);
    assert_eq!(payments[0].submitter, 10);
    assert_eq!(payments[0].amount, 300);
    assert_eq!(payments[1].submitter, 11);
    assert_eq!(payments[1].amount, 700);
    let total: u64 = payments.iter().map(|p| p.amount).sum();
    assert_eq!(total, 1000);
}

#[test]
fn disbursement_with_truncation_pays_less_than_the_pool() {
    let mut c = setup();
    c.create_round(ADMIN, 10, 100).unwrap();
    c.submit_project(1, 10).unwrap();
    c.submit_project(1, 10).unwrap();
    c.allocate_votes(1, &vec![(1, 1), (2, 2)]).unwrap();
    c.close_voting(ADMIN, 1).unwrap();
    let payments = c.disburse_funds(ADMIN, 1, 10).unwrap();
    assert_eq!(payments[0].amount, 3);
    assert_eq!(payments[1].amount, 6);
    let total: u64 = payments.iter().map(|p| p.amount).sum();
    assert!(total <= 10);
    assert_eq!(total, 9);
}

#[test]
fn disburse_funds_error_paths() {
    let mut c = setup();
    assert_eq!(c.disburse_funds(ADMIN, 1, 1000).unwrap_err(), ContractError::RoundNotFound);
    c.create_round(ADMIN, 1000, 100).unwrap();
    assert_eq!(c.disburse_funds(VOTER, 1, 1000).unwrap_err(), ContractError::Unauthorized);
    // Voting never closed: no stored split to pay out.
    assert_eq!(c.disburse_funds(ADMIN, 1, 1000).unwrap_err(), ContractError::VotingClosed);
    c.close_voting(ADMIN, 1).unwrap();
    // Pool balance short of the funding amount.
    assert_eq!(c.disburse_funds(ADMIN, 1, 999).unwrap_err(), ContractError::InsufficientFunds);
    let payments = c.disburse_funds(ADMIN, 1, 1000).unwrap();
    assert!(payments.is_empty());
}

#[test]
fn second_disbursement_always_fails_with_zero_transfers() {
    let mut c = setup();
    c.create_round(ADMIN, 1000, 100).unwrap();
    c.submit_project(1, 10).unwrap();
    c.allocate_votes(1, &vec![(1, 20)]).unwrap();
    c.close_voting(ADMIN, 1).unwrap();
    let payments = c.disburse_funds(ADMIN, 1, 1000).unwrap();
    assert_eq!(payments.len(), 1);
    c.confirm_disbursement(ADMIN, 1).unwrap();
    assert!(c.get_round(1).unwrap().funds_disbursed);
    // The idempotence guard: the second pass plans no transfer at all.
    assert_eq!(c.disburse_funds(ADMIN, 1, 1000).unwrap_err(), ContractError::FundsAlreadyDisbursed);
}

#[test]
fn confirm_disbursement_error_paths() {
    let mut c = setup();
    assert_eq!(c.confirm_disbursement(ADMIN, 1).unwrap_err(), ContractError::RoundNotFound);
    c.create_round(ADMIN, 1000, 100).unwrap();
    assert_eq!(c.confirm_disbursement(VOTER, 1).unwrap_err(), ContractError::Unauthorized);
    assert_eq!(c.confirm_disbursement(ADMIN, 1).unwrap_err(), ContractError::VotingClosed);
    c.close_voting(ADMIN, 1).unwrap();
    assert_eq!(c.confirm_disbursement(ADMIN, 1), Ok(()));
    assert_eq!(c.confirm_disbursement(ADMIN, 1).unwrap_err(), ContractError::FundsAlreadyDisbursed);
}

#[test]
fn closing_an_empty_round_stores_an_empty_split() {
    let mut c = setup();
    c.create_round(ADMIN, 1000, 100).unwrap();
    c.close_voting(ADMIN, 1).unwrap();
    let payments = c.disburse_funds(ADMIN, 1, 1000).unwrap();
    assert!(payments.is_empty());
}

#[test]
fn zero_votes_round_disburses_nothing() {
    let mut c = setup();
    c.create_round(ADMIN, 1000, 100).unwrap();
    c.submit_project(1, 10).unwrap();
    c.submit_project(1, 10).unwrap();
    c.close_voting(ADMIN, 1).unwrap();
    let payments = c.disburse_funds(ADMIN, 1, 1000).unwrap();
    assert_eq!(payments.len(), 2);
    assert_eq!(payments[0].amount, 0);
    assert_eq!(payments[1].amount, 0);
}

#[test]
fn votes_cast_after_closing_do_not_change_the_split() {
    let mut c = setup();
    c.create_round(ADMIN, 100, 100).unwrap();
    c.submit_project(1, 10).unwrap();
    c.allocate_votes(1, &vec![(1, 10)]).unwrap();
    c.close_voting(ADMIN, 1).unwrap();
    // The ledger still accepts votes for a closed round's submissions,
    // but the stored split was fixed at closing time.
    c.allocate_votes(1, &vec![(1, 10)]).unwrap();
    let payments = c.disburse_funds(ADMIN, 1, 100).unwrap();
    assert_eq!(payments[0].amount, 100);
}
