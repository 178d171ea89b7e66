//! AllocationEngine: the proportional funding split.
//!
//! Given a round's vote tallies and its funding pool, each submission's
//! allocation is `floor(tally * funding / total)` with truncating integer
//! division, where `total` is the sum of all tallies; when `total == 0`
//! every allocation is zero. The remainder lost to truncation is not
//! redistributed, so the allocations sum to at most the funding pool.

use vstd::prelude::*;
use vstd::arithmetic::div_mod::{
    lemma_div_is_ordered, lemma_div_multiples_vanish, lemma_fundamental_div_mod, lemma_mod_bound,
};
use vstd::arithmetic::mul::{lemma_mul_inequality, lemma_mul_is_distributive_add};

verus! {

/// Total of a tally sequence, as a mathematical integer.
pub open spec fn sum_u64(s: Seq<u64>) -> int
    decreases s.len(),
{
    if s.len() == 0 {
        0
    } else {
        sum_u64(s.drop_last()) + s.last()
    }
}

/// One submission's proportional share of the funding pool.
pub open spec fn share(votes: u64, funding: u64, total: int) -> int {
    if total > 0 {
        (votes * funding) / total
    } else {
        0
    }
}

/// The remainder that the truncating division of one share throws away.
pub open spec fn share_rem(votes: u64, funding: u64, total: int) -> int {
    if total > 0 {
        (votes * funding) % total
    } else {
        0
    }
}

/// Sum of all proportional shares of a tally sequence.
pub open spec fn sum_shares(s: Seq<u64>, funding: u64, total: int) -> int
    decreases s.len(),
{
    if s.len() == 0 {
        0
    } else {
        sum_shares(s.drop_last(), funding, total) + share(s.last(), funding, total)
    }
}

/// Sum of all truncation remainders of a tally sequence.
pub open spec fn sum_rems(s: Seq<u64>, funding: u64, total: int) -> int
    decreases s.len(),
{
    if s.len() == 0 {
        0
    } else {
        sum_rems(s.drop_last(), funding, total) + share_rem(s.last(), funding, total)
    }
}

pub proof fn lemma_sum_u64_nonneg(s: Seq<u64>)
    ensures
        sum_u64(s) >= 0,
    decreases s.len(),
{
    if s.len() > 0 {
        lemma_sum_u64_nonneg(s.drop_last());
    }
}

/// Each tally is at most the total of its sequence.
pub proof fn lemma_elem_le_sum(s: Seq<u64>, k: int)
    requires
        0 <= k < s.len(),
    ensures
        s[k] <= sum_u64(s),
    decreases s.len(),
{
    if k == s.len() - 1 {
        lemma_sum_u64_nonneg(s.drop_last());
    } else {
        lemma_elem_le_sum(s.drop_last(), k);
    }
}

/// Summing a sequence one element at a time agrees with `sum_u64`.
pub proof fn lemma_sum_u64_take_step(s: Seq<u64>, i: int)
    requires
        0 <= i < s.len(),
    ensures
        sum_u64(s.take(i + 1)) == sum_u64(s.take(i)) + s[i],
{
    assert(s.take(i + 1).drop_last() =~= s.take(i));
    assert(s.take(i + 1).last() == s[i]);
}

/// The shares and remainders of a tally sequence decompose its total:
/// `sum(s) * funding == total * sum_shares + sum_rems`, with every share
/// and every remainder non-negative.
pub proof fn lemma_share_decomposition(s: Seq<u64>, funding: u64, total: int)
    requires
        total > 0,
    ensures
        sum_u64(s) * funding == total * sum_shares(s, funding, total) + sum_rems(s, funding, total),
        sum_shares(s, funding, total) >= 0,
        sum_rems(s, funding, total) >= 0,
    decreases s.len(),
{
    if s.len() == 0 {
        assert(sum_u64(s) * funding == 0) by (nonlinear_arith)
            requires sum_u64(s) == 0;
        assert(total * sum_shares(s, funding, total) == 0) by (nonlinear_arith)
            requires sum_shares(s, funding, total) == 0;
    } else {
        let s0 = s.drop_last();
        let v = s.last();
        lemma_share_decomposition(s0, funding, total);
        let p = v * funding;
        assert(p >= 0) by (nonlinear_arith)
            requires p == v * funding, v >= 0, funding >= 0;
        lemma_fundamental_div_mod(p, total);
        lemma_mod_bound(p, total);
        lemma_div_is_ordered(0, p, total);
        // (sum(s0) + v) * funding == sum(s0) * funding + v * funding
        assert((sum_u64(s0) + v) * funding == sum_u64(s0) * funding + v * funding)
            by (nonlinear_arith);
        // total * (S0 + q) == total * S0 + total * q
        lemma_mul_is_distributive_add(total, sum_shares(s0, funding, total), p / total);
    }
}

/// With a zero vote total, every share is zero and so is their sum.
pub proof fn lemma_sum_shares_zero_total(s: Seq<u64>, funding: u64)
    ensures
        sum_shares(s, funding, 0) == 0,
    decreases s.len(),
{
    if s.len() > 0 {
        lemma_sum_shares_zero_total(s.drop_last(), funding);
    }
}

/// The sum of remainders vanishes exactly when every single remainder does.
pub proof fn lemma_sum_rems_zero_iff(s: Seq<u64>, funding: u64, total: int)
    requires
        total > 0,
    ensures
        sum_rems(s, funding, total) == 0 <==> (forall|k: int|
            0 <= k < s.len() ==> share_rem(s[k], funding, total) == 0),
    decreases s.len(),
{
    if s.len() > 0 {
        let s0 = s.drop_last();
        lemma_sum_rems_zero_iff(s0, funding, total);
        lemma_share_decomposition(s0, funding, total);
        lemma_mod_bound(s.last() * funding, total);
        assert(forall|k: int| 0 <= k < s0.len() ==> s0[k] == s[k]);
        if sum_rems(s, funding, total) == 0 {
            assert(forall|k: int| 0 <= k < s.len() ==> share_rem(s[k], funding, total) == 0)
                by {
                assert(forall|k: int|
                    0 <= k < s0.len() ==> #[trigger] share_rem(s[k], funding, total) == share_rem(
                        s0[k],
                        funding,
                        total,
                    ));
            }
        }
    }
}

/// The allocations of a round sum to at most its funding pool; they reach
/// it exactly when no share loses anything to truncation; and a round with
/// no votes at all allocates nothing.
pub proof fn lemma_allocation_sum(s: Seq<u64>, funding: u64)
    ensures
        0 <= sum_shares(s, funding, sum_u64(s)),
        sum_shares(s, funding, sum_u64(s)) <= funding,
        sum_u64(s) == 0 ==> sum_shares(s, funding, sum_u64(s)) == 0,
        sum_u64(s) > 0 ==> (sum_shares(s, funding, sum_u64(s)) == funding <==> (forall|k: int|
            0 <= k < s.len() ==> share_rem(s[k], funding, sum_u64(s)) == 0)),
{
    let t = sum_u64(s);
    lemma_sum_u64_nonneg(s);
    if t == 0 {
        lemma_sum_shares_zero_total(s, funding);
    } else {
        lemma_share_decomposition(s, funding, t);
        lemma_sum_rems_zero_iff(s, funding, t);
        let sh = sum_shares(s, funding, t);
        let r = sum_rems(s, funding, t);
        // t * funding == t * sh + r, r >= 0, so sh <= funding;
        // and sh == funding exactly when r == 0.
        assert(r == t * (funding - sh)) by (nonlinear_arith)
            requires t * funding == t * sh + r;
        assert(sh <= funding) by (nonlinear_arith)
            requires r == t * (funding - sh), r >= 0, t > 0;
        if r == 0 {
            assert(sh == funding) by (nonlinear_arith)
                requires t * (funding - sh) == 0, t > 0;
        }
        if sh == funding {
            assert(r == 0) by (nonlinear_arith)
                requires r == t * (funding - sh), sh == funding;
        }
    }
}

/// Total of a round's vote tallies. The sum of u64 tallies always fits in
/// a u128, so no input is rejected.
pub fn total_votes(tallies: &Vec<u64>) -> (t: u128)
    ensures
        t == sum_u64(tallies@),
{
    let mut acc: u128 = 0;
    let mut i: usize = 0;
    while i < tallies.len()
        invariant
            0 <= i <= tallies@.len(),
            acc == sum_u64(tallies@.take(i as int)),
            acc <= i * (u64::MAX as int),
        decreases tallies@.len() - i,
    {
        proof {
            lemma_sum_u64_take_step(tallies@, i as int);
            assert((i + 1) * (u64::MAX as int) <= u128::MAX) by (nonlinear_arith)
                requires 0 <= i + 1 <= u64::MAX as int;
            assert(i * (u64::MAX as int) + u64::MAX <= (i + 1) * (u64::MAX as int))
                by (nonlinear_arith);
        }
        acc = acc + (tallies[i] as u128);
        i = i + 1;
    }
    proof {
        assert(tallies@.take(tallies@.len() as int) =~= tallies@);
    }
    acc
}

/// AllocationEngine: compute every submission's proportional allocation
/// from its tally, the round's funding pool, and the total tally.
pub fn compute_allocations(funding_amount: u64, tallies: &Vec<u64>) -> (allocs: Vec<u64>)
    ensures
        allocs@.len() == tallies@.len(),
        forall|k: int|
            0 <= k < tallies@.len() ==> allocs@[k] == share(
                tallies@[k],
                funding_amount,
                sum_u64(tallies@),
            ),
        sum_u64(allocs@) == sum_shares(tallies@, funding_amount, sum_u64(tallies@)),
        sum_u64(allocs@) <= funding_amount,
        sum_u64(tallies@) == 0 ==> (forall|k: int| 0 <= k < allocs@.len() ==> allocs@[k] == 0),
{
    let ghost t = sum_u64(tallies@);
    let total: u128 = total_votes(tallies);
    let mut allocs: Vec<u64> = Vec::new();
    let mut i: usize = 0;
    while i < tallies.len()
        invariant
            0 <= i <= tallies@.len(),
            total == sum_u64(tallies@),
            t == sum_u64(tallies@),
            allocs@.len() == i,
            forall|k: int| 0 <= k < i ==> allocs@[k] == share(tallies@[k], funding_amount, t),
            sum_u64(allocs@) == sum_shares(tallies@.take(i as int), funding_amount, t),
        decreases tallies@.len() - i,
    {
        let v = tallies[i];
        let a: u64;
        if total > 0 {
            proof {
                assert((v as int) * (funding_amount as int) <= u128::MAX) by (nonlinear_arith)
                    requires 0 <= v <= u64::MAX, 0 <= funding_amount <= u64::MAX;
                lemma_elem_le_sum(tallies@, i as int);
                // v <= t, so v * funding <= t * funding, so the share is at
                // most (t * funding) / t == funding.
                lemma_mul_inequality(v as int, t, funding_amount as int);
                lemma_mul_inequality(0, v as int, funding_amount as int);
                lemma_div_is_ordered(0, (v as int) * (funding_amount as int), t);
                lemma_div_is_ordered(
                    (v as int) * (funding_amount as int),
                    t * (funding_amount as int),
                    t,
                );
                lemma_div_multiples_vanish(funding_amount as int, t);
            }
            let wide: u128 = (v as u128) * (funding_amount as u128);
            a = (wide / total) as u64;
        } else {
            a = 0;
        }
        proof {
            let taken = tallies@.take(i as int + 1);
            assert(taken.drop_last() =~= tallies@.take(i as int));
            assert(taken.last() == tallies@[i as int]);
            assert(allocs@.push(a).drop_last() =~= allocs@);
        }
        allocs.push(a);
        i = i + 1;
    }
    proof {
        assert(tallies@.take(tallies@.len() as int) =~= tallies@);
        lemma_allocation_sum(tallies@, funding_amount);
    }
    allocs
}

} // verus!
