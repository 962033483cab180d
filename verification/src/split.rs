//! Share calculation: expanding an expense total and a split rule into one
//! share per participant.
//!
//! Division never loses money: each rule allots to every participant the
//! difference of two cumulative quotients, so the shares of a successful
//! split sum to the total exactly (for exact splits, to the allocated sum,
//! which the tolerance ties to the total within one cent).

use vstd::prelude::*;
use crate::ids::{UserId, ExpenseId};
use crate::money::{
    valid_amount, bounded_amount, AMOUNT_LIMIT_CENTS, MAX_EVENTS, PERCENT_SCALE,
    PERCENT_ENTRY_LIMIT, PERCENT_TOLERANCE, TOLERANCE_CENTS,
};
use crate::expense::{ExpenseShare, SplitType, SplitError};
use crate::util::unique_seq;
use crate::balance::shares_sum_for;
use vstd::arithmetic::div_mod::{lemma_div_pos_is_pos, lemma_div_is_ordered, lemma_div_by_multiple};

verus! {

/// Index of the entry for `u` in an amount map, or `-1` when absent.
pub open spec fn alloc_index(m: Seq<(UserId, i64)>, u: UserId) -> int
    decreases m.len(),
{
    if m.len() == 0 {
        -1
    } else if m.last().0 == u {
        m.len() - 1
    } else {
        alloc_index(m.drop_last(), u)
    }
}

/// The amount mapped to `u`; meaningful only when `alloc_index(m, u) >= 0`.
pub open spec fn alloc_value(m: Seq<(UserId, i64)>, u: UserId) -> int {
    m[alloc_index(m, u)].1 as int
}

/// Index of the entry for `u` in a weight map, or `-1` when absent.
pub open spec fn weight_index(m: Seq<(UserId, u32)>, u: UserId) -> int
    decreases m.len(),
{
    if m.len() == 0 {
        -1
    } else if m.last().0 == u {
        m.len() - 1
    } else {
        weight_index(m.drop_last(), u)
    }
}

/// The weight mapped to `u`; meaningful only when `weight_index(m, u) >= 0`.
pub open spec fn weight_value(m: Seq<(UserId, u32)>, u: UserId) -> int {
    m[weight_index(m, u)].1 as int
}

/// No user has two entries in the amount map.
pub open spec fn unique_alloc_keys(m: Seq<(UserId, i64)>) -> bool {
    forall|i: int, j: int| 0 <= i < j < m.len() ==> m[i].0 != m[j].0
}

/// No user has two entries in the weight map.
pub open spec fn unique_weight_keys(m: Seq<(UserId, u32)>) -> bool {
    forall|i: int, j: int| 0 <= i < j < m.len() ==> m[i].0 != m[j].0
}

/// Every participant has an entry in the amount map.
pub open spec fn all_allocated(ps: Seq<UserId>, m: Seq<(UserId, i64)>) -> bool {
    forall|i: int| 0 <= i < ps.len() ==> alloc_index(m, ps[i]) >= 0
}

/// Every participant has an entry in the weight map.
pub open spec fn all_weighted(ps: Seq<UserId>, m: Seq<(UserId, u32)>) -> bool {
    forall|i: int| 0 <= i < ps.len() ==> weight_index(m, ps[i]) >= 0
}

/// Sum of the amounts mapped to the first `i` participants.
pub open spec fn alloc_prefix(ps: Seq<UserId>, m: Seq<(UserId, i64)>, i: int) -> int
    decreases i,
{
    if i <= 0 {
        0
    } else {
        alloc_prefix(ps, m, i - 1) + alloc_value(m, ps[i - 1])
    }
}

/// Sum of the weights mapped to the first `i` participants.
pub open spec fn weight_prefix(ps: Seq<UserId>, m: Seq<(UserId, u32)>, i: int) -> int
    decreases i,
{
    if i <= 0 {
        0
    } else {
        weight_prefix(ps, m, i - 1) + weight_value(m, ps[i - 1])
    }
}

/// Amount allotted to the first `i` participants of an equal split.
pub open spec fn equal_prefix(total: int, count: int, i: int) -> int {
    total * i / count
}

/// Share of participant `i` under an equal split: cumulative quotients, so
/// the remainder cents land on the participants where the fraction turns.
pub open spec fn equal_share_at(total: int, count: int, i: int) -> int {
    equal_prefix(total, count, i + 1) - equal_prefix(total, count, i)
}

/// Share of participant `i` under a percentage split: the percentages act
/// as weights against the participants' percentage sum.
pub open spec fn percentage_share_at(
    total: int,
    ps: Seq<UserId>,
    m: Seq<(UserId, i64)>,
    i: int,
) -> int {
    let s = alloc_prefix(ps, m, ps.len() as int);
    total * alloc_prefix(ps, m, i + 1) / s - total * alloc_prefix(ps, m, i) / s
}

/// Share of participant `i` under a weighted split.
pub open spec fn weighted_share_at(
    total: int,
    ps: Seq<UserId>,
    m: Seq<(UserId, u32)>,
    i: int,
) -> int {
    let s = weight_prefix(ps, m, ps.len() as int);
    total * weight_prefix(ps, m, i + 1) / s - total * weight_prefix(ps, m, i) / s
}

/// A split's map is well formed: unique keys, bounded size and entries.
pub open spec fn split_wf(s: SplitType) -> bool {
    match s {
        SplitType::Equal => true,
        SplitType::Exact(m) => {
            &&& unique_alloc_keys(m@)
            &&& m@.len() <= MAX_EVENTS
            &&& forall|i: int| 0 <= i < m@.len() ==>
                -AMOUNT_LIMIT_CENTS <= (#[trigger] m@[i]).1 <= AMOUNT_LIMIT_CENTS
        },
        SplitType::Percentage(m) => {
            &&& unique_alloc_keys(m@)
            &&& m@.len() <= MAX_EVENTS
            &&& forall|i: int| 0 <= i < m@.len() ==>
                0 <= (#[trigger] m@[i]).1 <= PERCENT_ENTRY_LIMIT
        },
        SplitType::ByShares(m) => {
            &&& unique_weight_keys(m@)
            &&& m@.len() <= MAX_EVENTS
        },
    }
}

/// Sum of the amounts of a share list.
pub open spec fn sum_share_amounts(shares: Seq<ExpenseShare>) -> int
    decreases shares.len(),
{
    if shares.len() == 0 {
        0
    } else {
        sum_share_amounts(shares.drop_last()) + shares.last().amount
    }
}

/// The shares are exactly one per participant, in participant order, each
/// with a bounded amount, tied to `eid` and not settled.
pub open spec fn shares_shape(
    shares: Seq<ExpenseShare>,
    eid: ExpenseId,
    ps: Seq<UserId>,
) -> bool {
    &&& shares.len() == ps.len()
    &&& forall|i: int| 0 <= i < ps.len() ==> {
        &&& (#[trigger] shares[i]).expense_id == eid
        &&& shares[i].user_id == ps[i]
        &&& !shares[i].is_settled
        &&& bounded_amount(shares[i].amount)
    }
}

/// Shares of an equal split of `total` among `ps`: the stated per-index
/// amounts, summing to the total exactly.
pub open spec fn is_equal_split(
    shares: Seq<ExpenseShare>,
    eid: ExpenseId,
    ps: Seq<UserId>,
    total: int,
) -> bool {
    &&& shares_shape(shares, eid, ps)
    &&& forall|i: int| 0 <= i < ps.len() ==>
        (#[trigger] shares[i]).amount == equal_share_at(total, ps.len() as int, i)
    &&& sum_share_amounts(shares) == total
}

/// Shares of an exact split: each participant owes the mapped amount, and
/// the shares sum to the total within the tolerance.
pub open spec fn is_exact_split(
    shares: Seq<ExpenseShare>,
    eid: ExpenseId,
    ps: Seq<UserId>,
    total: int,
    m: Seq<(UserId, i64)>,
) -> bool {
    &&& shares_shape(shares, eid, ps)
    &&& forall|i: int| 0 <= i < ps.len() ==>
        (#[trigger] shares[i]).amount == alloc_value(m, ps[i])
    &&& sum_share_amounts(shares) == alloc_prefix(ps, m, ps.len() as int)
    &&& -TOLERANCE_CENTS <= sum_share_amounts(shares) - total <= TOLERANCE_CENTS
}

/// Shares of a percentage split of `total` among `ps`, summing to the
/// total exactly.
pub open spec fn is_percentage_split(
    shares: Seq<ExpenseShare>,
    eid: ExpenseId,
    ps: Seq<UserId>,
    total: int,
    m: Seq<(UserId, i64)>,
) -> bool {
    &&& shares_shape(shares, eid, ps)
    &&& forall|i: int| 0 <= i < ps.len() ==>
        (#[trigger] shares[i]).amount == percentage_share_at(total, ps, m, i)
    &&& sum_share_amounts(shares) == total
}

/// Shares of a weighted split of `total` among `ps`, summing to the total
/// exactly.
pub open spec fn is_weighted_split(
    shares: Seq<ExpenseShare>,
    eid: ExpenseId,
    ps: Seq<UserId>,
    total: int,
    m: Seq<(UserId, u32)>,
) -> bool {
    &&& shares_shape(shares, eid, ps)
    &&& forall|i: int| 0 <= i < ps.len() ==>
        (#[trigger] shares[i]).amount == weighted_share_at(total, ps, m, i)
    &&& sum_share_amounts(shares) == total
}

/// Which error, if any, a split rule produces for these participants: a
/// participant without an entry first, then the sum checks over the
/// participants' entries.
pub open spec fn split_error_of(total: int, ps: Seq<UserId>, split: SplitType) -> Option<
    SplitError,
> {
    match split {
        SplitType::Equal => None,
        SplitType::Exact(m) => {
            if !all_allocated(ps, m@) {
                Some(SplitError::MissingAllocation)
            } else {
                let s = alloc_prefix(ps, m@, ps.len() as int);
                if s - total > TOLERANCE_CENTS || total - s > TOLERANCE_CENTS {
                    Some(SplitError::AllocationMismatch)
                } else {
                    None
                }
            }
        },
        SplitType::Percentage(m) => {
            if !all_allocated(ps, m@) {
                Some(SplitError::MissingAllocation)
            } else {
                let s = alloc_prefix(ps, m@, ps.len() as int);
                if s - PERCENT_SCALE > PERCENT_TOLERANCE || PERCENT_SCALE - s > PERCENT_TOLERANCE {
                    Some(SplitError::AllocationMismatch)
                } else {
                    None
                }
            }
        },
        SplitType::ByShares(m) => {
            if !all_weighted(ps, m@) {
                Some(SplitError::MissingAllocation)
            } else if weight_prefix(ps, m@, ps.len() as int) == 0 {
                Some(SplitError::ZeroTotalShares)
            } else {
                None
            }
        },
    }
}

/// The shares a successful split produces, whatever its rule.
pub open spec fn is_split_shares(
    shares: Seq<ExpenseShare>,
    eid: ExpenseId,
    total: int,
    ps: Seq<UserId>,
    split: SplitType,
) -> bool {
    match split {
        SplitType::Equal => is_equal_split(shares, eid, ps, total),
        SplitType::Exact(m) => is_exact_split(shares, eid, ps, total, m@),
        SplitType::Percentage(m) => is_percentage_split(shares, eid, ps, total, m@),
        SplitType::ByShares(m) => is_weighted_split(shares, eid, ps, total, m@),
    }
}

/// What `compute_shares` returns, for every allowed input.
pub open spec fn compute_shares_post(
    r: Result<Vec<ExpenseShare>, SplitError>,
    eid: ExpenseId,
    total: int,
    ps: Seq<UserId>,
    split: SplitType,
) -> bool {
    match split_error_of(total, ps, split) {
        Some(e) => r == Result::<Vec<ExpenseShare>, SplitError>::Err(e),
        None => match r {
            Ok(shares) => is_split_shares(shares@, eid, total, ps, split),
            Err(_) => false,
        },
    }
}

/// When present, the entry found by `alloc_index` is a real entry for `u`.
pub proof fn lemma_alloc_index(m: Seq<(UserId, i64)>, u: UserId)
    ensures
        alloc_index(m, u) == -1 ==> forall|j: int| 0 <= j < m.len() ==> (#[trigger] m[j]).0 != u,
        alloc_index(m, u) != -1 ==> 0 <= alloc_index(m, u) < m.len() && m[alloc_index(m, u)].0 == u,
    decreases m.len(),
{
    if m.len() > 0 && m.last().0 != u {
        lemma_alloc_index(m.drop_last(), u);
        assert(forall|j: int| 0 <= j < m.len() - 1 ==> m.drop_last()[j] == m[j]);
    }
}

/// When present, the entry found by `weight_index` is a real entry for `u`.
pub proof fn lemma_weight_index(m: Seq<(UserId, u32)>, u: UserId)
    ensures
        weight_index(m, u) == -1 ==> forall|j: int| 0 <= j < m.len() ==> (#[trigger] m[j]).0 != u,
        weight_index(m, u) != -1 ==> 0 <= weight_index(m, u) < m.len()
            && m[weight_index(m, u)].0 == u,
    decreases m.len(),
{
    if m.len() > 0 && m.last().0 != u {
        lemma_weight_index(m.drop_last(), u);
        assert(forall|j: int| 0 <= j < m.len() - 1 ==> m.drop_last()[j] == m[j]);
    }
}

/// Appending one share extends the sum by its amount.
proof fn lemma_sum_share_push(shares: Seq<ExpenseShare>, x: ExpenseShare)
    ensures
        sum_share_amounts(shares.push(x)) == sum_share_amounts(shares) + x.amount,
{
    assert(shares.push(x).drop_last() =~= shares);
}

/// Allocation prefixes grow with the participant count when every counted
/// entry is non-negative.
proof fn lemma_alloc_prefix_monotone(ps: Seq<UserId>, m: Seq<(UserId, i64)>, i: int, j: int)
    requires
        0 <= i <= j,
        forall|k: int| 0 <= k < j ==> #[trigger] alloc_value(m, ps[k]) >= 0,
    ensures
        alloc_prefix(ps, m, i) <= alloc_prefix(ps, m, j),
    decreases j - i,
{
    if i < j {
        lemma_alloc_prefix_monotone(ps, m, i, j - 1);
    }
}

/// Weight prefixes grow with the participant count when every counted
/// entry is found in the map.
proof fn lemma_weight_prefix_monotone(ps: Seq<UserId>, m: Seq<(UserId, u32)>, i: int, j: int)
    requires
        0 <= i <= j,
        forall|k: int| 0 <= k < j ==> weight_index(m, #[trigger] ps[k]) >= 0,
    ensures
        weight_prefix(ps, m, i) <= weight_prefix(ps, m, j),
    decreases j - i,
{
    if i < j {
        lemma_weight_prefix_monotone(ps, m, i, j - 1);
        lemma_weight_index(m, ps[j - 1]);
    }
}

/// When every share carries the same expense identity, the stored sum for
/// that expense is simply their sum.
pub proof fn lemma_shares_sum_all_match(ss: Seq<ExpenseShare>, eid: ExpenseId)
    requires
        forall|i: int| 0 <= i < ss.len() ==> (#[trigger] ss[i]).expense_id == eid,
    ensures
        shares_sum_for(ss, eid) == sum_share_amounts(ss),
    decreases ss.len(),
{
    if ss.len() > 0 {
        assert(forall|i: int| 0 <= i < ss.len() - 1 ==> ss.drop_last()[i] == ss[i]);
        lemma_shares_sum_all_match(ss.drop_last(), eid);
    }
}

/// Look up a user's entry in an amount map.
fn alloc_get(m: &Vec<(UserId, i64)>, u: UserId) -> (r: Option<i64>)
    requires
        unique_alloc_keys(m@),
    ensures
        match r {
            None => alloc_index(m@, u) == -1,
            Some(v) => {
                &&& 0 <= alloc_index(m@, u) < m@.len()
                &&& v == m@[alloc_index(m@, u)].1
            },
        },
{
    proof {
        lemma_alloc_index(m@, u);
    }
    let n = m.len();
    let mut i: usize = 0;
    while i < n
        invariant
            n == m@.len(),
            0 <= i <= n,
            unique_alloc_keys(m@),
            forall|j: int| 0 <= j < i ==> (#[trigger] m@[j]).0 != u,
        decreases n - i,
    {
        if m[i].0 == u {
            proof {
                lemma_alloc_index(m@, u);
                assert(alloc_index(m@, u) == i);
            }
            return Some(m[i].1);
        }
        i += 1;
    }
    proof {
        lemma_alloc_index(m@, u);
    }
    None
}

/// Look up a user's entry in a weight map.
fn weight_get(m: &Vec<(UserId, u32)>, u: UserId) -> (r: Option<u32>)
    requires
        unique_weight_keys(m@),
    ensures
        match r {
            None => weight_index(m@, u) == -1,
            Some(v) => {
                &&& 0 <= weight_index(m@, u) < m@.len()
                &&& v == m@[weight_index(m@, u)].1
            },
        },
{
    proof {
        lemma_weight_index(m@, u);
    }
    let n = m.len();
    let mut i: usize = 0;
    while i < n
        invariant
            n == m@.len(),
            0 <= i <= n,
            unique_weight_keys(m@),
            forall|j: int| 0 <= j < i ==> (#[trigger] m@[j]).0 != u,
        decreases n - i,
    {
        if m[i].0 == u {
            proof {
                lemma_weight_index(m@, u);
                assert(weight_index(m@, u) == i);
            }
            return Some(m[i].1);
        }
        i += 1;
    }
    proof {
        lemma_weight_index(m@, u);
    }
    None
}

/// Expand an expense total into one share per participant under the given
/// split rule, tying every share to `expense_id`.
///
/// Each participant receives the difference of two cumulative quotients,
/// so nothing is lost to rounding: the shares of a successful equal,
/// percentage or weighted split sum to the total exactly.
#[allow(unused_variables)]
#[verifier::loop_isolation(false)]
pub fn compute_shares(
    expense_id: ExpenseId,
    total_amount: i64,
    participants: &Vec<UserId>,
    payer: UserId,
    split: &SplitType,
) -> (r: Result<Vec<ExpenseShare>, SplitError>)
    requires
        valid_amount(total_amount),
        0 < participants@.len() <= MAX_EVENTS,
        unique_seq(participants@),
        participants@.contains(payer),
        split_wf(*split),
    ensures
        compute_shares_post(r, expense_id, total_amount as int, participants@, *split),
{
    let count = participants.len();
    let ghost ps = participants@;
    let ghost n = ps.len() as int;
    match split {
        SplitType::Equal => {
            let mut shares: Vec<ExpenseShare> = Vec::new();
            let mut q_prev: u64 = 0;
            let mut i: usize = 0;
            while i < count
                invariant
                    0 <= i <= count,
                    q_prev == equal_prefix(total_amount as int, n, i as int),
                    0 <= q_prev <= total_amount,
                    shares@.len() == i,
                    sum_share_amounts(shares@) == q_prev,
                    forall|j: int| 0 <= j < i ==> {
                        &&& (#[trigger] shares@[j]).expense_id == expense_id
                        &&& shares@[j].user_id == ps[j]
                        &&& shares@[j].amount == equal_share_at(total_amount as int, n, j)
                        &&& bounded_amount(shares@[j].amount)
                        &&& !shares@[j].is_settled
                    },
                decreases count - i,
            {
                proof {
                    assert((total_amount as int) * (i + 1) <= (AMOUNT_LIMIT_CENTS as int)
                        * 1_000_000) by (nonlinear_arith)
                        requires
                            0 <= total_amount as int <= AMOUNT_LIMIT_CENTS as int,
                            0 < i + 1 <= 1_000_000,
                    ;
                }
                let q_next = ((total_amount as u64) * ((i + 1) as u64)) / (count as u64);
                proof {
                    assert((total_amount as int) * (i + 1) == (total_amount as int) * (i as int)
                        + total_amount) by (nonlinear_arith);
                    assert((total_amount as int) * (i + 1) <= (total_amount as int) * n)
                        by (nonlinear_arith)
                        requires
                            0 <= total_amount as int,
                            i + 1 <= n,
                    ;
                    lemma_div_pos_is_pos((total_amount as int) * (i + 1), n);
                    lemma_div_is_ordered(
                        (total_amount as int) * (i as int),
                        (total_amount as int) * (i + 1),
                        n,
                    );
                    lemma_div_is_ordered(
                        (total_amount as int) * (i + 1),
                        (total_amount as int) * n,
                        n,
                    );
                    lemma_div_by_multiple(total_amount as int, n);
                }
                let amount = (q_next - q_prev) as i64;
                let share = ExpenseShare {
                    expense_id,
                    user_id: participants[i],
                    amount,
                    is_settled: false,
                };
                proof {
                    lemma_sum_share_push(shares@, share);
                }
                shares.push(share);
                q_prev = q_next;
                i += 1;
            }
            proof {
                lemma_div_by_multiple(total_amount as int, n);
            }
            Ok(shares)
        },
        SplitType::Exact(m) => {
            let mut shares: Vec<ExpenseShare> = Vec::new();
            let mut sum: i64 = 0;
            let mut i: usize = 0;
            while i < count
                invariant
                    0 <= i <= count,
                    unique_alloc_keys(m@),
                    sum == alloc_prefix(ps, m@, i as int),
                    -(i as int) * (AMOUNT_LIMIT_CENTS as int) <= sum as int
                        <= (i as int) * (AMOUNT_LIMIT_CENTS as int),
                    shares@.len() == i,
                    sum_share_amounts(shares@) == sum,
                    forall|j: int| 0 <= j < i ==> alloc_index(m@, ps[j]) >= 0,
                    forall|j: int| 0 <= j < i ==> {
                        &&& (#[trigger] shares@[j]).expense_id == expense_id
                        &&& shares@[j].user_id == ps[j]
                        &&& shares@[j].amount == alloc_value(m@, ps[j])
                        &&& bounded_amount(shares@[j].amount)
                        &&& !shares@[j].is_settled
                    },
                decreases count - i,
            {
                let v = match alloc_get(m, participants[i]) {
                    None => {
                        return Err(SplitError::MissingAllocation);
                    },
                    Some(v) => v,
                };
                let share = ExpenseShare {
                    expense_id,
                    user_id: participants[i],
                    amount: v,
                    is_settled: false,
                };
                proof {
                    lemma_sum_share_push(shares@, share);
                }
                shares.push(share);
                sum = sum + v;
                i += 1;
            }
            if sum - total_amount > TOLERANCE_CENTS || total_amount - sum > TOLERANCE_CENTS {
                return Err(SplitError::AllocationMismatch);
            }
            Ok(shares)
        },
        SplitType::Percentage(m) => {
            // first pass: every participant's percentage, and their sum
            let mut vals: Vec<i64> = Vec::new();
            let mut total_pct: i64 = 0;
            let mut i: usize = 0;
            while i < count
                invariant
                    0 <= i <= count,
                    unique_alloc_keys(m@),
                    vals@.len() == i,
                    total_pct == alloc_prefix(ps, m@, i as int),
                    0 <= total_pct <= (i as int) * (PERCENT_ENTRY_LIMIT as int),
                    forall|j: int| 0 <= j < i ==> alloc_index(m@, ps[j]) >= 0,
                    forall|j: int| 0 <= j < i ==> (#[trigger] vals@[j]) == alloc_value(m@, ps[j])
                        && 0 <= vals@[j] <= PERCENT_ENTRY_LIMIT,
                decreases count - i,
            {
                let v = match alloc_get(m, participants[i]) {
                    None => {
                        return Err(SplitError::MissingAllocation);
                    },
                    Some(v) => v,
                };
                vals.push(v);
                total_pct = total_pct + v;
                i += 1;
            }
            if total_pct - PERCENT_SCALE > PERCENT_TOLERANCE
                || PERCENT_SCALE - total_pct > PERCENT_TOLERANCE {
                return Err(SplitError::AllocationMismatch);
            }
            // second pass: cumulative quotients against the participants' sum
            let ghost s = alloc_prefix(ps, m@, n);
            let mut shares: Vec<ExpenseShare> = Vec::new();
            let mut cum: i64 = 0;
            let mut q_prev: u64 = 0;
            let mut i2: usize = 0;
            while i2 < count
                invariant
                    0 <= i2 <= count,
                    cum == alloc_prefix(ps, m@, i2 as int),
                    0 <= cum <= s,
                    q_prev == (total_amount as int) * cum / s,
                    0 <= q_prev <= total_amount,
                    shares@.len() == i2,
                    sum_share_amounts(shares@) == q_prev,
                    forall|j: int| 0 <= j < i2 ==> {
                        &&& (#[trigger] shares@[j]).expense_id == expense_id
                        &&& shares@[j].user_id == ps[j]
                        &&& shares@[j].amount == percentage_share_at(total_amount as int, ps, m@, j)
                        &&& bounded_amount(shares@[j].amount)
                        &&& !shares@[j].is_settled
                    },
                decreases count - i2,
            {
                proof {
                    assert(forall|k: int| 0 <= k < n ==> #[trigger] alloc_value(m@, ps[k]) >= 0)
                        by {
                        assert forall|k: int| 0 <= k < n implies #[trigger] alloc_value(m@, ps[k])
                            >= 0 by {
                            lemma_alloc_index(m@, ps[k]);
                        }
                    }
                    lemma_alloc_prefix_monotone(ps, m@, i2 + 1 as int, n);
                }
                let v = vals[i2];
                let cum_next = cum + v;
                proof {
                    assert(cum_next == alloc_prefix(ps, m@, i2 + 1 as int));
                    assert((total_amount as int) * (cum_next as int) <= (AMOUNT_LIMIT_CENTS as int)
                        * (PERCENT_SCALE + PERCENT_TOLERANCE)) by (nonlinear_arith)
                        requires
                            0 <= total_amount as int <= AMOUNT_LIMIT_CENTS as int,
                            0 <= cum_next as int <= PERCENT_SCALE + PERCENT_TOLERANCE,
                    ;
                }
                let q_next_w = ((total_amount as u128) * (cum_next as u128))
                    / (total_pct as u128);
                proof {
                    assert((total_amount as int) * (cum_next as int) == (total_amount as int)
                        * (cum as int) + (total_amount as int) * (v as int)) by (nonlinear_arith)
                        requires
                            cum_next as int == cum as int + v as int,
                    ;
                    assert((total_amount as int) * (v as int) >= 0) by (nonlinear_arith)
                        requires
                            0 <= total_amount as int,
                            0 <= v as int,
                    ;
                    assert((total_amount as int) * (cum_next as int) <= (total_amount as int)
                        * s) by (nonlinear_arith)
                        requires
                            0 <= total_amount as int,
                            cum_next as int <= s,
                    ;
                    lemma_div_pos_is_pos((total_amount as int) * (cum_next as int), s);
                    lemma_div_is_ordered(
                        (total_amount as int) * (cum as int),
                        (total_amount as int) * (cum_next as int),
                        s,
                    );
                    lemma_div_is_ordered(
                        (total_amount as int) * (cum_next as int),
                        (total_amount as int) * s,
                        s,
                    );
                    lemma_div_by_multiple(total_amount as int, s);
                }
                let q_next = q_next_w as u64;
                let amount = (q_next - q_prev) as i64;
                let share = ExpenseShare {
                    expense_id,
                    user_id: participants[i2],
                    amount,
                    is_settled: false,
                };
                proof {
                    lemma_sum_share_push(shares@, share);
                }
                shares.push(share);
                cum = cum_next;
                q_prev = q_next;
                i2 += 1;
            }
            proof {
                lemma_div_by_multiple(total_amount as int, s);
            }
            Ok(shares)
        },
        SplitType::ByShares(m) => {
            // first pass: every participant's weight, and their sum
            let mut vals: Vec<u32> = Vec::new();
            let mut total_w: u64 = 0;
            let mut i: usize = 0;
            while i < count
                invariant
                    0 <= i <= count,
                    unique_weight_keys(m@),
                    vals@.len() == i,
                    total_w == weight_prefix(ps, m@, i as int),
                    total_w <= (i as int) * 0xffff_ffff,
                    forall|j: int| 0 <= j < i ==> weight_index(m@, ps[j]) >= 0,
                    forall|j: int| 0 <= j < i ==> (#[trigger] vals@[j]) == weight_value(m@, ps[j]),
                decreases count - i,
            {
                let v = match weight_get(m, participants[i]) {
                    None => {
                        return Err(SplitError::MissingAllocation);
                    },
                    Some(v) => v,
                };
                vals.push(v);
                total_w = total_w + (v as u64);
                i += 1;
            }
            if total_w == 0 {
                return Err(SplitError::ZeroTotalShares);
            }
            // second pass: cumulative quotients against the participants' sum
            let ghost s = weight_prefix(ps, m@, n);
            let mut shares: Vec<ExpenseShare> = Vec::new();
            let mut cum: u64 = 0;
            let mut q_prev: u64 = 0;
            let mut i2: usize = 0;
            while i2 < count
                invariant
                    0 <= i2 <= count,
                    cum == weight_prefix(ps, m@, i2 as int),
                    0 <= cum <= s,
                    q_prev == (total_amount as int) * cum / s,
                    0 <= q_prev <= total_amount,
                    shares@.len() == i2,
                    sum_share_amounts(shares@) == q_prev,
                    forall|j: int| 0 <= j < i2 ==> {
                        &&& (#[trigger] shares@[j]).expense_id == expense_id
                        &&& shares@[j].user_id == ps[j]
                        &&& shares@[j].amount == weighted_share_at(total_amount as int, ps, m@, j)
                        &&& bounded_amount(shares@[j].amount)
                        &&& !shares@[j].is_settled
                    },
                decreases count - i2,
            {
                proof {
                    lemma_weight_prefix_monotone(ps, m@, i2 + 1 as int, n);
                    lemma_weight_index(m@, ps[i2 as int]);
                }
                let v = vals[i2];
                let cum_next = cum + (v as u64);
                proof {
                    assert(cum_next == weight_prefix(ps, m@, i2 + 1 as int));
                    assert((total_amount as int) * (cum_next as int) <= (AMOUNT_LIMIT_CENTS as int)
                        * (1_000_000 * 0xffff_ffffi64)) by (nonlinear_arith)
                        requires
                            0 <= total_amount as int <= AMOUNT_LIMIT_CENTS as int,
                            0 <= cum_next as int <= 1_000_000 * 0xffff_ffffi64,
                    ;
                }
                let q_next_w = ((total_amount as u128) * (cum_next as u128)) / (total_w as u128);
                proof {
                    assert((total_amount as int) * (cum_next as int) == (total_amount as int)
                        * (cum as int) + (total_amount as int) * (v as int)) by (nonlinear_arith)
                        requires
                            cum_next as int == cum as int + v as int,
                    ;
                    assert((total_amount as int) * (v as int) >= 0) by (nonlinear_arith)
                        requires
                            0 <= total_amount as int,
                            0 <= v as int,
                    ;
                    assert((total_amount as int) * (cum_next as int) <= (total_amount as int)
                        * s) by (nonlinear_arith)
                        requires
                            0 <= total_amount as int,
                            cum_next as int <= s,
                    ;
                    lemma_div_pos_is_pos((total_amount as int) * (cum_next as int), s);
                    lemma_div_is_ordered(
                        (total_amount as int) * (cum as int),
                        (total_amount as int) * (cum_next as int),
                        s,
                    );
                    lemma_div_is_ordered(
                        (total_amount as int) * (cum_next as int),
                        (total_amount as int) * s,
                        s,
                    );
                    lemma_div_by_multiple(total_amount as int, s);
                }
                let q_next = q_next_w as u64;
                let amount = (q_next - q_prev) as i64;
                let share = ExpenseShare {
                    expense_id,
                    user_id: participants[i2],
                    amount,
                    is_settled: false,
                };
                proof {
                    lemma_sum_share_push(shares@, share);
                }
                shares.push(share);
                cum = cum_next;
                q_prev = q_next;
                i2 += 1;
            }
            proof {
                lemma_div_by_multiple(total_amount as int, s);
            }
            Ok(shares)
        },
    }
}

} // verus!
