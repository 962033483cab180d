//! The debt resolver: reducing a group's net balances to a list of
//! settling transfers.
//!
//! Users whose balance exceeds the tolerance are creditors, users whose
//! balance falls below its negation are debtors. The resolver repeatedly
//! matches the largest creditor with the largest debtor (ties broken by
//! user identity), settles the smaller of the two positions, and re-enters
//! the remainder into its list, until one side is exhausted. Applying the
//! returned transfers brings every balance to zero whenever the balances
//! cancel out and none hides inside the tolerance.

use vstd::prelude::*;
use vstd::string::*;
use crate::ids::UserId;
use crate::money::{TOLERANCE_CENTS, BALANCE_LIMIT_CENTS};
use crate::expense::{UserBalance, GroupBalance, DebtSummary};
use crate::balance::{unique_users, net_total, user_index, lemma_user_index};

verus! {

// ---------------------------------------------------------------------------
// Positions of single balance entries
// ---------------------------------------------------------------------------

/// What this entry is owed, when it is a creditor's.
pub open spec fn credit_of_entry(e: UserBalance) -> int {
    if e.net_balance > TOLERANCE_CENTS {
        e.net_balance as int
    } else {
        0
    }
}

/// What this entry owes, when it is a debtor's.
pub open spec fn debt_of_entry(e: UserBalance) -> int {
    if e.net_balance < -TOLERANCE_CENTS {
        -(e.net_balance as int)
    } else {
        0
    }
}

/// What the balances owe user `u` beyond the tolerance.
pub open spec fn credit_of(b: Seq<UserBalance>, u: UserId) -> int
    decreases b.len(),
{
    if b.len() == 0 {
        0
    } else {
        credit_of(b.drop_last(), u) + if b.last().user_id == u {
            credit_of_entry(b.last())
        } else {
            0
        }
    }
}

/// What user `u` owes the balances beyond the tolerance.
pub open spec fn debt_of(b: Seq<UserBalance>, u: UserId) -> int
    decreases b.len(),
{
    if b.len() == 0 {
        0
    } else {
        debt_of(b.drop_last(), u) + if b.last().user_id == u {
            debt_of_entry(b.last())
        } else {
            0
        }
    }
}

/// Everything the balances owe their creditors.
pub open spec fn credit_total(b: Seq<UserBalance>) -> int
    decreases b.len(),
{
    if b.len() == 0 {
        0
    } else {
        credit_total(b.drop_last()) + credit_of_entry(b.last())
    }
}

/// Everything the debtors owe the balances.
pub open spec fn debt_total(b: Seq<UserBalance>) -> int
    decreases b.len(),
{
    if b.len() == 0 {
        0
    } else {
        debt_total(b.drop_last()) + debt_of_entry(b.last())
    }
}

/// Number of creditor entries.
pub open spec fn credit_count(b: Seq<UserBalance>) -> int
    decreases b.len(),
{
    if b.len() == 0 {
        0
    } else {
        credit_count(b.drop_last()) + if b.last().net_balance > TOLERANCE_CENTS {
            1int
        } else {
            0
        }
    }
}

/// Number of debtor entries.
pub open spec fn debt_count(b: Seq<UserBalance>) -> int
    decreases b.len(),
{
    if b.len() == 0 {
        0
    } else {
        debt_count(b.drop_last()) + if b.last().net_balance < -TOLERANCE_CENTS {
            1int
        } else {
            0
        }
    }
}

// ---------------------------------------------------------------------------
// Sums over work lists and transfer lists
// ---------------------------------------------------------------------------

/// `u`'s outstanding amount in a work list (amounts are magnitudes).
pub open spec fn user_amount(l: Seq<UserBalance>, u: UserId) -> int
    decreases l.len(),
{
    if l.len() == 0 {
        0
    } else {
        user_amount(l.drop_last(), u) + if l.last().user_id == u {
            l.last().net_balance as int
        } else {
            0
        }
    }
}

/// Everything outstanding in a work list.
pub open spec fn total_amount(l: Seq<UserBalance>) -> int
    decreases l.len(),
{
    if l.len() == 0 {
        0
    } else {
        total_amount(l.drop_last()) + l.last().net_balance
    }
}

/// What the transfers pay user `u` as a creditor.
pub open spec fn assigned_credit(ts: Seq<DebtSummary>, u: UserId) -> int
    decreases ts.len(),
{
    if ts.len() == 0 {
        0
    } else {
        assigned_credit(ts.drop_last(), u) + if ts.last().creditor_id == u {
            ts.last().amount as int
        } else {
            0
        }
    }
}

/// What the transfers collect from user `u` as a debtor.
pub open spec fn assigned_debt(ts: Seq<DebtSummary>, u: UserId) -> int
    decreases ts.len(),
{
    if ts.len() == 0 {
        0
    } else {
        assigned_debt(ts.drop_last(), u) + if ts.last().debtor_id == u {
            ts.last().amount as int
        } else {
            0
        }
    }
}

/// Everything the transfers move.
pub open spec fn assigned_total(ts: Seq<DebtSummary>) -> int
    decreases ts.len(),
{
    if ts.len() == 0 {
        0
    } else {
        assigned_total(ts.drop_last()) + ts.last().amount
    }
}

// ---------------------------------------------------------------------------
// The resolver's contract
// ---------------------------------------------------------------------------

/// `ts` resolves the balances `b`: every transfer is positive and runs from
/// a real debtor to a real creditor, nobody pays or receives beyond their
/// position, the smaller side is paid off completely, the larger side comes
/// within the totals' difference of being paid off, and there are fewer
/// transfers than positions.
pub open spec fn is_resolution(b: Seq<UserBalance>, ts: Seq<DebtSummary>) -> bool {
    &&& forall|k: int| 0 <= k < ts.len() ==> {
        &&& (#[trigger] ts[k]).amount > 0
        &&& credit_of(b, ts[k].creditor_id) > 0
        &&& debt_of(b, ts[k].debtor_id) > 0
        &&& ts[k].creditor_id != ts[k].debtor_id
    }
    &&& forall|u: UserId| #[trigger] assigned_credit(ts, u) <= credit_of(b, u)
    &&& forall|u: UserId| #[trigger] assigned_debt(ts, u) <= debt_of(b, u)
    &&& credit_total(b) <= debt_total(b) ==> {
        &&& forall|u: UserId| #[trigger] assigned_credit(ts, u) == credit_of(b, u)
        &&& forall|u: UserId| debt_of(b, u) - #[trigger] assigned_debt(ts, u) <= debt_total(b)
            - credit_total(b)
    }
    &&& debt_total(b) <= credit_total(b) ==> {
        &&& forall|u: UserId| #[trigger] assigned_debt(ts, u) == debt_of(b, u)
        &&& forall|u: UserId| credit_of(b, u) - #[trigger] assigned_credit(ts, u) <= credit_total(b)
            - debt_total(b)
    }
    &&& ts.len() == 0 || ts.len() < credit_count(b) + debt_count(b)
}


// ---------------------------------------------------------------------------
// The emitted sequence, pinned
// ---------------------------------------------------------------------------

/// Where a fresh entry lands in a sorted work list: after everything that
/// sorts at or before it.
pub open spec fn insert_entry(l: Seq<UserBalance>, e: UserBalance) -> Seq<UserBalance>
    decreases l.len(),
{
    if l.len() == 0 {
        seq![e]
    } else if entry_before(l[0], e) {
        seq![l[0]] + insert_entry(l.subrange(1, l.len() as int), e)
    } else {
        seq![e] + l
    }
}

/// The sorted creditor work list of a balance list, built in input order.
pub open spec fn creditor_list(b: Seq<UserBalance>) -> Seq<UserBalance>
    decreases b.len(),
{
    if b.len() == 0 {
        Seq::empty()
    } else {
        let prev = creditor_list(b.drop_last());
        if b.last().net_balance > TOLERANCE_CENTS {
            insert_entry(prev, b.last())
        } else {
            prev
        }
    }
}

/// The sorted debtor work list of a balance list (amounts as magnitudes),
/// built in input order.
pub open spec fn debtor_list(b: Seq<UserBalance>) -> Seq<UserBalance>
    decreases b.len(),
{
    if b.len() == 0 {
        Seq::empty()
    } else {
        let prev = debtor_list(b.drop_last());
        if b.last().net_balance < -TOLERANCE_CENTS {
            insert_entry(
                prev,
                UserBalance { user_id: b.last().user_id, net_balance: (0 - b.last().net_balance) as i64 },
            )
        } else {
            prev
        }
    }
}

/// Inserting adds exactly one entry.
proof fn lemma_insert_entry_len(l: Seq<UserBalance>, e: UserBalance)
    ensures
        insert_entry(l, e).len() == l.len() + 1,
    decreases l.len(),
{
    if l.len() > 0 && entry_before(l[0], e) {
        lemma_insert_entry_len(l.subrange(1, l.len() as int), e);
    }
}

/// The transfers the greedy matching emits, largest creditor against
/// largest debtor, as (creditor, debtor, amount) triples.
pub open spec fn greedy_transfers(cs: Seq<UserBalance>, ds: Seq<UserBalance>) -> Seq<
    (UserId, UserId, i64),
>
    decreases cs.len() + ds.len(),
    via greedy_transfers_decreases
{
    if cs.len() == 0 || ds.len() == 0 {
        Seq::empty()
    } else {
        let c = cs[0];
        let d = ds[0];
        let settle = if c.net_balance < d.net_balance {
            c.net_balance
        } else {
            d.net_balance
        };
        let cs2 = if c.net_balance > settle {
            insert_entry(
                cs.subrange(1, cs.len() as int),
                UserBalance { user_id: c.user_id, net_balance: (c.net_balance - settle) as i64 },
            )
        } else {
            cs.subrange(1, cs.len() as int)
        };
        let ds2 = if d.net_balance > settle {
            insert_entry(
                ds.subrange(1, ds.len() as int),
                UserBalance { user_id: d.user_id, net_balance: (d.net_balance - settle) as i64 },
            )
        } else {
            ds.subrange(1, ds.len() as int)
        };
        seq![(c.user_id, d.user_id, settle)] + greedy_transfers(cs2, ds2)
    }
}

#[via_fn]
proof fn greedy_transfers_decreases(cs: Seq<UserBalance>, ds: Seq<UserBalance>) {
    if cs.len() > 0 && ds.len() > 0 {
        let c = cs[0];
        let d = ds[0];
        let settle = if c.net_balance < d.net_balance {
            c.net_balance
        } else {
            d.net_balance
        };
        if c.net_balance > settle {
            lemma_insert_entry_len(
                cs.subrange(1, cs.len() as int),
                UserBalance { user_id: c.user_id, net_balance: (c.net_balance - settle) as i64 },
            );
        }
        if d.net_balance > settle {
            lemma_insert_entry_len(
                ds.subrange(1, ds.len() as int),
                UserBalance { user_id: d.user_id, net_balance: (d.net_balance - settle) as i64 },
            );
        }
    }
}

/// The transfer list `ts` realises the triples `g`, every entry in the
/// stated currency.
pub open spec fn transfers_match(ts: Seq<DebtSummary>, g: Seq<(UserId, UserId, i64)>) -> bool {
    &&& ts.len() == g.len()
    &&& forall|k: int| 0 <= k < g.len() ==> {
        &&& (#[trigger] ts[k]).creditor_id == g[k].0
        &&& ts[k].debtor_id == g[k].1
        &&& ts[k].amount == g[k].2
        &&& ts[k].currency@ == "USD"@
    }
}

/// The (creditor, debtor, amount) triples of a transfer list.
pub open spec fn triples_of(ts: Seq<DebtSummary>) -> Seq<(UserId, UserId, i64)>
    decreases ts.len(),
{
    if ts.len() == 0 {
        Seq::empty()
    } else {
        triples_of(ts.drop_last()).push(
            (ts.last().creditor_id, ts.last().debtor_id, ts.last().amount),
        )
    }
}

/// Appending a transfer appends its triple.
pub proof fn lemma_triples_push(ts: Seq<DebtSummary>, t: DebtSummary)
    ensures
        triples_of(ts.push(t)) == triples_of(ts).push((t.creditor_id, t.debtor_id, t.amount)),
{
    assert(ts.push(t).drop_last() =~= ts);
}

/// The triples read off the transfers entry by entry.
pub proof fn lemma_triples_index(ts: Seq<DebtSummary>)
    ensures
        triples_of(ts).len() == ts.len(),
        forall|k: int| 0 <= k < ts.len() ==> #[trigger] triples_of(ts)[k] == (
            ts[k].creditor_id,
            ts[k].debtor_id,
            ts[k].amount,
        ),
    decreases ts.len(),
{
    if ts.len() > 0 {
        lemma_triples_index(ts.drop_last());
        assert(forall|k: int| 0 <= k < ts.len() - 1 ==> ts.drop_last()[k] == ts[k]);
    }
}

/// Inserting at the position the scan finds is the spec insertion.
proof fn lemma_insert_entry_at(l: Seq<UserBalance>, e: UserBalance, pos: int)
    requires
        0 <= pos <= l.len(),
        forall|i: int| 0 <= i < pos ==> entry_before(#[trigger] l[i], e),
        pos < l.len() ==> !entry_before(l[pos], e),
    ensures
        insert_entry(l, e) == l.insert(pos, e),
    decreases l.len(),
{
    if l.len() == 0 {
        assert(insert_entry(l, e) =~= l.insert(0, e));
    } else if pos == 0 {
        assert(insert_entry(l, e) =~= l.insert(0, e));
    } else {
        let tail = l.subrange(1, l.len() as int);
        assert(forall|i: int| 0 <= i < pos - 1 ==> #[trigger] tail[i] == l[i + 1]);
        lemma_insert_entry_at(tail, e, pos - 1);
        assert(seq![l[0]] + tail.insert(pos - 1, e) =~= l.insert(pos, e));
    }
}

// ---------------------------------------------------------------------------
// Sum algebra
// ---------------------------------------------------------------------------

/// Removing a work-list entry takes exactly its amount out of the sums.
proof fn lemma_amounts_remove(l: Seq<UserBalance>, i: int, u: UserId)
    requires
        0 <= i < l.len(),
    ensures
        user_amount(l.remove(i), u) == user_amount(l, u) - if l[i].user_id == u {
            l[i].net_balance as int
        } else {
            0
        },
        total_amount(l.remove(i)) == total_amount(l) - l[i].net_balance,
    decreases l.len(),
{
    if i == l.len() - 1 {
        assert(l.remove(i) =~= l.drop_last());
    } else {
        assert(l.remove(i).drop_last() =~= l.drop_last().remove(i));
        assert(l.remove(i).last() == l.last());
        lemma_amounts_remove(l.drop_last(), i, u);
        assert(l.drop_last()[i] == l[i]);
    }
}

/// Inserting a work-list entry adds exactly its amount to the sums.
proof fn lemma_amounts_insert(l: Seq<UserBalance>, i: int, e: UserBalance, u: UserId)
    requires
        0 <= i <= l.len(),
    ensures
        user_amount(l.insert(i, e), u) == user_amount(l, u) + if e.user_id == u {
            e.net_balance as int
        } else {
            0
        },
        total_amount(l.insert(i, e)) == total_amount(l) + e.net_balance,
    decreases l.len(),
{
    if i == l.len() {
        assert(l.insert(i, e).drop_last() =~= l);
        assert(l.insert(i, e).last() == e);
    } else {
        assert(l.insert(i, e).drop_last() =~= l.drop_last().insert(i, e));
        assert(l.insert(i, e).last() == l.last());
        lemma_amounts_insert(l.drop_last(), i, e, u);
    }
}

/// Appending a transfer adds exactly its amount to the assigned sums.
proof fn lemma_assigned_push(ts: Seq<DebtSummary>, t: DebtSummary, u: UserId)
    ensures
        assigned_credit(ts.push(t), u) == assigned_credit(ts, u) + if t.creditor_id == u {
            t.amount as int
        } else {
            0
        },
        assigned_debt(ts.push(t), u) == assigned_debt(ts, u) + if t.debtor_id == u {
            t.amount as int
        } else {
            0
        },
        assigned_total(ts.push(t)) == assigned_total(ts) + t.amount,
{
    assert(ts.push(t).drop_last() =~= ts);
}

/// With non-negative entries, one user's outstanding amount is bounded by
/// the whole list's, and neither is negative.
proof fn lemma_amount_bounds(l: Seq<UserBalance>, u: UserId)
    requires
        forall|j: int| 0 <= j < l.len() ==> (#[trigger] l[j]).net_balance >= 0,
    ensures
        0 <= user_amount(l, u) <= total_amount(l),
    decreases l.len(),
{
    if l.len() > 0 {
        assert(forall|j: int| 0 <= j < l.len() - 1 ==> l.drop_last()[j] == l[j]);
        lemma_amount_bounds(l.drop_last(), u);
    }
}

/// A non-empty list of positive entries holds a positive total.
proof fn lemma_total_pos(l: Seq<UserBalance>)
    requires
        l.len() > 0,
        forall|j: int| 0 <= j < l.len() ==> (#[trigger] l[j]).net_balance > 0,
    ensures
        total_amount(l) > 0,
{
    assert(forall|j: int| 0 <= j < l.len() - 1 ==> l.drop_last()[j] == l[j]);
    lemma_amount_bounds(l.drop_last(), l.last().user_id);
}

/// A user the balances never mention has no credit and no debt.
proof fn lemma_position_absent(b: Seq<UserBalance>, u: UserId)
    requires
        forall|j: int| 0 <= j < b.len() ==> (#[trigger] b[j]).user_id != u,
    ensures
        credit_of(b, u) == 0,
        debt_of(b, u) == 0,
    decreases b.len(),
{
    if b.len() > 0 {
        assert(forall|j: int| 0 <= j < b.len() - 1 ==> b.drop_last()[j] == b[j]);
        lemma_position_absent(b.drop_last(), u);
    }
}

/// With unique users, a user's credit and debt are their entry's.
proof fn lemma_position_of_entry(b: Seq<UserBalance>, j: int)
    requires
        unique_users(b),
        0 <= j < b.len(),
    ensures
        credit_of(b, b[j].user_id) == credit_of_entry(b[j]),
        debt_of(b, b[j].user_id) == debt_of_entry(b[j]),
    decreases b.len(),
{
    if j == b.len() - 1 {
        assert(forall|i: int| 0 <= i < b.len() - 1 ==> (#[trigger] b.drop_last()[i]).user_id
            != b[j].user_id);
        lemma_position_absent(b.drop_last(), b[j].user_id);
    } else {
        assert(forall|i: int| 0 <= i < b.len() - 1 ==> b.drop_last()[i] == b[i]);
        lemma_position_of_entry(b.drop_last(), j);
    }
}

/// When no balance hides inside the tolerance, the net total splits into
/// credits minus debts.
pub proof fn lemma_net_split(b: Seq<UserBalance>)
    requires
        forall|j: int| 0 <= j < b.len() ==> (#[trigger] b[j]).net_balance == 0
            || b[j].net_balance > TOLERANCE_CENTS || b[j].net_balance < -TOLERANCE_CENTS,
    ensures
        net_total(b) == credit_total(b) - debt_total(b),
    decreases b.len(),
{
    if b.len() > 0 {
        assert(forall|j: int| 0 <= j < b.len() - 1 ==> b.drop_last()[j] == b[j]);
        lemma_net_split(b.drop_last());
    }
}

/// Positive transfers assign non-negative sums to everyone.
proof fn lemma_assigned_nonneg(ts: Seq<DebtSummary>, u: UserId)
    requires
        forall|k: int| 0 <= k < ts.len() ==> (#[trigger] ts[k]).amount > 0,
    ensures
        assigned_credit(ts, u) >= 0,
        assigned_debt(ts, u) >= 0,
    decreases ts.len(),
{
    if ts.len() > 0 {
        assert(forall|k: int| 0 <= k < ts.len() - 1 ==> ts.drop_last()[k] == ts[k]);
        lemma_assigned_nonneg(ts.drop_last(), u);
    }
}

// ---------------------------------------------------------------------------
// The settlement laws
// ---------------------------------------------------------------------------

/// Applying a resolution's transfers leaves every balance within the
/// tolerance, provided the balances cancel within the tolerance and none
/// hides inside it. Users without an entry are not touched at all.
pub proof fn lemma_resolution_settles(b: Seq<UserBalance>, ts: Seq<DebtSummary>)
    requires
        unique_users(b),
        is_resolution(b, ts),
        -TOLERANCE_CENTS <= net_total(b) <= TOLERANCE_CENTS,
        forall|j: int| 0 <= j < b.len() ==> (#[trigger] b[j]).net_balance == 0
            || b[j].net_balance > TOLERANCE_CENTS || b[j].net_balance < -TOLERANCE_CENTS,
    ensures
        forall|j: int| 0 <= j < b.len() ==> {
            let residue = b[j].net_balance - assigned_credit(ts, (#[trigger] b[j]).user_id)
                + assigned_debt(ts, b[j].user_id);
            -TOLERANCE_CENTS <= residue <= TOLERANCE_CENTS
        },
        forall|u: UserId| user_index(b, u) < 0 ==> #[trigger] assigned_credit(ts, u) == 0
            && assigned_debt(ts, u) == 0,
{
    lemma_net_split(b);
    assert forall|j: int| 0 <= j < b.len() implies {
        let residue = b[j].net_balance - assigned_credit(ts, (#[trigger] b[j]).user_id)
            + assigned_debt(ts, b[j].user_id);
        -TOLERANCE_CENTS <= residue <= TOLERANCE_CENTS
    } by {
        let u = b[j].user_id;
        lemma_position_of_entry(b, j);
        lemma_assigned_nonneg(ts, u);
        if credit_total(b) <= debt_total(b) {
            assert(assigned_credit(ts, u) == credit_of(b, u));
        } else {
            assert(assigned_debt(ts, u) == debt_of(b, u));
        }
    }
    assert forall|u: UserId| user_index(b, u) < 0 implies #[trigger] assigned_credit(ts, u) == 0
        && assigned_debt(ts, u) == 0 by {
        lemma_user_index(b, u);
        lemma_position_absent(b, u);
        lemma_assigned_nonneg(ts, u);
    }
}

/// Applying a resolution's transfers zeroes every balance exactly, when the
/// balances cancel exactly and none hides inside the tolerance.
pub proof fn lemma_resolution_settles_exact(b: Seq<UserBalance>, ts: Seq<DebtSummary>)
    requires
        unique_users(b),
        is_resolution(b, ts),
        net_total(b) == 0,
        forall|j: int| 0 <= j < b.len() ==> (#[trigger] b[j]).net_balance == 0
            || b[j].net_balance > TOLERANCE_CENTS || b[j].net_balance < -TOLERANCE_CENTS,
    ensures
        forall|j: int| 0 <= j < b.len() ==> b[j].net_balance - assigned_credit(
            ts,
            (#[trigger] b[j]).user_id,
        ) + assigned_debt(ts, b[j].user_id) == 0,
        forall|u: UserId| user_index(b, u) < 0 ==> #[trigger] assigned_credit(ts, u) == 0
            && assigned_debt(ts, u) == 0,
{
    lemma_net_split(b);
    assert forall|j: int| 0 <= j < b.len() implies b[j].net_balance - assigned_credit(
        ts,
        (#[trigger] b[j]).user_id,
    ) + assigned_debt(ts, b[j].user_id) == 0 by {
        let u = b[j].user_id;
        lemma_position_of_entry(b, j);
        assert(assigned_credit(ts, u) == credit_of(b, u));
        assert(assigned_debt(ts, u) == debt_of(b, u));
    }
    assert forall|u: UserId| user_index(b, u) < 0 implies #[trigger] assigned_credit(ts, u) == 0
        && assigned_debt(ts, u) == 0 by {
        lemma_user_index(b, u);
        lemma_position_absent(b, u);
        lemma_assigned_nonneg(ts, u);
    }
}

// ---------------------------------------------------------------------------
// Executable resolver
// ---------------------------------------------------------------------------

/// `a` sorts at or before `b`: larger amounts first, ties by user identity.
pub open spec fn entry_before(a: UserBalance, b: UserBalance) -> bool {
    a.net_balance > b.net_balance || (a.net_balance == b.net_balance && a.user_id.0 <= b.user_id.0)
}

/// Sorted for the resolver: descending amounts, ties by user identity.
pub open spec fn sorted_desc(l: Seq<UserBalance>) -> bool {
    forall|i: int, j: int| 0 <= i < j < l.len() ==> entry_before(#[trigger] l[i], #[trigger] l[j])
}

/// Insert an entry into a sorted work list, keeping it sorted.
#[verifier::loop_isolation(false)]
fn insert_sorted(l: &mut Vec<UserBalance>, e: UserBalance)
    requires
        sorted_desc(old(l)@),
    ensures
        final(l)@ == insert_entry(old(l)@, e),
        sorted_desc(final(l)@),
        final(l)@.len() == old(l)@.len() + 1,
        forall|u: UserId| #[trigger] user_amount(final(l)@, u) == user_amount(old(l)@, u)
            + if e.user_id == u { e.net_balance as int } else { 0 },
        total_amount(final(l)@) == total_amount(old(l)@) + e.net_balance,
        forall|j: int| 0 <= j < final(l)@.len() ==> (#[trigger] final(l)@[j]) == e
            || old(l)@.contains(final(l)@[j]),
{
    let ghost l0 = l@;
    let n = l.len();
    let mut pos: usize = 0;
    while pos < n
        invariant
            0 <= pos <= n,
            forall|i: int| 0 <= i < pos ==> entry_before(#[trigger] l0[i], e),
        decreases n - pos,
    {
        let x = &l[pos];
        if x.net_balance > e.net_balance
            || (x.net_balance == e.net_balance && x.user_id.0 <= e.user_id.0) {
            pos += 1;
        } else {
            break ;
        }
    }
    proof {
        if pos < n {
            assert(!entry_before(l0[pos as int], e));
            assert(entry_before(e, l0[pos as int]));
        }
    }
    l.insert(pos, e);
    proof {
        lemma_insert_entry_at(l0, e, pos as int);
        assert forall|u: UserId| #[trigger] user_amount(l@, u) == user_amount(l0, u)
            + if e.user_id == u { e.net_balance as int } else { 0 } by {
            lemma_amounts_insert(l0, pos as int, e, u);
        }
        lemma_amounts_insert(l0, pos as int, e, e.user_id);
        assert forall|i: int, j: int| 0 <= i < j < l@.len() implies entry_before(
            #[trigger] l@[i],
            #[trigger] l@[j],
        ) by {
            if j < pos {
            } else if i < pos && j == pos {
            } else if i < pos && j > pos {
                assert(l@[j] == l0[j - 1]);
            } else if i == pos {
                assert(l@[j] == l0[j - 1]);
                assert(entry_before(e, l0[j - 1]));
            } else {
                assert(l@[i] == l0[i - 1] && l@[j] == l0[j - 1]);
            }
        }
        assert forall|j: int| 0 <= j < l@.len() implies (#[trigger] l@[j]) == e || l0.contains(
            l@[j],
        ) by {
            if j < pos {
                assert(l@[j] == l0[j]);
            } else if j > pos {
                assert(l@[j] == l0[j - 1]);
            }
        }
    }
}

/// Reduce a group's balances to settling transfers: largest creditor
/// against largest debtor, until one side is exhausted.
#[verifier::loop_isolation(false)]
pub fn resolve(balances: &GroupBalance) -> (r: Vec<DebtSummary>)
    requires
        unique_users(balances.balances@),
        forall|j: int| 0 <= j < balances.balances@.len() ==> -BALANCE_LIMIT_CENTS
            <= (#[trigger] balances.balances@[j]).net_balance <= BALANCE_LIMIT_CENTS,
    ensures
        is_resolution(balances.balances@, r@),
        transfers_match(
            r@,
            greedy_transfers(
                creditor_list(balances.balances@),
                debtor_list(balances.balances@),
            ),
        ),
{
    let ghost b = balances.balances@;
    let mut creditors: Vec<UserBalance> = Vec::new();
    let mut debtors: Vec<UserBalance> = Vec::new();

    let n = balances.balances.len();
    let mut k: usize = 0;
    while k < n
        invariant
            0 <= k <= n,
            creditors@ == creditor_list(b.take(k as int)),
            debtors@ == debtor_list(b.take(k as int)),
            sorted_desc(creditors@),
            sorted_desc(debtors@),
            forall|u: UserId| #[trigger] user_amount(creditors@, u) == credit_of(
                b.take(k as int),
                u,
            ),
            forall|u: UserId| #[trigger] user_amount(debtors@, u) == debt_of(b.take(k as int), u),
            total_amount(creditors@) == credit_total(b.take(k as int)),
            total_amount(debtors@) == debt_total(b.take(k as int)),
            creditors@.len() == credit_count(b.take(k as int)),
            debtors@.len() == debt_count(b.take(k as int)),
            forall|j: int| 0 <= j < creditors@.len() ==> TOLERANCE_CENTS
                < (#[trigger] creditors@[j]).net_balance <= BALANCE_LIMIT_CENTS,
            forall|j: int| 0 <= j < debtors@.len() ==> TOLERANCE_CENTS
                < (#[trigger] debtors@[j]).net_balance <= BALANCE_LIMIT_CENTS,
            forall|j: int| 0 <= j < creditors@.len() ==> credit_of(
                b,
                (#[trigger] creditors@[j]).user_id,
            ) > 0,
            forall|j: int| 0 <= j < debtors@.len() ==> debt_of(
                b,
                (#[trigger] debtors@[j]).user_id,
            ) > 0,
        decreases n - k,
    {
        let e = &balances.balances[k];
        let ghost cs0 = creditors@;
        let ghost ds0 = debtors@;
        if e.net_balance > TOLERANCE_CENTS {
            insert_sorted(&mut creditors, UserBalance { user_id: e.user_id, net_balance: e.net_balance });
            proof {
                lemma_position_of_entry(b, k as int);
                assert(UserBalance { user_id: e.user_id, net_balance: e.net_balance } == b[k as int]);
            }
        } else if e.net_balance < 0 - TOLERANCE_CENTS {
            insert_sorted(&mut debtors, UserBalance { user_id: e.user_id, net_balance: 0 - e.net_balance });
            proof {
                lemma_position_of_entry(b, k as int);
            }
        }
        proof {
            assert(b.take(k + 1 as int).drop_last() =~= b.take(k as int));
            assert(b.take(k + 1 as int).last() == b[k as int]);
            assert forall|u: UserId| #[trigger] user_amount(creditors@, u) == credit_of(
                b.take(k + 1 as int),
                u,
            ) by {
                assert(user_amount(cs0, u) == credit_of(b.take(k as int), u));
            }
            assert forall|u: UserId| #[trigger] user_amount(debtors@, u) == debt_of(
                b.take(k + 1 as int),
                u,
            ) by {
                assert(user_amount(ds0, u) == debt_of(b.take(k as int), u));
            }
        }
        k += 1;
    }
    proof {
        assert(b.take(n as int) =~= b);
    }

    let ghost c0len = creditors@.len() as int;
    let ghost d0len = debtors@.len() as int;
    let ghost target = greedy_transfers(creditors@, debtors@);
    let mut out: Vec<DebtSummary> = Vec::new();
    while creditors.len() > 0 && debtors.len() > 0
        invariant
            target == triples_of(out@) + greedy_transfers(creditors@, debtors@),
            forall|k2: int| 0 <= k2 < out@.len() ==> (#[trigger] out@[k2]).currency@ == "USD"@,
            sorted_desc(creditors@),
            sorted_desc(debtors@),
            forall|u: UserId| #[trigger] assigned_credit(out@, u) + user_amount(creditors@, u)
                == credit_of(b, u),
            forall|u: UserId| #[trigger] assigned_debt(out@, u) + user_amount(debtors@, u)
                == debt_of(b, u),
            assigned_total(out@) + total_amount(creditors@) == credit_total(b),
            assigned_total(out@) + total_amount(debtors@) == debt_total(b),
            forall|j: int| 0 <= j < creditors@.len() ==> 0 < (#[trigger] creditors@[j]).net_balance
                <= BALANCE_LIMIT_CENTS,
            forall|j: int| 0 <= j < debtors@.len() ==> 0 < (#[trigger] debtors@[j]).net_balance
                <= BALANCE_LIMIT_CENTS,
            forall|j: int| 0 <= j < creditors@.len() ==> credit_of(
                b,
                (#[trigger] creditors@[j]).user_id,
            ) > 0,
            forall|j: int| 0 <= j < debtors@.len() ==> debt_of(
                b,
                (#[trigger] debtors@[j]).user_id,
            ) > 0,
            forall|k2: int| 0 <= k2 < out@.len() ==> {
                &&& (#[trigger] out@[k2]).amount > 0
                &&& credit_of(b, out@[k2].creditor_id) > 0
                &&& debt_of(b, out@[k2].debtor_id) > 0
                &&& out@[k2].creditor_id != out@[k2].debtor_id
            },
            out@.len() + creditors@.len() + debtors@.len() <= c0len + d0len,
            creditors@.len() == 0 && debtors@.len() == 0 && c0len + d0len > 0 ==> out@.len()
                < c0len + d0len,
        decreases creditors@.len() + debtors@.len(),
    {
        let ghost cs0 = creditors@;
        let ghost ds0 = debtors@;
        let ghost out0 = out@;
        let c = creditors.remove(0);
        let d = debtors.remove(0);
        let settle = if c.net_balance < d.net_balance {
            c.net_balance
        } else {
            d.net_balance
        };
        let t = DebtSummary {
            creditor_id: c.user_id,
            debtor_id: d.user_id,
            amount: settle,
            currency: String::from_str("USD"),
        };
        proof {
            // the creditor and the debtor are distinct: one is owed, the
            // other owes, and no user does both
            if c.user_id == d.user_id {
                lemma_user_index(b, c.user_id);
                let iu = user_index(b, c.user_id);
                if iu >= 0 {
                    lemma_position_of_entry(b, iu);
                } else {
                    lemma_position_absent(b, c.user_id);
                }
            }
        }
        out.push(t);
        let cr = c.net_balance - settle;
        let dr = d.net_balance - settle;
        if cr > 0 {
            insert_sorted(&mut creditors, UserBalance { user_id: c.user_id, net_balance: cr });
        }
        if dr > 0 {
            insert_sorted(&mut debtors, UserBalance { user_id: d.user_id, net_balance: dr });
        }
        proof {
            assert forall|u: UserId| #[trigger] assigned_credit(out@, u) + user_amount(
                creditors@,
                u,
            ) == credit_of(b, u) by {
                lemma_assigned_push(out0, t, u);
                lemma_amounts_remove(cs0, 0, u);
            }
            assert forall|u: UserId| #[trigger] assigned_debt(out@, u) + user_amount(
                debtors@,
                u,
            ) == debt_of(b, u) by {
                lemma_assigned_push(out0, t, u);
                lemma_amounts_remove(ds0, 0, u);
            }
            lemma_assigned_push(out0, t, c.user_id);
            lemma_amounts_remove(cs0, 0, c.user_id);
            lemma_amounts_remove(ds0, 0, d.user_id);
            // the step peels exactly the head triple of the spec greedy
            assert(cs0.remove(0) =~= cs0.subrange(1, cs0.len() as int));
            assert(ds0.remove(0) =~= ds0.subrange(1, ds0.len() as int));
            lemma_triples_push(out0, t);
            assert(greedy_transfers(cs0, ds0) == seq![(c.user_id, d.user_id, settle)]
                + greedy_transfers(creditors@, debtors@));
            assert(target =~= triples_of(out@) + greedy_transfers(creditors@, debtors@));
        }
    }
    proof {
        lemma_triples_index(out@);
        assert(target =~= triples_of(out@));
        if creditors@.len() == 0 {
            // all credit assigned; what debt remains equals the difference
            assert(total_amount(creditors@) == 0);
            assert forall|u: UserId| #[trigger] assigned_credit(out@, u) == credit_of(b, u) by {
                lemma_amount_bounds(creditors@, u);
            }
            assert forall|u: UserId| debt_of(b, u) - #[trigger] assigned_debt(out@, u)
                <= debt_total(b) - credit_total(b) by {
                lemma_amount_bounds(debtors@, u);
            }
            assert(credit_total(b) <= debt_total(b)) by {
                lemma_amount_bounds(debtors@, UserId(0));
            }
        } else {
            // the other side ran dry first, strictly short of the credits
            lemma_total_pos(creditors@);
            assert(debt_total(b) < credit_total(b));
        }
        if debtors@.len() == 0 {
            assert(total_amount(debtors@) == 0);
            assert forall|u: UserId| #[trigger] assigned_debt(out@, u) == debt_of(b, u) by {
                lemma_amount_bounds(debtors@, u);
            }
            assert forall|u: UserId| credit_of(b, u) - #[trigger] assigned_credit(out@, u)
                <= credit_total(b) - debt_total(b) by {
                lemma_amount_bounds(creditors@, u);
            }
            assert(debt_total(b) <= credit_total(b)) by {
                lemma_amount_bounds(creditors@, UserId(0));
            }
        } else {
            lemma_total_pos(debtors@);
            assert(credit_total(b) < debt_total(b));
        }
        assert forall|u: UserId| #[trigger] assigned_credit(out@, u) <= credit_of(b, u) by {
            lemma_amount_bounds(creditors@, u);
        }
        assert forall|u: UserId| #[trigger] assigned_debt(out@, u) <= debt_of(b, u) by {
            lemma_amount_bounds(debtors@, u);
        }
        if out@.len() > 0 {
            assert(out@.len() < c0len + d0len);
        }
    }
    out
}

} // verus!
