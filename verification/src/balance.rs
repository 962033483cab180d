//! The balance ledger: aggregating a group's expenses, shares and payments
//! into one net balance per user.
//!
//! The computation is a pure projection of its inputs: each group expense
//! credits its payer, each share of a group expense debits its holder, and
//! each group payment credits its `from_user` (who paid money out) and
//! debits its `to_user` (who received it). Users are
//! listed in the order they are first touched, so the result is a function
//! of the inputs alone.

use vstd::prelude::*;
use crate::ids::{UserId, GroupId, ExpenseId};
use crate::money::{EVENT_LIMIT_CENTS, MAX_EVENTS, BALANCE_LIMIT_CENTS, bounded_amount};
use crate::expense::{Expense, ExpenseShare, Payment, UserBalance, GroupBalance};

verus! {

// ---------------------------------------------------------------------------
// Per-user contributions of single events
// ---------------------------------------------------------------------------

/// What one expense adds to `u`'s balance: the payer is credited.
pub open spec fn expense_delta(e: Expense, gid: GroupId, u: UserId) -> int {
    if e.group_id == gid && e.paid_by == u {
        e.amount as int
    } else {
        0
    }
}

/// A share counts when its expense is one of the group's expenses.
pub open spec fn counted(s: ExpenseShare, es: Seq<Expense>, gid: GroupId) -> bool {
    exists|i: int| 0 <= i < es.len()
        && (#[trigger] es[i]).id == s.expense_id && es[i].group_id == gid
}

/// What one share subtracts from `u`'s balance: the holder is debited.
pub open spec fn share_delta(s: ExpenseShare, es: Seq<Expense>, gid: GroupId, u: UserId) -> int {
    if counted(s, es, gid) && s.user_id == u {
        s.amount as int
    } else {
        0
    }
}

/// What one payment adds to `u` as its `from_user`: the payer has put
/// money in, so the group owes them more.
pub open spec fn pay_from_delta(p: Payment, gid: GroupId, u: UserId) -> int {
    if p.group_id == gid && p.from_user == u {
        p.amount as int
    } else {
        0
    }
}

/// What one payment subtracts from `u` as its `to_user`: the payee has
/// been made whole by that much.
pub open spec fn pay_to_delta(p: Payment, gid: GroupId, u: UserId) -> int {
    if p.group_id == gid && p.to_user == u {
        p.amount as int
    } else {
        0
    }
}

// ---------------------------------------------------------------------------
// Sums over the event sequences
// ---------------------------------------------------------------------------

/// Total credited to `u` by the group's expenses.
pub open spec fn paid_sum(es: Seq<Expense>, gid: GroupId, u: UserId) -> int
    decreases es.len(),
{
    if es.len() == 0 {
        0
    } else {
        paid_sum(es.drop_last(), gid, u) + expense_delta(es.last(), gid, u)
    }
}

/// Total debited from `u` by shares of the group's expenses.
pub open spec fn owed_sum(ss: Seq<ExpenseShare>, es: Seq<Expense>, gid: GroupId, u: UserId) -> int
    decreases ss.len(),
{
    if ss.len() == 0 {
        0
    } else {
        owed_sum(ss.drop_last(), es, gid, u) + share_delta(ss.last(), es, gid, u)
    }
}

/// Net effect of the group's payments on `u`'s balance.
pub open spec fn paynet_sum(ps: Seq<Payment>, gid: GroupId, u: UserId) -> int
    decreases ps.len(),
{
    if ps.len() == 0 {
        0
    } else {
        paynet_sum(ps.drop_last(), gid, u) + pay_from_delta(ps.last(), gid, u)
            - pay_to_delta(ps.last(), gid, u)
    }
}

/// `u`'s net balance in the group: credits minus debits plus payments.
pub open spec fn balance_of(
    u: UserId,
    es: Seq<Expense>,
    ss: Seq<ExpenseShare>,
    ps: Seq<Payment>,
    gid: GroupId,
) -> int {
    paid_sum(es, gid, u) - owed_sum(ss, es, gid, u) + paynet_sum(ps, gid, u)
}

/// Sum of all amounts of the group's expenses.
pub open spec fn group_expense_total(es: Seq<Expense>, gid: GroupId) -> int
    decreases es.len(),
{
    if es.len() == 0 {
        0
    } else {
        group_expense_total(es.drop_last(), gid) + if es.last().group_id == gid {
            es.last().amount as int
        } else {
            0
        }
    }
}

/// Sum of all amounts of shares counted against the group's expenses.
pub open spec fn counted_share_total(ss: Seq<ExpenseShare>, es: Seq<Expense>, gid: GroupId) -> int
    decreases ss.len(),
{
    if ss.len() == 0 {
        0
    } else {
        counted_share_total(ss.drop_last(), es, gid) + if counted(ss.last(), es, gid) {
            ss.last().amount as int
        } else {
            0
        }
    }
}

/// Sum of the net balances of a balance list.
pub open spec fn net_total(b: Seq<UserBalance>) -> int
    decreases b.len(),
{
    if b.len() == 0 {
        0
    } else {
        net_total(b.drop_last()) + b.last().net_balance
    }
}

// ---------------------------------------------------------------------------
// The users a computation touches, in first-touch order
// ---------------------------------------------------------------------------

/// Append `u` unless it is already listed.
pub open spec fn add_user(s: Seq<UserId>, u: UserId) -> Seq<UserId> {
    if s.contains(u) {
        s
    } else {
        s.push(u)
    }
}

/// Users touched by the group's expenses, in order.
pub open spec fn users_after_expenses(es: Seq<Expense>, gid: GroupId) -> Seq<UserId>
    decreases es.len(),
{
    if es.len() == 0 {
        Seq::empty()
    } else {
        let prev = users_after_expenses(es.drop_last(), gid);
        if es.last().group_id == gid {
            add_user(prev, es.last().paid_by)
        } else {
            prev
        }
    }
}

/// Users touched after also reading the shares, in order.
pub open spec fn users_after_shares(
    init: Seq<UserId>,
    ss: Seq<ExpenseShare>,
    es: Seq<Expense>,
    gid: GroupId,
) -> Seq<UserId>
    decreases ss.len(),
{
    if ss.len() == 0 {
        init
    } else {
        let prev = users_after_shares(init, ss.drop_last(), es, gid);
        if counted(ss.last(), es, gid) {
            add_user(prev, ss.last().user_id)
        } else {
            prev
        }
    }
}

/// Users touched after also reading the payments, in order.
pub open spec fn users_after_payments(init: Seq<UserId>, ps: Seq<Payment>, gid: GroupId) -> Seq<
    UserId,
>
    decreases ps.len(),
{
    if ps.len() == 0 {
        init
    } else {
        let prev = users_after_payments(init, ps.drop_last(), gid);
        if ps.last().group_id == gid {
            add_user(add_user(prev, ps.last().from_user), ps.last().to_user)
        } else {
            prev
        }
    }
}

/// Every user the computation touches, in first-touch order.
pub open spec fn touched_users(
    es: Seq<Expense>,
    ss: Seq<ExpenseShare>,
    ps: Seq<Payment>,
    gid: GroupId,
) -> Seq<UserId> {
    users_after_payments(users_after_shares(users_after_expenses(es, gid), ss, es, gid), ps, gid)
}

// ---------------------------------------------------------------------------
// Shape of the result
// ---------------------------------------------------------------------------

/// The users of a balance list, in order.
pub open spec fn users_of(b: Seq<UserBalance>) -> Seq<UserId> {
    Seq::new(b.len(), |i: int| b[i].user_id)
}

/// No user has two entries.
pub open spec fn unique_users(b: Seq<UserBalance>) -> bool {
    forall|i: int, j: int| 0 <= i < j < b.len() ==> b[i].user_id != b[j].user_id
}

/// Index of `u`'s entry in a balance list, or `-1` when absent.
pub open spec fn user_index(b: Seq<UserBalance>, u: UserId) -> int
    decreases b.len(),
{
    if b.len() == 0 {
        -1
    } else if b.last().user_id == u {
        b.len() - 1
    } else {
        user_index(b.drop_last(), u)
    }
}

/// `b` is exactly the group's balances: one entry per touched user, in
/// first-touch order, each carrying that user's net balance.
pub open spec fn is_group_balances(
    b: Seq<UserBalance>,
    es: Seq<Expense>,
    ss: Seq<ExpenseShare>,
    ps: Seq<Payment>,
    gid: GroupId,
) -> bool {
    &&& users_of(b) == touched_users(es, ss, ps, gid)
    &&& forall|j: int| 0 <= j < b.len() ==>
        (#[trigger] b[j]).net_balance == balance_of(b[j].user_id, es, ss, ps, gid)
}

/// The inputs a balance computation accepts: bounded event counts and
/// bounded amounts, so that every running total fits in `i64`.
pub open spec fn events_wf(es: Seq<Expense>, ss: Seq<ExpenseShare>, ps: Seq<Payment>) -> bool {
    &&& es.len() <= MAX_EVENTS
    &&& ss.len() <= MAX_EVENTS
    &&& ps.len() <= MAX_EVENTS
    &&& forall|i: int| 0 <= i < es.len() ==> bounded_amount((#[trigger] es[i]).amount)
    &&& forall|i: int| 0 <= i < ss.len() ==> bounded_amount((#[trigger] ss[i]).amount)
    &&& forall|i: int| 0 <= i < ps.len() ==> bounded_amount((#[trigger] ps[i]).amount)
}

// ---------------------------------------------------------------------------
// Lemmas
// ---------------------------------------------------------------------------

/// When present, the entry found by `user_index` is a real entry for `u`;
/// when absent, no entry carries `u`.
pub proof fn lemma_user_index(b: Seq<UserBalance>, u: UserId)
    ensures
        user_index(b, u) == -1 ==> forall|j: int| 0 <= j < b.len()
            ==> (#[trigger] b[j]).user_id != u,
        user_index(b, u) != -1 ==> 0 <= user_index(b, u) < b.len()
            && b[user_index(b, u)].user_id == u,
    decreases b.len(),
{
    if b.len() > 0 && b.last().user_id != u {
        lemma_user_index(b.drop_last(), u);
        assert(forall|j: int| 0 <= j < b.len() - 1 ==> b.drop_last()[j] == b[j]);
    }
}

/// `user_index` finds an entry exactly when `users_of` lists the user.
pub proof fn lemma_user_index_contains(b: Seq<UserBalance>, u: UserId)
    ensures
        user_index(b, u) >= 0 <==> users_of(b).contains(u),
{
    lemma_user_index(b, u);
    if user_index(b, u) >= 0 {
        assert(users_of(b)[user_index(b, u)] == u);
    }
    if users_of(b).contains(u) {
        let j = choose|j: int| 0 <= j < users_of(b).len() && users_of(b)[j] == u;
        assert(b[j].user_id == u);
    }
}

/// Appending an entry adds its balance to the total.
pub proof fn lemma_net_total_push(b: Seq<UserBalance>, x: UserBalance)
    ensures
        net_total(b.push(x)) == net_total(b) + x.net_balance,
{
    assert(b.push(x).drop_last() =~= b);
}

/// Replacing an entry shifts the total by the difference.
pub proof fn lemma_net_total_update(b: Seq<UserBalance>, i: int, x: UserBalance)
    requires
        0 <= i < b.len(),
    ensures
        net_total(b.update(i, x)) == net_total(b) - b[i].net_balance + x.net_balance,
    decreases b.len(),
{
    if i == b.len() - 1 {
        assert(b.update(i, x).drop_last() =~= b.drop_last());
        assert(b.update(i, x).last() == x);
    } else {
        assert(b.update(i, x).drop_last() =~= b.drop_last().update(i, x));
        assert(b.update(i, x).last() == b.last());
        lemma_net_total_update(b.drop_last(), i, x);
    }
}

/// One more expense extends the running sums and the touched users.
pub proof fn lemma_expense_step(es: Seq<Expense>, gid: GroupId, u: UserId, k: int)
    requires
        0 <= k < es.len(),
    ensures
        paid_sum(es.take(k + 1), gid, u) == paid_sum(es.take(k), gid, u)
            + expense_delta(es[k], gid, u),
        group_expense_total(es.take(k + 1), gid) == group_expense_total(es.take(k), gid)
            + if es[k].group_id == gid { es[k].amount as int } else { 0 },
        users_after_expenses(es.take(k + 1), gid) == if es[k].group_id == gid {
            add_user(users_after_expenses(es.take(k), gid), es[k].paid_by)
        } else {
            users_after_expenses(es.take(k), gid)
        },
{
    assert(es.take(k + 1).drop_last() =~= es.take(k));
    assert(es.take(k + 1).last() == es[k]);
}

/// One more share extends the running sums and the touched users.
pub proof fn lemma_share_step(
    ss: Seq<ExpenseShare>,
    es: Seq<Expense>,
    init: Seq<UserId>,
    gid: GroupId,
    u: UserId,
    k: int,
)
    requires
        0 <= k < ss.len(),
    ensures
        owed_sum(ss.take(k + 1), es, gid, u) == owed_sum(ss.take(k), es, gid, u)
            + share_delta(ss[k], es, gid, u),
        counted_share_total(ss.take(k + 1), es, gid) == counted_share_total(ss.take(k), es, gid)
            + if counted(ss[k], es, gid) { ss[k].amount as int } else { 0 },
        users_after_shares(init, ss.take(k + 1), es, gid) == if counted(ss[k], es, gid) {
            add_user(users_after_shares(init, ss.take(k), es, gid), ss[k].user_id)
        } else {
            users_after_shares(init, ss.take(k), es, gid)
        },
{
    assert(ss.take(k + 1).drop_last() =~= ss.take(k));
    assert(ss.take(k + 1).last() == ss[k]);
}

/// One more payment extends the running sums and the touched users.
pub proof fn lemma_payment_step(ps: Seq<Payment>, init: Seq<UserId>, gid: GroupId, u: UserId, k: int)
    requires
        0 <= k < ps.len(),
    ensures
        paynet_sum(ps.take(k + 1), gid, u) == paynet_sum(ps.take(k), gid, u)
            + pay_from_delta(ps[k], gid, u) - pay_to_delta(ps[k], gid, u),
        users_after_payments(init, ps.take(k + 1), gid) == if ps[k].group_id == gid {
            add_user(add_user(users_after_payments(init, ps.take(k), gid), ps[k].from_user),
                ps[k].to_user)
        } else {
            users_after_payments(init, ps.take(k), gid)
        },
{
    assert(ps.take(k + 1).drop_last() =~= ps.take(k));
    assert(ps.take(k + 1).last() == ps[k]);
}

/// `add_user` lists exactly the old users and the added one.
pub proof fn lemma_add_user_contains(s: Seq<UserId>, x: UserId, y: UserId)
    ensures
        add_user(s, x).contains(y) <==> (s.contains(y) || x == y),
{
    if !s.contains(x) {
        assert(s.push(x)[s.len() as int] == x);
        if s.contains(y) {
            let i = choose|i: int| 0 <= i < s.len() && s[i] == y;
            assert(s.push(x)[i] == y);
        }
        if s.push(x).contains(y) {
            let i = choose|i: int| 0 <= i < s.push(x).len() && s.push(x)[i] == y;
            if i < s.len() {
                assert(s[i] == y);
            }
        }
    }
}

/// A user the expenses never touch is credited nothing by them.
pub proof fn lemma_untouched_expenses(es: Seq<Expense>, gid: GroupId, u: UserId)
    requires
        !users_after_expenses(es, gid).contains(u),
    ensures
        paid_sum(es, gid, u) == 0,
    decreases es.len(),
{
    if es.len() > 0 {
        let prev = users_after_expenses(es.drop_last(), gid);
        if es.last().group_id == gid {
            lemma_add_user_contains(prev, es.last().paid_by, u);
        }
        lemma_untouched_expenses(es.drop_last(), gid, u);
    }
}

/// A user the shares never touch is debited nothing by them, and was not
/// touched before them either.
pub proof fn lemma_untouched_shares(
    init: Seq<UserId>,
    ss: Seq<ExpenseShare>,
    es: Seq<Expense>,
    gid: GroupId,
    u: UserId,
)
    requires
        !users_after_shares(init, ss, es, gid).contains(u),
    ensures
        owed_sum(ss, es, gid, u) == 0,
        !init.contains(u),
    decreases ss.len(),
{
    if ss.len() > 0 {
        let prev = users_after_shares(init, ss.drop_last(), es, gid);
        if counted(ss.last(), es, gid) {
            lemma_add_user_contains(prev, ss.last().user_id, u);
        }
        lemma_untouched_shares(init, ss.drop_last(), es, gid, u);
    }
}

/// A user the payments never touch is moved nothing by them, and was not
/// touched before them either.
pub proof fn lemma_untouched_payments(init: Seq<UserId>, ps: Seq<Payment>, gid: GroupId, u: UserId)
    requires
        !users_after_payments(init, ps, gid).contains(u),
    ensures
        paynet_sum(ps, gid, u) == 0,
        !init.contains(u),
    decreases ps.len(),
{
    if ps.len() > 0 {
        let prev = users_after_payments(init, ps.drop_last(), gid);
        if ps.last().group_id == gid {
            lemma_add_user_contains(add_user(prev, ps.last().from_user), ps.last().to_user, u);
            lemma_add_user_contains(prev, ps.last().from_user, u);
        }
        lemma_untouched_payments(init, ps.drop_last(), gid, u);
    }
}

/// Any two balance lists of the same dataset are identical: the result of a
/// balance computation is fully determined by its inputs, so recomputing it
/// without intervening writes reproduces it exactly.
pub proof fn lemma_balances_deterministic(
    b1: Seq<UserBalance>,
    b2: Seq<UserBalance>,
    es: Seq<Expense>,
    ss: Seq<ExpenseShare>,
    ps: Seq<Payment>,
    gid: GroupId,
)
    requires
        is_group_balances(b1, es, ss, ps, gid),
        is_group_balances(b2, es, ss, ps, gid),
    ensures
        b1 == b2,
{
    assert(users_of(b1).len() == b1.len());
    assert(users_of(b2).len() == b2.len());
    assert(b1.len() == b2.len());
    assert forall|j: int| 0 <= j < b1.len() implies b1[j] == b2[j] by {
        assert(users_of(b1)[j] == b1[j].user_id);
        assert(users_of(b2)[j] == b2[j].user_id);
    }
    assert(b1 =~= b2);
}

// ---------------------------------------------------------------------------
// Conservation of money
// ---------------------------------------------------------------------------

/// No two expenses share an identity.
pub open spec fn unique_expense_ids(es: Seq<Expense>) -> bool {
    forall|i: int, j: int| 0 <= i < j < es.len() ==> es[i].id != es[j].id
}

/// Sum of all shares carrying this expense identity.
pub open spec fn shares_sum_for(ss: Seq<ExpenseShare>, eid: ExpenseId) -> int
    decreases ss.len(),
{
    if ss.len() == 0 {
        0
    } else {
        shares_sum_for(ss.drop_last(), eid) + if ss.last().expense_id == eid {
            ss.last().amount as int
        } else {
            0
        }
    }
}


/// Shares of other expenses contribute nothing to an expense's sum.
pub proof fn lemma_shares_sum_for_absent(ss: Seq<ExpenseShare>, eid: ExpenseId)
    requires
        forall|i: int| 0 <= i < ss.len() ==> (#[trigger] ss[i]).expense_id != eid,
    ensures
        shares_sum_for(ss, eid) == 0,
    decreases ss.len(),
{
    if ss.len() > 0 {
        assert(forall|i: int| 0 <= i < ss.len() - 1 ==> ss.drop_last()[i] == ss[i]);
        lemma_shares_sum_for_absent(ss.drop_last(), eid);
    }
}

/// Appending the freshly computed shares of a new expense makes its stored
/// sum exactly their sum, provided no older share carries its identity.
pub proof fn lemma_shares_sum_for_append(
    old_ss: Seq<ExpenseShare>,
    new_ss: Seq<ExpenseShare>,
    eid: ExpenseId,
)
    requires
        forall|i: int| 0 <= i < old_ss.len() ==> (#[trigger] old_ss[i]).expense_id != eid,
    ensures
        shares_sum_for(old_ss + new_ss, eid) == shares_sum_for(new_ss, eid),
    decreases new_ss.len(),
{
    if new_ss.len() == 0 {
        assert(old_ss + new_ss =~= old_ss);
        lemma_shares_sum_for_absent(old_ss, eid);
    } else {
        assert((old_ss + new_ss).drop_last() =~= old_ss + new_ss.drop_last());
        assert((old_ss + new_ss).last() == new_ss.last());
        lemma_shares_sum_for_append(old_ss, new_ss.drop_last(), eid);
    }
}

/// Sum over the group's expenses of (total amount minus its shares' sum):
/// how far the stored shares fall short of the stored totals.
pub open spec fn group_discrepancy(es: Seq<Expense>, ss: Seq<ExpenseShare>, gid: GroupId) -> int
    decreases es.len(),
{
    if es.len() == 0 {
        0
    } else {
        group_discrepancy(es.drop_last(), ss, gid) + if es.last().group_id == gid {
            es.last().amount - shares_sum_for(ss, es.last().id)
        } else {
            0
        }
    }
}

/// Number of expenses belonging to the group.
pub open spec fn group_expense_count(es: Seq<Expense>, gid: GroupId) -> int
    decreases es.len(),
{
    if es.len() == 0 {
        0
    } else {
        group_expense_count(es.drop_last(), gid) + if es.last().group_id == gid {
            1int
        } else {
            0
        }
    }
}

/// Dropping the last expense removes exactly its shares' sum from the
/// counted share total, provided expense identities are unique.
proof fn lemma_counted_split(ss: Seq<ExpenseShare>, es: Seq<Expense>, gid: GroupId)
    requires
        es.len() > 0,
        unique_expense_ids(es),
    ensures
        counted_share_total(ss, es, gid) == counted_share_total(ss, es.drop_last(), gid)
            + if es.last().group_id == gid {
                shares_sum_for(ss, es.last().id)
            } else {
                0
            },
    decreases ss.len(),
{
    if ss.len() > 0 {
        lemma_counted_split(ss.drop_last(), es, gid);
        let s = ss.last();
        let e = es.last();
        // the share counts against the shorter list, or matches the last
        // expense, but never both: identities are unique
        if counted(s, es.drop_last(), gid) {
            let i = choose|i: int| 0 <= i < es.drop_last().len()
                && (#[trigger] es.drop_last()[i]).id == s.expense_id
                && es.drop_last()[i].group_id == gid;
            assert(es[i].id == s.expense_id && es[i].group_id == gid);
            assert(counted(s, es, gid));
            assert(es[i].id != e.id);
        }
        if !counted(s, es.drop_last(), gid) && counted(s, es, gid) {
            let i = choose|i: int| 0 <= i < es.len() && (#[trigger] es[i]).id == s.expense_id
                && es[i].group_id == gid;
            if i < es.len() - 1 {
                assert(es.drop_last()[i] == es[i]);
                assert(counted(s, es.drop_last(), gid));
            }
            assert(s.expense_id == e.id && e.group_id == gid);
        }
        if s.expense_id == e.id && e.group_id == gid {
            assert(es[es.len() - 1] == e);
            assert(counted(s, es, gid));
        }
    }
}

/// Conservation identity: a group's expense total minus its counted share
/// total is exactly the summed per-expense discrepancy.
pub proof fn lemma_conservation_identity(es: Seq<Expense>, ss: Seq<ExpenseShare>, gid: GroupId)
    requires
        unique_expense_ids(es),
    ensures
        group_expense_total(es, gid) - counted_share_total(ss, es, gid) == group_discrepancy(
            es,
            ss,
            gid,
        ),
    decreases es.len(),
{
    if es.len() > 0 {
        lemma_counted_split(ss, es, gid);
        assert(unique_expense_ids(es.drop_last())) by {
            assert(forall|i: int| 0 <= i < es.len() - 1 ==> es.drop_last()[i] == es[i]);
        }
        lemma_conservation_identity(es.drop_last(), ss, gid);
        let tail = if es.last().group_id == gid {
            es.last().amount - shares_sum_for(ss, es.last().id)
        } else {
            0
        };
        assert(group_discrepancy(es, ss, gid) == group_discrepancy(es.drop_last(), ss, gid) + tail);
        assert(group_expense_total(es, gid) == group_expense_total(es.drop_last(), gid)
            + if es.last().group_id == gid { es.last().amount as int } else { 0 });
        assert(group_expense_total(es, gid) - counted_share_total(ss, es, gid)
            == group_discrepancy(es, ss, gid));
    } else {
        lemma_counted_share_total_no_expenses(ss, es, gid);
    }
}

/// Without expenses nothing is counted, whatever the shares.
proof fn lemma_counted_share_total_no_expenses(
    ss: Seq<ExpenseShare>,
    es: Seq<Expense>,
    gid: GroupId,
)
    requires
        es.len() == 0,
    ensures
        counted_share_total(ss, es, gid) == 0,
    decreases ss.len(),
{
    if ss.len() > 0 {
        lemma_counted_share_total_no_expenses(ss.drop_last(), es, gid);
    }
}

/// Conservation: over any dataset whose group expenses each carry shares
/// summing exactly to their amount, the net balances of the computed group
/// balance sum to zero. Payments move money without creating it.
pub proof fn lemma_conservation_zero(
    b: Seq<UserBalance>,
    es: Seq<Expense>,
    ss: Seq<ExpenseShare>,
    gid: GroupId,
)
    requires
        net_total(b) == group_expense_total(es, gid) - counted_share_total(ss, es, gid),
        unique_expense_ids(es),
        forall|i: int| 0 <= i < es.len() && (#[trigger] es[i]).group_id == gid
            ==> shares_sum_for(ss, es[i].id) == es[i].amount,
    ensures
        net_total(b) == 0,
{
    lemma_conservation_identity(es, ss, gid);
    lemma_discrepancy_bound(es, ss, gid, 0);
}

/// Conservation within tolerance: if every group expense's shares sum to
/// its amount within `tol`, the net balances sum to zero within `tol` per
/// group expense.
pub proof fn lemma_conservation_tolerance(
    b: Seq<UserBalance>,
    es: Seq<Expense>,
    ss: Seq<ExpenseShare>,
    gid: GroupId,
    tol: int,
)
    requires
        net_total(b) == group_expense_total(es, gid) - counted_share_total(ss, es, gid),
        unique_expense_ids(es),
        0 <= tol,
        forall|i: int| 0 <= i < es.len() && (#[trigger] es[i]).group_id == gid
            ==> -tol <= es[i].amount - shares_sum_for(ss, es[i].id) <= tol,
    ensures
        -group_expense_count(es, gid) * tol <= net_total(b) <= group_expense_count(es, gid) * tol,
{
    lemma_conservation_identity(es, ss, gid);
    lemma_discrepancy_bound(es, ss, gid, tol);
}

/// The summed discrepancy is bounded by the per-expense bound times the
/// number of group expenses.
proof fn lemma_discrepancy_bound(es: Seq<Expense>, ss: Seq<ExpenseShare>, gid: GroupId, tol: int)
    requires
        0 <= tol,
        forall|i: int| 0 <= i < es.len() && (#[trigger] es[i]).group_id == gid
            ==> -tol <= es[i].amount - shares_sum_for(ss, es[i].id) <= tol,
    ensures
        -group_expense_count(es, gid) * tol <= group_discrepancy(es, ss, gid)
            <= group_expense_count(es, gid) * tol,
    decreases es.len(),
{
    if es.len() > 0 {
        assert(forall|i: int| 0 <= i < es.len() - 1 ==> es.drop_last()[i] == es[i]);
        lemma_discrepancy_bound(es.drop_last(), ss, gid, tol);
        let n0 = group_expense_count(es.drop_last(), gid);
        let n = group_expense_count(es, gid);
        if es.last().group_id == gid {
            assert(es[es.len() - 1] == es.last());
            assert(n == n0 + 1);
            assert(n * tol == n0 * tol + tol && (0 - n) * tol == (0 - n0) * tol - tol)
                by (nonlinear_arith)
                requires
                    n == n0 + 1,
            ;
        }
    }
}

// ---------------------------------------------------------------------------
// Executable computation
// ---------------------------------------------------------------------------

/// Add `delta` to `u`'s entry, creating the entry if `u` has none yet.
#[verifier::loop_isolation(false)]
fn apply_delta(acc: &mut Vec<UserBalance>, u: UserId, delta: i64)
    requires
        unique_users(old(acc)@),
        user_index(old(acc)@, u) >= 0 ==> i64::MIN <= old(acc)@[user_index(old(acc)@, u)].net_balance
            + delta <= i64::MAX,
    ensures
        unique_users(final(acc)@),
        user_index(old(acc)@, u) >= 0 ==> final(acc)@ =~= old(acc)@.update(
            user_index(old(acc)@, u),
            UserBalance {
                user_id: u,
                net_balance: (old(acc)@[user_index(old(acc)@, u)].net_balance + delta) as i64,
            },
        ),
        user_index(old(acc)@, u) < 0 ==> final(acc)@ =~= old(acc)@.push(
            UserBalance { user_id: u, net_balance: delta },
        ),
        users_of(final(acc)@) == add_user(users_of(old(acc)@), u),
        net_total(final(acc)@) == net_total(old(acc)@) + delta,
{
    proof {
        lemma_user_index(acc@, u);
        lemma_user_index_contains(acc@, u);
    }
    let ghost b0 = acc@;
    let n = acc.len();
    let mut i: usize = 0;
    while i < n
        invariant
            n == b0.len(),
            acc@ == b0,
            0 <= i <= n,
            forall|j: int| 0 <= j < i ==> (#[trigger] b0[j]).user_id != u,
        decreases n - i,
    {
        if acc[i].user_id == u {
            proof {
                lemma_user_index(b0, u);
                assert(user_index(b0, u) == i);
            }
            let v = acc[i].net_balance;
            acc.set(i, UserBalance { user_id: u, net_balance: v + delta });
            proof {
                lemma_net_total_update(b0, i as int, acc@[i as int]);
                assert(users_of(acc@) =~= users_of(b0));
                assert(users_of(b0).contains(u)) by {
                    lemma_user_index_contains(b0, u);
                }
            }
            return ;
        }
        i += 1;
    }
    proof {
        lemma_user_index(b0, u);
        assert(user_index(b0, u) == -1);
        lemma_user_index_contains(b0, u);
    }
    acc.push(UserBalance { user_id: u, net_balance: delta });
    proof {
        lemma_net_total_push(b0, acc@.last());
        assert(users_of(acc@) =~= users_of(b0).push(u));
    }
}

/// Whether the group owns an expense with this identity.
fn has_group_expense(expenses: &Vec<Expense>, gid: GroupId, eid: ExpenseId) -> (r: bool)
    ensures
        r == exists|i: int| 0 <= i < expenses@.len()
            && (#[trigger] expenses@[i]).id == eid && expenses@[i].group_id == gid,
{
    let n = expenses.len();
    let mut i: usize = 0;
    while i < n
        invariant
            n == expenses@.len(),
            0 <= i <= n,
            forall|j: int| 0 <= j < i ==> !((#[trigger] expenses@[j]).id == eid
                && expenses@[j].group_id == gid),
        decreases n - i,
    {
        if expenses[i].group_id == gid && expenses[i].id == eid {
            return true;
        }
        i += 1;
    }
    false
}

/// Aggregate a group's expenses, shares and payments into one net balance
/// per user.
///
/// The result lists exactly the touched users, in first-touch order, each
/// with their net balance; its total equals the group's expense total minus
/// its counted share total, payments cancelling out. Recomputing on the
/// same dataset returns an identical result.
#[verifier::loop_isolation(false)]
pub fn compute_group_balances(
    group_id: GroupId,
    expenses: &Vec<Expense>,
    shares: &Vec<ExpenseShare>,
    payments: &Vec<Payment>,
) -> (r: GroupBalance)
    requires
        events_wf(expenses@, shares@, payments@),
    ensures
        r.group_id == group_id,
        is_group_balances(r.balances@, expenses@, shares@, payments@, group_id),
        unique_users(r.balances@),
        net_total(r.balances@) == group_expense_total(expenses@, group_id)
            - counted_share_total(shares@, expenses@, group_id),
        forall|j: int| 0 <= j < r.balances@.len()
            ==> -BALANCE_LIMIT_CENTS <= (#[trigger] r.balances@[j]).net_balance
                <= BALANCE_LIMIT_CENTS,
{
    let ghost es = expenses@;
    let ghost ss = shares@;
    let ghost ps = payments@;
    let mut acc: Vec<UserBalance> = Vec::new();

    let ne = expenses.len();
    let mut k: usize = 0;
    while k < ne
        invariant
            0 <= k <= ne,
            unique_users(acc@),
            users_of(acc@) == users_after_expenses(es.take(k as int), group_id),
            forall|j: int| 0 <= j < acc@.len() ==> (#[trigger] acc@[j]).net_balance
                == paid_sum(es.take(k as int), group_id, acc@[j].user_id),
            forall|j: int| 0 <= j < acc@.len()
                ==> -(k as int) * (EVENT_LIMIT_CENTS as int)
                    <= (#[trigger] acc@[j]).net_balance
                    <= (k as int) * (EVENT_LIMIT_CENTS as int),
            net_total(acc@) == group_expense_total(es.take(k as int), group_id),
            acc@.len() <= k,
        decreases ne - k,
    {
        let ghost acc0 = acc@;
        let e = &expenses[k];
        proof {
            lemma_user_index(acc0, e.paid_by);
        }
        if e.group_id == group_id {
            apply_delta(&mut acc, e.paid_by, e.amount);
        }
        proof {
            assert forall|j: int| 0 <= j < acc@.len() implies (#[trigger] acc@[j]).net_balance
                == paid_sum(es.take(k + 1 as int), group_id, acc@[j].user_id)
                && -(k + 1 as int) * (EVENT_LIMIT_CENTS as int) <= acc@[j].net_balance
                <= (k + 1 as int) * (EVENT_LIMIT_CENTS as int) by {
                lemma_expense_step(es, group_id, acc@[j].user_id, k as int);
                lemma_user_index(acc0, e.paid_by);
                if e.group_id == group_id && user_index(acc0, e.paid_by) < 0 {
                    lemma_user_index_contains(acc0, e.paid_by);
                    lemma_untouched_expenses(es.take(k as int), group_id, e.paid_by);
                }
            }
            lemma_expense_step(es, group_id, e.paid_by, k as int);
        }
        k += 1;
    }
    proof {
        assert(es.take(ne as int) =~= es);
    }

    let ghost init_s = users_of(acc@);
    let ns = shares.len();
    let mut k2: usize = 0;
    while k2 < ns
        invariant
            0 <= k2 <= ns,
            unique_users(acc@),
            users_of(acc@) == users_after_shares(init_s, ss.take(k2 as int), es, group_id),
            forall|j: int| 0 <= j < acc@.len() ==> (#[trigger] acc@[j]).net_balance
                == paid_sum(es, group_id, acc@[j].user_id)
                    - owed_sum(ss.take(k2 as int), es, group_id, acc@[j].user_id),
            forall|j: int| 0 <= j < acc@.len()
                ==> -((ne + k2) as int) * (EVENT_LIMIT_CENTS as int)
                    <= (#[trigger] acc@[j]).net_balance
                    <= ((ne + k2) as int) * (EVENT_LIMIT_CENTS as int),
            net_total(acc@) == group_expense_total(es, group_id)
                - counted_share_total(ss.take(k2 as int), es, group_id),
            acc@.len() <= ne + k2,
        decreases ns - k2,
    {
        let ghost acc0 = acc@;
        let s = &shares[k2];
        proof {
            lemma_user_index(acc0, s.user_id);
        }
        let in_group = has_group_expense(expenses, group_id, s.expense_id);
        if in_group {
            apply_delta(&mut acc, s.user_id, 0i64 - s.amount);
        }
        proof {
            assert(counted(ss[k2 as int], es, group_id) == in_group);
            assert forall|j: int| 0 <= j < acc@.len() implies (#[trigger] acc@[j]).net_balance
                == paid_sum(es, group_id, acc@[j].user_id)
                    - owed_sum(ss.take(k2 + 1 as int), es, group_id, acc@[j].user_id)
                && -((ne + k2 + 1) as int) * (EVENT_LIMIT_CENTS as int) <= acc@[j].net_balance
                <= ((ne + k2 + 1) as int) * (EVENT_LIMIT_CENTS as int) by {
                lemma_share_step(ss, es, init_s, group_id, acc@[j].user_id, k2 as int);
                lemma_user_index(acc0, s.user_id);
                if in_group && user_index(acc0, s.user_id) < 0 {
                    lemma_user_index_contains(acc0, s.user_id);
                    lemma_untouched_shares(init_s, ss.take(k2 as int), es, group_id, s.user_id);
                    lemma_untouched_expenses(es, group_id, s.user_id);
                }
            }
            lemma_share_step(ss, es, init_s, group_id, s.user_id, k2 as int);
        }
        k2 += 1;
    }
    proof {
        assert(ss.take(ns as int) =~= ss);
    }

    let ghost init_p = users_of(acc@);
    let np = payments.len();
    let mut k3: usize = 0;
    while k3 < np
        invariant
            0 <= k3 <= np,
            unique_users(acc@),
            users_of(acc@) == users_after_payments(init_p, ps.take(k3 as int), group_id),
            forall|j: int| 0 <= j < acc@.len() ==> (#[trigger] acc@[j]).net_balance
                == paid_sum(es, group_id, acc@[j].user_id)
                    - owed_sum(ss, es, group_id, acc@[j].user_id)
                    + paynet_sum(ps.take(k3 as int), group_id, acc@[j].user_id),
            forall|j: int| 0 <= j < acc@.len()
                ==> -((ne + ns + 2 * k3) as int) * (EVENT_LIMIT_CENTS as int)
                    <= (#[trigger] acc@[j]).net_balance
                    <= ((ne + ns + 2 * k3) as int) * (EVENT_LIMIT_CENTS as int),
            net_total(acc@) == group_expense_total(es, group_id)
                - counted_share_total(ss, es, group_id),
            acc@.len() <= ne + ns + 2 * k3,
        decreases np - k3,
    {
        let ghost acc0 = acc@;
        let p = &payments[k3];
        proof {
            lemma_user_index(acc0, p.from_user);
        }
        if p.group_id == group_id {
            apply_delta(&mut acc, p.from_user, p.amount);
            let ghost acc1 = acc@;
            proof {
                assert forall|j: int| 0 <= j < acc@.len() implies (#[trigger] acc@[j]).net_balance
                    == paid_sum(es, group_id, acc@[j].user_id)
                        - owed_sum(ss, es, group_id, acc@[j].user_id)
                        + paynet_sum(ps.take(k3 as int), group_id, acc@[j].user_id)
                        + pay_from_delta(ps[k3 as int], group_id, acc@[j].user_id)
                    && -((ne + ns + 2 * k3 + 1) as int) * (EVENT_LIMIT_CENTS as int)
                        <= acc@[j].net_balance
                    <= ((ne + ns + 2 * k3 + 1) as int) * (EVENT_LIMIT_CENTS as int) by {
                    lemma_user_index(acc0, p.from_user);
                    if user_index(acc0, p.from_user) < 0 {
                        lemma_user_index_contains(acc0, p.from_user);
                        lemma_untouched_payments(init_p, ps.take(k3 as int), group_id, p.from_user);
                        lemma_untouched_shares(init_s, ss, es, group_id, p.from_user);
                        lemma_untouched_expenses(es, group_id, p.from_user);
                    }
                }
                lemma_user_index(acc1, p.to_user);
            }
            apply_delta(&mut acc, p.to_user, 0i64 - p.amount);
            proof {
                assert forall|j: int| 0 <= j < acc@.len() implies (#[trigger] acc@[j]).net_balance
                    == paid_sum(es, group_id, acc@[j].user_id)
                        - owed_sum(ss, es, group_id, acc@[j].user_id)
                        + paynet_sum(ps.take(k3 + 1 as int), group_id, acc@[j].user_id)
                    && -((ne + ns + 2 * (k3 + 1)) as int) * (EVENT_LIMIT_CENTS as int)
                        <= acc@[j].net_balance
                    <= ((ne + ns + 2 * (k3 + 1)) as int) * (EVENT_LIMIT_CENTS as int) by {
                    lemma_payment_step(ps, init_p, group_id, acc@[j].user_id, k3 as int);
                    lemma_user_index(acc1, p.to_user);
                    if user_index(acc1, p.to_user) < 0 {
                        lemma_user_index_contains(acc1, p.to_user);
                        lemma_add_user_contains(
                            users_after_payments(init_p, ps.take(k3 as int), group_id),
                            p.from_user,
                            p.to_user,
                        );
                        lemma_untouched_payments(init_p, ps.take(k3 as int), group_id, p.to_user);
                        lemma_untouched_shares(init_s, ss, es, group_id, p.to_user);
                        lemma_untouched_expenses(es, group_id, p.to_user);
                    }
                }
                lemma_payment_step(ps, init_p, group_id, p.from_user, k3 as int);
            }
        } else {
            proof {
                assert forall|j: int| 0 <= j < acc@.len() implies (#[trigger] acc@[j]).net_balance
                    == paid_sum(es, group_id, acc@[j].user_id)
                        - owed_sum(ss, es, group_id, acc@[j].user_id)
                        + paynet_sum(ps.take(k3 + 1 as int), group_id, acc@[j].user_id) by {
                    lemma_payment_step(ps, init_p, group_id, acc@[j].user_id, k3 as int);
                }
                lemma_payment_step(ps, init_p, group_id, p.from_user, k3 as int);
            }
        }
        k3 += 1;
    }
    proof {
        assert(ps.take(np as int) =~= ps);
    }

    GroupBalance { group_id, balances: acc }
}

/// Look up one user's net balance; users without an entry owe nothing.
#[verifier::loop_isolation(false)]
pub fn lookup_balance(balances: &GroupBalance, u: UserId) -> (r: i64)
    requires
        unique_users(balances.balances@),
    ensures
        user_index(balances.balances@, u) >= 0 ==> r == balances.balances@[user_index(
            balances.balances@,
            u,
        )].net_balance,
        user_index(balances.balances@, u) < 0 ==> r == 0,
{
    proof {
        lemma_user_index(balances.balances@, u);
    }
    let n = balances.balances.len();
    let mut i: usize = 0;
    while i < n
        invariant
            n == balances.balances@.len(),
            0 <= i <= n,
            forall|j: int| 0 <= j < i ==> (#[trigger] balances.balances@[j]).user_id != u,
        decreases n - i,
    {
        if balances.balances[i].user_id == u {
            proof {
                lemma_user_index(balances.balances@, u);
                assert(user_index(balances.balances@, u) == i);
            }
            return balances.balances[i].net_balance;
        }
        i += 1;
    }
    proof {
        lemma_user_index(balances.balances@, u);
    }
    0
}

} // verus!
