//! In-memory stores for expenses, shares and payments.
//!
//! Each repository owns its rows; the service layer owns one repository of
//! each kind and keeps the cross-repository invariants (unique expense
//! identities, every share tied to a stored expense).

use vstd::prelude::*;
use crate::ids::{UserId, GroupId, ExpenseId};
use crate::money::MAX_EVENTS;
use crate::expense::{Expense, ExpenseShare, Payment, GroupBalance, DebtSummary, ExpenseInfo, ExpenseFilter};
use crate::balance::{
    unique_expense_ids, events_wf, is_group_balances, unique_users, net_total, balance_of,
    group_expense_total, counted_share_total, compute_group_balances, lookup_balance, user_index,
    lemma_user_index, lemma_user_index_contains, users_after_expenses,
    lemma_untouched_expenses, lemma_untouched_shares, lemma_untouched_payments,
    lemma_balances_deterministic,
};
use crate::debt::{
    is_resolution, resolve, transfers_match, greedy_transfers, creditor_list, debtor_list,
    triples_of, lemma_triples_push, lemma_triples_index,
};
use crate::money::BALANCE_LIMIT_CENTS;

verus! {

/// Index of the expense with this identity, or `-1` when absent.
pub open spec fn expense_index(es: Seq<Expense>, eid: ExpenseId) -> int
    decreases es.len(),
{
    if es.len() == 0 {
        -1
    } else if es.last().id == eid {
        es.len() - 1
    } else {
        expense_index(es.drop_last(), eid)
    }
}

/// The stored expenses without the one carrying this identity.
pub open spec fn without_expense(es: Seq<Expense>, eid: ExpenseId) -> Seq<Expense>
    decreases es.len(),
{
    if es.len() == 0 {
        Seq::empty()
    } else {
        let prev = without_expense(es.drop_last(), eid);
        if es.last().id == eid {
            prev
        } else {
            prev.push(es.last())
        }
    }
}

/// The stored shares of one expense, in order.
pub open spec fn shares_of(ss: Seq<ExpenseShare>, eid: ExpenseId) -> Seq<ExpenseShare>
    decreases ss.len(),
{
    if ss.len() == 0 {
        Seq::empty()
    } else {
        let prev = shares_of(ss.drop_last(), eid);
        if ss.last().expense_id == eid {
            prev.push(ss.last())
        } else {
            prev
        }
    }
}

/// The stored shares without those of one expense.
pub open spec fn without_shares(ss: Seq<ExpenseShare>, eid: ExpenseId) -> Seq<ExpenseShare>
    decreases ss.len(),
{
    if ss.len() == 0 {
        Seq::empty()
    } else {
        let prev = without_shares(ss.drop_last(), eid);
        if ss.last().expense_id == eid {
            prev
        } else {
            prev.push(ss.last())
        }
    }
}


/// Index of the share of one expense held by one user, or `-1`.
pub open spec fn share_index(ss: Seq<ExpenseShare>, eid: ExpenseId, uid: UserId) -> int
    decreases ss.len(),
{
    if ss.len() == 0 {
        -1
    } else if ss.last().expense_id == eid && ss.last().user_id == uid {
        ss.len() - 1
    } else {
        share_index(ss.drop_last(), eid, uid)
    }
}

/// When present, the entry found by `share_index` is a real share of that
/// expense and user; when absent, there is none.
pub proof fn lemma_share_index(ss: Seq<ExpenseShare>, eid: ExpenseId, uid: UserId)
    ensures
        share_index(ss, eid, uid) == -1 ==> forall|j: int| 0 <= j < ss.len()
            ==> !((#[trigger] ss[j]).expense_id == eid && ss[j].user_id == uid),
        share_index(ss, eid, uid) != -1 ==> 0 <= share_index(ss, eid, uid) < ss.len()
            && ss[share_index(ss, eid, uid)].expense_id == eid
            && ss[share_index(ss, eid, uid)].user_id == uid,
    decreases ss.len(),
{
    if ss.len() > 0 && !(ss.last().expense_id == eid && ss.last().user_id == uid) {
        lemma_share_index(ss.drop_last(), eid, uid);
        assert(forall|j: int| 0 <= j < ss.len() - 1 ==> ss.drop_last()[j] == ss[j]);
    }
}

/// The stored payments of one group, in order.
pub open spec fn payments_of_group(ps: Seq<Payment>, gid: GroupId) -> Seq<Payment>
    decreases ps.len(),
{
    if ps.len() == 0 {
        Seq::empty()
    } else {
        let prev = payments_of_group(ps.drop_last(), gid);
        if ps.last().group_id == gid {
            prev.push(ps.last())
        } else {
            prev
        }
    }
}

/// The stored payments one user pays or receives, in order.
pub open spec fn payments_of_user(ps: Seq<Payment>, u: UserId) -> Seq<Payment>
    decreases ps.len(),
{
    if ps.len() == 0 {
        Seq::empty()
    } else {
        let prev = payments_of_user(ps.drop_last(), u);
        if ps.last().from_user == u || ps.last().to_user == u {
            prev.push(ps.last())
        } else {
            prev
        }
    }
}

/// When present, the entry found by `expense_index` is a real entry with
/// that identity; when absent, no entry carries it.
pub proof fn lemma_expense_index(es: Seq<Expense>, eid: ExpenseId)
    ensures
        expense_index(es, eid) == -1 ==> forall|j: int| 0 <= j < es.len()
            ==> (#[trigger] es[j]).id != eid,
        expense_index(es, eid) != -1 ==> 0 <= expense_index(es, eid) < es.len()
            && es[expense_index(es, eid)].id == eid,
    decreases es.len(),
{
    if es.len() > 0 && es.last().id != eid {
        lemma_expense_index(es.drop_last(), eid);
        assert(forall|j: int| 0 <= j < es.len() - 1 ==> es.drop_last()[j] == es[j]);
    }
}

/// What `without_expense` keeps: exactly the entries of other identities,
/// in their original order.
pub proof fn lemma_without_expense(es: Seq<Expense>, eid: ExpenseId)
    ensures
        without_expense(es, eid).len() <= es.len(),
        forall|j: int| 0 <= j < without_expense(es, eid).len() ==> exists|i: int|
            0 <= i < es.len() && (#[trigger] without_expense(es, eid)[j]) == es[i],
        forall|j: int| 0 <= j < without_expense(es, eid).len()
            ==> (#[trigger] without_expense(es, eid)[j]).id != eid,
        forall|i: int| 0 <= i < es.len() && (#[trigger] es[i]).id != eid
            ==> without_expense(es, eid).contains(es[i]),
        unique_expense_ids(es) ==> unique_expense_ids(without_expense(es, eid)),
    decreases es.len(),
{
    if es.len() > 0 {
        lemma_without_expense(es.drop_last(), eid);
        let prev = without_expense(es.drop_last(), eid);
        assert(forall|i: int| 0 <= i < es.len() - 1 ==> es.drop_last()[i] == es[i]);
        assert forall|i: int| 0 <= i < es.len() && (#[trigger] es[i]).id != eid implies
            without_expense(es, eid).contains(es[i]) by {
            if i < es.len() - 1 {
                assert(prev.contains(es[i]));
                let j = choose|j: int| 0 <= j < prev.len() && prev[j] == es[i];
                assert(without_expense(es, eid)[j] == es[i]);
            } else {
                assert(without_expense(es, eid).last() == es[i]);
            }
        }
    }
}

/// Removing the shares of an expense nobody stored changes nothing.
pub proof fn lemma_without_shares_absent(ss: Seq<ExpenseShare>, eid: ExpenseId)
    requires
        forall|i: int| 0 <= i < ss.len() ==> (#[trigger] ss[i]).expense_id != eid,
    ensures
        without_shares(ss, eid) == ss,
    decreases ss.len(),
{
    if ss.len() > 0 {
        assert(forall|i: int| 0 <= i < ss.len() - 1 ==> ss.drop_last()[i] == ss[i]);
        lemma_without_shares_absent(ss.drop_last(), eid);
        assert(without_shares(ss, eid) =~= ss);
    }
}

/// What `without_shares` keeps: exactly the shares of other expenses.
pub proof fn lemma_without_shares(ss: Seq<ExpenseShare>, eid: ExpenseId)
    ensures
        without_shares(ss, eid).len() <= ss.len(),
        forall|j: int| 0 <= j < without_shares(ss, eid).len() ==> exists|i: int|
            0 <= i < ss.len() && (#[trigger] without_shares(ss, eid)[j]) == ss[i],
        forall|j: int| 0 <= j < without_shares(ss, eid).len()
            ==> (#[trigger] without_shares(ss, eid)[j]).expense_id != eid,
    decreases ss.len(),
{
    if ss.len() > 0 {
        lemma_without_shares(ss.drop_last(), eid);
        assert(forall|i: int| 0 <= i < ss.len() - 1 ==> ss.drop_last()[i] == ss[i]);
    }
}

/// Copy an expense field by field.
pub fn copy_expense(e: &Expense) -> (r: Expense)
    ensures
        r == *e,
{
    Expense {
        id: e.id,
        group_id: e.group_id,
        description: e.description.clone(),
        amount: e.amount,
        currency: e.currency.clone(),
        paid_by: e.paid_by,
        created_by: e.created_by,
        category: copy_opt_string(&e.category),
        date: e.date,
        created_at: e.created_at,
        updated_at: e.updated_at,
    }
}

/// Copy a payment field by field.
pub fn copy_payment(p: &Payment) -> (r: Payment)
    ensures
        r == *p,
{
    Payment {
        id: p.id,
        group_id: p.group_id,
        from_user: p.from_user,
        to_user: p.to_user,
        amount: p.amount,
        currency: p.currency.clone(),
        description: p.description.clone(),
        created_at: p.created_at,
    }
}

/// Copy an optional string.
pub fn copy_opt_string(o: &Option<String>) -> (r: Option<String>)
    ensures
        r == *o,
{
    match o {
        Some(s) => Some(s.clone()),
        None => None,
    }
}


/// Whether a user appears on an expense: as creator, payer, or holder of
/// one of its shares.
pub open spec fn involves_user(e: Expense, ss: Seq<ExpenseShare>, u: UserId) -> bool {
    ||| e.created_by == u
    ||| e.paid_by == u
    ||| exists|i: int| 0 <= i < ss.len() && (#[trigger] ss[i]).expense_id == e.id
        && ss[i].user_id == u
}

/// Whether an expense passes a search filter. The in-memory search applies
/// the group and involvement criteria.
pub open spec fn passes_filter(e: Expense, ss: Seq<ExpenseShare>, f: ExpenseFilter) -> bool {
    &&& match f.group_id {
        Some(g) => e.group_id == g,
        None => true,
    }
    &&& match f.involving_user {
        Some(u) => involves_user(e, ss, u),
        None => true,
    }
}

/// The expenses a search keeps, in store order.
pub open spec fn filtered_expenses(es: Seq<Expense>, ss: Seq<ExpenseShare>, f: ExpenseFilter) -> Seq<
    Expense,
>
    decreases es.len(),
{
    if es.len() == 0 {
        Seq::empty()
    } else {
        let prev = filtered_expenses(es.drop_last(), ss, f);
        if passes_filter(es.last(), ss, f) {
            prev.push(es.last())
        } else {
            prev
        }
    }
}

/// The info built for one stored expense (names of users are left to the
/// presentation layer).
pub open spec fn info_of_expense(info: ExpenseInfo, e: Expense, ss: Seq<ExpenseShare>) -> bool {
    &&& info.id == e.id
    &&& info.group_id == e.group_id
    &&& info.description == e.description
    &&& info.amount == e.amount
    &&& info.currency == e.currency
    &&& info.paid_by == e.paid_by
    &&& info.created_by == e.created_by
    &&& info.category == e.category
    &&& info.date == e.date
    &&& info.created_at == e.created_at
    &&& info.shares@ == shares_of(ss, e.id)
}

/// The info record stems from a stored expense the filter admits.
pub open spec fn provenanced(
    info: ExpenseInfo,
    es: Seq<Expense>,
    ss: Seq<ExpenseShare>,
    f: ExpenseFilter,
) -> bool {
    exists|e: Expense| es.contains(e) && passes_filter(e, ss, f) && info_of_expense(info, e, ss)
}

/// How many results a search returns once the page is cut out of `m`
/// matches.
pub open spec fn page_len(m: int, offset: Option<usize>, limit: Option<usize>) -> int {
    let off = match offset {
        Some(o) => o as int,
        None => 0,
    };
    let rem = if off >= m {
        0
    } else {
        m - off
    };
    match limit {
        Some(l) => if l as int <= rem {
            l as int
        } else {
            rem
        },
        None => rem,
    }
}

/// The filter a plain group listing uses.
pub open spec fn group_only_filter(gid: GroupId, limit: Option<usize>, offset: Option<usize>) -> ExpenseFilter {
    ExpenseFilter {
        group_id: Some(gid),
        paid_by: None,
        involving_user: None,
        category: None,
        date_from: None,
        date_to: None,
        limit,
        offset,
    }
}

/// Copy a share list.
fn copy_shares(v: &Vec<ExpenseShare>) -> (r: Vec<ExpenseShare>)
    ensures
        r@ == v@,
{
    let mut out: Vec<ExpenseShare> = Vec::new();
    let n = v.len();
    let mut i: usize = 0;
    while i < n
        invariant
            n == v@.len(),
            0 <= i <= n,
            out@ == v@.take(i as int),
        decreases n - i,
    {
        out.push(v[i]);
        proof {
            assert(v@.take(i + 1 as int) =~= v@.take(i as int).push(v@[i as int]));
        }
        i += 1;
    }
    proof {
        assert(v@.take(n as int) =~= v@);
    }
    out
}

/// Copy an expense info record field by field; the copy carries the same
/// values and an equal share list.
fn copy_info(info: &ExpenseInfo) -> (r: ExpenseInfo)
    ensures
        r.id == info.id,
        r.group_id == info.group_id,
        r.description == info.description,
        r.amount == info.amount,
        r.currency == info.currency,
        r.paid_by == info.paid_by,
        r.created_by == info.created_by,
        r.category == info.category,
        r.date == info.date,
        r.shares@ == info.shares@,
        r.created_at == info.created_at,
{
    ExpenseInfo {
        id: info.id,
        group_id: info.group_id,
        description: info.description.clone(),
        amount: info.amount,
        currency: info.currency.clone(),
        paid_by: info.paid_by,
        created_by: info.created_by,
        category: copy_opt_string(&info.category),
        date: info.date,
        shares: copy_shares(&info.shares),
        created_at: info.created_at,
    }
}

/// Collect the shares of one expense, in store order.
fn shares_for_expense(shares: &Vec<ExpenseShare>, eid: ExpenseId) -> (r: Vec<ExpenseShare>)
    ensures
        r@ == shares_of(shares@, eid),
{
    let n = shares.len();
    let mut out: Vec<ExpenseShare> = Vec::new();
    let mut i: usize = 0;
    while i < n
        invariant
            n == shares@.len(),
            0 <= i <= n,
            out@ == shares_of(shares@.take(i as int), eid),
        decreases n - i,
    {
        proof {
            assert(shares@.take(i + 1 as int).drop_last() =~= shares@.take(i as int));
            assert(shares@.take(i + 1 as int).last() == shares@[i as int]);
        }
        if shares[i].expense_id == eid {
            out.push(shares[i]);
        }
        i += 1;
    }
    proof {
        assert(shares@.take(n as int) =~= shares@);
    }
    out
}

/// Whether an expense passes a search filter.
#[verifier::loop_isolation(false)]
fn expense_passes(e: &Expense, shares: &Vec<ExpenseShare>, filter: &ExpenseFilter) -> (r: bool)
    ensures
        r == passes_filter(*e, shares@, *filter),
{
    let group_ok = match filter.group_id {
        Some(g) => e.group_id == g,
        None => true,
    };
    if !group_ok {
        return false;
    }
    match filter.involving_user {
        None => true,
        Some(u) => {
            if e.created_by == u || e.paid_by == u {
                return true;
            }
            let n = shares.len();
            let mut i: usize = 0;
            while i < n
                invariant
                    n == shares@.len(),
                    0 <= i <= n,
                    forall|j: int| 0 <= j < i ==> !((#[trigger] shares@[j]).expense_id == e.id
                        && shares@[j].user_id == u),
                decreases n - i,
            {
                if shares[i].expense_id == e.id && shares[i].user_id == u {
                    proof {
                        assert(shares@[i as int].expense_id == e.id
                            && shares@[i as int].user_id == u);
                    }
                    return true;
                }
                i += 1;
            }
            false
        },
    }
}

/// In-memory store of expenses.
pub struct InMemoryExpenseRepository {
    pub expenses: Vec<Expense>,
}

impl InMemoryExpenseRepository {
    /// An empty store.
    pub fn new() -> (r: Self)
        ensures
            r.expenses@.len() == 0,
    {
        InMemoryExpenseRepository { expenses: Vec::new() }
    }

    /// Store one expense.
    pub fn create_expense(&mut self, expense: &Expense)
        requires
            old(self).expenses@.len() < MAX_EVENTS,
        ensures
            final(self).expenses@ == old(self).expenses@.push(*expense),
    {
        let e = copy_expense(expense);
        self.expenses.push(e);
    }

    /// Fetch the expense with this identity, if stored.
    #[verifier::loop_isolation(false)]
    pub fn get_expense_by_id(&self, expense_id: ExpenseId) -> (r: Option<Expense>)
        requires
            unique_expense_ids(self.expenses@),
        ensures
            match r {
                None => expense_index(self.expenses@, expense_id) == -1,
                Some(e) => {
                    &&& 0 <= expense_index(self.expenses@, expense_id) < self.expenses@.len()
                    &&& e == self.expenses@[expense_index(self.expenses@, expense_id)]
                },
            },
    {
        proof {
            lemma_expense_index(self.expenses@, expense_id);
        }
        let n = self.expenses.len();
        let mut i: usize = 0;
        while i < n
            invariant
                n == self.expenses@.len(),
                0 <= i <= n,
                forall|j: int| 0 <= j < i ==> (#[trigger] self.expenses@[j]).id != expense_id,
            decreases n - i,
        {
            if self.expenses[i].id == expense_id {
                proof {
                    lemma_expense_index(self.expenses@, expense_id);
                    let k = expense_index(self.expenses@, expense_id);
                    assert(k == i);
                }
                return Some(copy_expense(&self.expenses[i]));
            }
            i += 1;
        }
        proof {
            lemma_expense_index(self.expenses@, expense_id);
        }
        None
    }

    /// Replace the stored expense carrying this expense's identity, or
    /// store it as new.
    #[verifier::loop_isolation(false)]
    pub fn update_expense(&mut self, expense: &Expense)
        requires
            unique_expense_ids(old(self).expenses@),
            old(self).expenses@.len() < MAX_EVENTS,
        ensures
            expense_index(old(self).expenses@, expense.id) >= 0 ==> final(self).expenses@
                == old(self).expenses@.update(expense_index(old(self).expenses@, expense.id), *expense),
            expense_index(old(self).expenses@, expense.id) < 0 ==> final(self).expenses@
                == old(self).expenses@.push(*expense),
    {
        let ghost es0 = self.expenses@;
        proof {
            lemma_expense_index(es0, expense.id);
        }
        let n = self.expenses.len();
        let mut i: usize = 0;
        while i < n
            invariant
                n == es0.len(),
                self.expenses@ == es0,
                0 <= i <= n,
                forall|j: int| 0 <= j < i ==> (#[trigger] es0[j]).id != expense.id,
            decreases n - i,
        {
            if self.expenses[i].id == expense.id {
                proof {
                    lemma_expense_index(es0, expense.id);
                    let k = expense_index(es0, expense.id);
                    if k != i {
                        assert(es0[k].id == expense.id);
                    }
                }
                let e = copy_expense(expense);
                self.expenses.set(i, e);
                return ;
            }
            i += 1;
        }
        proof {
            lemma_expense_index(es0, expense.id);
        }
        let e = copy_expense(expense);
        self.expenses.push(e);
    }

    /// Remove the expense with this identity, if stored.
    pub fn delete_expense(&mut self, expense_id: ExpenseId)
        ensures
            final(self).expenses@ == without_expense(old(self).expenses@, expense_id),
    {
        let ghost es0 = self.expenses@;
        let n = self.expenses.len();
        let mut kept: Vec<Expense> = Vec::new();
        let mut i: usize = 0;
        while i < n
            invariant
                n == es0.len(),
                self.expenses@ == es0,
                0 <= i <= n,
                kept@ == without_expense(es0.take(i as int), expense_id),
            decreases n - i,
        {
            proof {
                assert(es0.take(i + 1 as int).drop_last() =~= es0.take(i as int));
                assert(es0.take(i + 1 as int).last() == es0[i as int]);
            }
            if self.expenses[i].id != expense_id {
                let e = copy_expense(&self.expenses[i]);
                kept.push(e);
            }
            i += 1;
        }
        proof {
            assert(es0.take(n as int) =~= es0);
        }
        self.expenses = kept;
    }
    /// Search the stored expenses: keep what the filter admits, newest
    /// first, and cut out the requested page.
    #[verifier::loop_isolation(false)]
    pub fn get_expenses(&self, filter: &ExpenseFilter, shares: &Vec<ExpenseShare>) -> (r: Vec<
        ExpenseInfo,
    >)
        ensures
            r@.len() == page_len(
                filtered_expenses(self.expenses@, shares@, *filter).len() as int,
                filter.offset,
                filter.limit,
            ),
            forall|j: int| 0 <= j < r@.len() ==> provenanced(
                #[trigger] r@[j],
                self.expenses@,
                shares@,
                *filter,
            ),
            forall|i: int, j: int| 0 <= i < j < r@.len() ==> r@[i].date >= r@[j].date,
    {
        let ghost es = self.expenses@;
        let ghost ssv = shares@;
        let mut infos: Vec<ExpenseInfo> = Vec::new();
        let n = self.expenses.len();
        let mut k: usize = 0;
        while k < n
            invariant
                0 <= k <= n,
                infos@.len() == filtered_expenses(es.take(k as int), ssv, *filter).len(),
                forall|j: int| 0 <= j < infos@.len() ==> provenanced(
                    #[trigger] infos@[j],
                    es,
                    ssv,
                    *filter,
                ),
            decreases n - k,
        {
            proof {
                assert(es.take(k + 1 as int).drop_last() =~= es.take(k as int));
                assert(es.take(k + 1 as int).last() == es[k as int]);
            }
            let e = &self.expenses[k];
            if expense_passes(e, shares, filter) {
                let info = ExpenseInfo {
                    id: e.id,
                    group_id: e.group_id,
                    description: e.description.clone(),
                    amount: e.amount,
                    currency: e.currency.clone(),
                    paid_by: e.paid_by,
                    created_by: e.created_by,
                    category: copy_opt_string(&e.category),
                    date: e.date,
                    shares: shares_for_expense(shares, e.id),
                    created_at: e.created_at,
                };
                proof {
                    assert(es[k as int] == *e);
                    assert(es.contains(es[k as int]));
                    assert(info_of_expense(info, es[k as int], ssv));
                    assert(provenanced(info, es, ssv, *filter));
                }
                infos.push(info);
            }
            k += 1;
        }
        proof {
            assert(es.take(n as int) =~= es);
        }
        let ghost total = infos@.len() as int;

        let mut sorted: Vec<ExpenseInfo> = Vec::new();
        while infos.len() > 0
            invariant
                sorted@.len() + infos@.len() == total,
                forall|i: int, j: int| 0 <= i < j < sorted@.len() ==> (#[trigger] sorted@[i]).date
                    >= (#[trigger] sorted@[j]).date,
                forall|j: int| 0 <= j < sorted@.len() ==> provenanced(
                    #[trigger] sorted@[j],
                    es,
                    ssv,
                    *filter,
                ),
                forall|j: int| 0 <= j < infos@.len() ==> provenanced(
                    #[trigger] infos@[j],
                    es,
                    ssv,
                    *filter,
                ),
            decreases infos@.len(),
        {
            let x = infos.pop().unwrap();
            let ghost s0 = sorted@;
            let m = sorted.len();
            let mut pos: usize = 0;
            while pos < m
                invariant
                    0 <= pos <= m,
                    m == sorted@.len(),
                    sorted@ == s0,
                    forall|i: int| 0 <= i < pos ==> (#[trigger] s0[i]).date >= x.date,
                decreases m - pos,
            {
                if sorted[pos].date >= x.date {
                    pos += 1;
                } else {
                    break ;
                }
            }
            proof {
                if pos < m {
                    assert(!(s0[pos as int].date >= x.date));
                }
            }
            sorted.insert(pos, x);
            proof {
                assert forall|i: int, j: int| 0 <= i < j < sorted@.len() implies
                    (#[trigger] sorted@[i]).date >= (#[trigger] sorted@[j]).date by {
                    if j < pos {
                        assert(sorted@[i] == s0[i] && sorted@[j] == s0[j]);
                    } else if i < pos && j == pos {
                        assert(sorted@[i] == s0[i]);
                    } else if i < pos && j > pos {
                        assert(sorted@[i] == s0[i] && sorted@[j] == s0[j - 1]);
                    } else if i == pos {
                        assert(sorted@[j] == s0[j - 1]);
                    } else {
                        assert(sorted@[i] == s0[i - 1] && sorted@[j] == s0[j - 1]);
                    }
                }
                assert forall|j: int| 0 <= j < sorted@.len() implies provenanced(
                    #[trigger] sorted@[j],
                    es,
                    ssv,
                    *filter,
                ) by {
                    if j < pos {
                        assert(sorted@[j] == s0[j]);
                    } else if j > pos {
                        assert(sorted@[j] == s0[j - 1]);
                    } else {
                        assert(sorted@[j] == x);
                    }
                }
            }
        }

        let total_found = sorted.len();
        let off = match filter.offset {
            Some(o) => o,
            None => 0,
        };
        let start = if off > total_found {
            total_found
        } else {
            off
        };
        let remaining = total_found - start;
        let lim = match filter.limit {
            Some(l) => l,
            None => remaining,
        };
        let count = if lim > remaining {
            remaining
        } else {
            lim
        };
        let mut out: Vec<ExpenseInfo> = Vec::new();
        let mut i: usize = 0;
        while i < count
            invariant
                0 <= i <= count,
                out@.len() == i,
                forall|j: int| 0 <= j < i ==> (#[trigger] out@[j]).date == sorted@[start + j].date,
                forall|j: int| 0 <= j < i ==> provenanced(#[trigger] out@[j], es, ssv, *filter),
            decreases count - i,
        {
            let item = copy_info(&sorted[start + i]);
            proof {
                let src = sorted@[start + i];
                assert(provenanced(src, es, ssv, *filter));
                let e = choose|e: Expense|
                    es.contains(e) && passes_filter(e, ssv, *filter) && info_of_expense(
                        src,
                        e,
                        ssv,
                    );
                assert(info_of_expense(item, e, ssv));
                assert(provenanced(item, es, ssv, *filter));
            }
            out.push(item);
            i += 1;
        }
        proof {
            assert forall|i2: int, j2: int| 0 <= i2 < j2 < out@.len() implies
                (#[trigger] out@[i2]).date >= (#[trigger] out@[j2]).date by {
                assert(sorted@[start + i2].date >= sorted@[start + j2].date);
            }
        }
        out
    }

    /// The expenses of one group, newest first, under the given page.
    pub fn get_group_expenses(
        &self,
        group_id: GroupId,
        limit: Option<usize>,
        offset: Option<usize>,
        shares: &Vec<ExpenseShare>,
    ) -> (r: Vec<ExpenseInfo>)
        ensures
            r@.len() == page_len(
                filtered_expenses(
                    self.expenses@,
                    shares@,
                    group_only_filter(group_id, limit, offset),
                ).len() as int,
                offset,
                limit,
            ),
            forall|j: int| 0 <= j < r@.len() ==> provenanced(
                #[trigger] r@[j],
                self.expenses@,
                shares@,
                group_only_filter(group_id, limit, offset),
            ),
            forall|i: int, j: int| 0 <= i < j < r@.len() ==> r@[i].date >= r@[j].date,
    {
        let filter = ExpenseFilter {
            group_id: Some(group_id),
            paid_by: None,
            involving_user: None,
            category: None,
            date_from: None,
            date_to: None,
            limit,
            offset,
        };
        proof {
            assert(filter == group_only_filter(group_id, limit, offset));
        }
        self.get_expenses(&filter, shares)
    }
}

/// In-memory store of expense shares.
pub struct InMemoryExpenseShareRepository {
    pub shares: Vec<ExpenseShare>,
}

impl InMemoryExpenseShareRepository {
    /// An empty store.
    pub fn new() -> (r: Self)
        ensures
            r.shares@.len() == 0,
    {
        InMemoryExpenseShareRepository { shares: Vec::new() }
    }

    /// Store one expense's share set, replacing any set previously stored
    /// under the same expense identity; an empty batch changes nothing.
    pub fn create_shares(&mut self, shares: &Vec<ExpenseShare>)
        requires
            old(self).shares@.len() + shares@.len() <= MAX_EVENTS,
        ensures
            shares@.len() == 0 ==> final(self).shares@ == old(self).shares@,
            shares@.len() > 0 ==> final(self).shares@ == without_shares(
                old(self).shares@,
                shares@[0].expense_id,
            ) + shares@,
    {
        if shares.len() == 0 {
            return ;
        }
        let eid = shares[0].expense_id;
        self.delete_expense_shares(eid);
        proof {
            lemma_without_shares(old(self).shares@, eid);
        }
        let ghost ss0 = self.shares@;
        let n = shares.len();
        let mut i: usize = 0;
        while i < n
            invariant
                n == shares@.len(),
                0 <= i <= n,
                self.shares@ == ss0 + shares@.take(i as int),
            decreases n - i,
        {
            self.shares.push(shares[i]);
            proof {
                assert(ss0 + shares@.take(i + 1 as int) =~= (ss0 + shares@.take(i as int)).push(
                    shares@[i as int],
                ));
            }
            i += 1;
        }
        proof {
            assert(ss0 + shares@.take(n as int) =~= ss0 + shares@);
        }
    }

    /// Fetch all shares of one expense.
    pub fn get_expense_shares(&self, expense_id: ExpenseId) -> (r: Vec<ExpenseShare>)
        ensures
            r@ == shares_of(self.shares@, expense_id),
    {
        let n = self.shares.len();
        let mut out: Vec<ExpenseShare> = Vec::new();
        let mut i: usize = 0;
        while i < n
            invariant
                n == self.shares@.len(),
                0 <= i <= n,
                out@ == shares_of(self.shares@.take(i as int), expense_id),
            decreases n - i,
        {
            proof {
                assert(self.shares@.take(i + 1 as int).drop_last() =~= self.shares@.take(i as int));
                assert(self.shares@.take(i + 1 as int).last() == self.shares@[i as int]);
            }
            if self.shares[i].expense_id == expense_id {
                out.push(self.shares[i]);
            }
            i += 1;
        }
        proof {
            assert(self.shares@.take(n as int) =~= self.shares@);
        }
        out
    }


    /// Update the amount and settled flag of one stored share, identified
    /// by its expense and user; unknown shares are left alone.
    #[verifier::loop_isolation(false)]
    pub fn update_share(&mut self, share: &ExpenseShare)
        requires
            forall|i: int, j: int| 0 <= i < j < old(self).shares@.len()
                ==> !((#[trigger] old(self).shares@[i]).expense_id
                    == (#[trigger] old(self).shares@[j]).expense_id
                    && old(self).shares@[i].user_id == old(self).shares@[j].user_id),
        ensures
            share_index(old(self).shares@, share.expense_id, share.user_id) >= 0
                ==> final(self).shares@ == old(self).shares@.update(
                share_index(old(self).shares@, share.expense_id, share.user_id),
                *share,
            ),
            share_index(old(self).shares@, share.expense_id, share.user_id) < 0
                ==> final(self).shares@ == old(self).shares@,
    {
        let ghost ss0 = self.shares@;
        proof {
            lemma_share_index(ss0, share.expense_id, share.user_id);
        }
        let n = self.shares.len();
        let mut i: usize = 0;
        while i < n
            invariant
                n == ss0.len(),
                self.shares@ == ss0,
                0 <= i <= n,
                forall|j: int| 0 <= j < i ==> !((#[trigger] ss0[j]).expense_id == share.expense_id
                    && ss0[j].user_id == share.user_id),
            decreases n - i,
        {
            if self.shares[i].expense_id == share.expense_id
                && self.shares[i].user_id == share.user_id {
                proof {
                    lemma_share_index(ss0, share.expense_id, share.user_id);
                    assert(share_index(ss0, share.expense_id, share.user_id) == i);
                }
                self.shares.set(i, *share);
                return ;
            }
            i += 1;
        }
        proof {
            lemma_share_index(ss0, share.expense_id, share.user_id);
        }
    }

    /// Remove all shares of one expense.
    pub fn delete_expense_shares(&mut self, expense_id: ExpenseId)
        ensures
            final(self).shares@ == without_shares(old(self).shares@, expense_id),
    {
        let ghost ss0 = self.shares@;
        let n = self.shares.len();
        let mut kept: Vec<ExpenseShare> = Vec::new();
        let mut i: usize = 0;
        while i < n
            invariant
                n == ss0.len(),
                self.shares@ == ss0,
                0 <= i <= n,
                kept@ == without_shares(ss0.take(i as int), expense_id),
            decreases n - i,
        {
            proof {
                assert(ss0.take(i + 1 as int).drop_last() =~= ss0.take(i as int));
                assert(ss0.take(i + 1 as int).last() == ss0[i as int]);
            }
            if self.shares[i].expense_id != expense_id {
                kept.push(self.shares[i]);
            }
            i += 1;
        }
        proof {
            assert(ss0.take(n as int) =~= ss0);
        }
        self.shares = kept;
    }

    /// Fetch one user's shares, optionally only those whose stored expense
    /// belongs to a group. A share whose expense is unknown passes the
    /// group filter.
    #[verifier::loop_isolation(false)]
    pub fn get_user_shares(
        &self,
        user_id: UserId,
        group_id: Option<GroupId>,
        expenses: &Vec<Expense>,
    ) -> (r: Vec<ExpenseShare>)
        ensures
            r@ == user_shares_of(self.shares@, expenses@, user_id, group_id),
    {
        let ghost ssv = self.shares@;
        let ghost esv = expenses@;
        let n = self.shares.len();
        let mut out: Vec<ExpenseShare> = Vec::new();
        let mut i: usize = 0;
        while i < n
            invariant
                0 <= i <= n,
                out@ == user_shares_of(ssv.take(i as int), esv, user_id, group_id),
            decreases n - i,
        {
            proof {
                assert(ssv.take(i + 1 as int).drop_last() =~= ssv.take(i as int));
                assert(ssv.take(i + 1 as int).last() == ssv[i as int]);
            }
            let s = self.shares[i];
            if s.user_id == user_id {
                let keep = match group_id {
                    None => true,
                    Some(g) => {
                        let mut matches_group = true;
                        let m = expenses.len();
                        let mut k: usize = 0;
                        while k < m
                            invariant
                                0 <= k <= m,
                                matches_group == (expense_index(esv.take(k as int), s.expense_id)
                                    == -1 || esv.take(k as int)[expense_index(
                                    esv.take(k as int),
                                    s.expense_id,
                                )].group_id == g),
                            decreases m - k,
                        {
                            proof {
                                lemma_expense_index_take_step(esv, s.expense_id, k as int);
                            }
                            if expenses[k].id == s.expense_id {
                                matches_group = expenses[k].group_id == g;
                            }
                            k += 1;
                        }
                        proof {
                            assert(esv.take(m as int) =~= esv);
                        }
                        matches_group
                    },
                };
                if keep {
                    out.push(s);
                }
            }
            i += 1;
        }
        proof {
            assert(ssv.take(n as int) =~= ssv);
        }
        out
    }
}

/// Whether one share passes the user-and-group filter: the holder matches,
/// and under a group filter the stored expense (when known) belongs to the
/// group; an unknown expense passes.
pub open spec fn share_kept(
    s: ExpenseShare,
    es: Seq<Expense>,
    uid: UserId,
    gopt: Option<GroupId>,
) -> bool {
    &&& s.user_id == uid
    &&& match gopt {
        None => true,
        Some(g) => expense_index(es, s.expense_id) == -1 || es[expense_index(
            es,
            s.expense_id,
        )].group_id == g,
    }
}

/// One user's shares under an optional group filter, in store order.
pub open spec fn user_shares_of(
    ss: Seq<ExpenseShare>,
    es: Seq<Expense>,
    uid: UserId,
    gopt: Option<GroupId>,
) -> Seq<ExpenseShare>
    decreases ss.len(),
{
    if ss.len() == 0 {
        Seq::empty()
    } else {
        let prev = user_shares_of(ss.drop_last(), es, uid, gopt);
        if share_kept(ss.last(), es, uid, gopt) {
            prev.push(ss.last())
        } else {
            prev
        }
    }
}

/// One more expense refines the index lookup.
proof fn lemma_expense_index_take_step(es: Seq<Expense>, eid: ExpenseId, k: int)
    requires
        0 <= k < es.len(),
    ensures
        expense_index(es.take(k + 1), eid) == if es[k].id == eid {
            k
        } else {
            expense_index(es.take(k), eid)
        },
        expense_index(es.take(k + 1), eid) != -1 ==> es.take(k + 1)[expense_index(
            es.take(k + 1),
            eid,
        )] == if es[k].id == eid {
            es[k]
        } else {
            es.take(k)[expense_index(es.take(k), eid)]
        },
    decreases es.len(),
{
    assert(es.take(k + 1).drop_last() =~= es.take(k));
    assert(es.take(k + 1).last() == es[k]);
    if es[k].id != eid {
        lemma_expense_index(es.take(k), eid);
    }
}

/// In-memory store of payments.
pub struct InMemoryPaymentRepository {
    pub payments: Vec<Payment>,
}

impl InMemoryPaymentRepository {
    /// An empty store.
    pub fn new() -> (r: Self)
        ensures
            r.payments@.len() == 0,
    {
        InMemoryPaymentRepository { payments: Vec::new() }
    }

    /// Store one payment.
    pub fn create_payment(&mut self, payment: &Payment)
        requires
            old(self).payments@.len() < MAX_EVENTS,
        ensures
            final(self).payments@ == old(self).payments@.push(*payment),
    {
        let p = copy_payment(payment);
        self.payments.push(p);
    }

    /// Fetch all payments of one group.
    pub fn get_group_payments(&self, group_id: GroupId) -> (r: Vec<Payment>)
        ensures
            r@ == payments_of_group(self.payments@, group_id),
    {
        let n = self.payments.len();
        let mut out: Vec<Payment> = Vec::new();
        let mut i: usize = 0;
        while i < n
            invariant
                n == self.payments@.len(),
                0 <= i <= n,
                out@ == payments_of_group(self.payments@.take(i as int), group_id),
            decreases n - i,
        {
            proof {
                assert(self.payments@.take(i + 1 as int).drop_last() =~= self.payments@.take(
                    i as int,
                ));
                assert(self.payments@.take(i + 1 as int).last() == self.payments@[i as int]);
            }
            if self.payments[i].group_id == group_id {
                let p = copy_payment(&self.payments[i]);
                out.push(p);
            }
            i += 1;
        }
        proof {
            assert(self.payments@.take(n as int) =~= self.payments@);
        }
        out
    }

    /// Fetch all payments one user pays or receives.
    pub fn get_user_payments(&self, user_id: UserId) -> (r: Vec<Payment>)
        ensures
            r@ == payments_of_user(self.payments@, user_id),
    {
        let n = self.payments.len();
        let mut out: Vec<Payment> = Vec::new();
        let mut i: usize = 0;
        while i < n
            invariant
                n == self.payments@.len(),
                0 <= i <= n,
                out@ == payments_of_user(self.payments@.take(i as int), user_id),
            decreases n - i,
        {
            proof {
                assert(self.payments@.take(i + 1 as int).drop_last() =~= self.payments@.take(
                    i as int,
                ));
                assert(self.payments@.take(i + 1 as int).last() == self.payments@[i as int]);
            }
            if self.payments[i].from_user == user_id || self.payments[i].to_user == user_id {
                let p = copy_payment(&self.payments[i]);
                out.push(p);
            }
            i += 1;
        }
        proof {
            assert(self.payments@.take(n as int) =~= self.payments@);
        }
        out
    }
}



/// Append a group unless it is already listed.
pub open spec fn add_group(s: Seq<GroupId>, g: GroupId) -> Seq<GroupId> {
    if s.contains(g) {
        s
    } else {
        s.push(g)
    }
}

/// The distinct groups the stored expenses mention, in first-appearance
/// order.
pub open spec fn distinct_groups(es: Seq<Expense>) -> Seq<GroupId>
    decreases es.len(),
{
    if es.len() == 0 {
        Seq::empty()
    } else {
        add_group(distinct_groups(es.drop_last()), es.last().group_id)
    }
}

/// The balances of one group, as any computation of them presents them
/// (they are unique, so any witness will do).
pub open spec fn the_balances(
    es: Seq<Expense>,
    ss: Seq<ExpenseShare>,
    ps: Seq<Payment>,
    gid: GroupId,
) -> Seq<crate::expense::UserBalance> {
    choose|bals: Seq<crate::expense::UserBalance>| is_group_balances(bals, es, ss, ps, gid)
}

/// The settling triples of one group: the greedy matching over its
/// balances.
pub open spec fn group_transfer_triples(
    es: Seq<Expense>,
    ss: Seq<ExpenseShare>,
    ps: Seq<Payment>,
    gid: GroupId,
) -> Seq<(UserId, UserId, i64)> {
    greedy_transfers(
        creditor_list(the_balances(es, ss, ps, gid)),
        debtor_list(the_balances(es, ss, ps, gid)),
    )
}

/// The triples that involve one user, in order.
pub open spec fn involving(g: Seq<(UserId, UserId, i64)>, u: UserId) -> Seq<(UserId, UserId, i64)>
    decreases g.len(),
{
    if g.len() == 0 {
        Seq::empty()
    } else {
        let prev = involving(g.drop_last(), u);
        if g.last().0 == u || g.last().1 == u {
            prev.push(g.last())
        } else {
            prev
        }
    }
}

/// One user's settling triples over the first `i` listed groups,
/// concatenated in group order.
pub open spec fn user_debt_triples(
    gs: Seq<GroupId>,
    es: Seq<Expense>,
    ss: Seq<ExpenseShare>,
    ps: Seq<Payment>,
    u: UserId,
    i: int,
) -> Seq<(UserId, UserId, i64)>
    decreases i,
{
    if i <= 0 {
        Seq::empty()
    } else {
        user_debt_triples(gs, es, ss, ps, u, i - 1) + involving(
            group_transfer_triples(es, ss, ps, gs[i - 1]),
            u,
        )
    }
}

/// Whether the list names this group.
fn contains_group(v: &Vec<GroupId>, g: GroupId) -> (r: bool)
    ensures
        r == v@.contains(g),
{
    let n = v.len();
    let mut i: usize = 0;
    while i < n
        invariant
            n == v@.len(),
            0 <= i <= n,
            forall|j: int| 0 <= j < i ==> v@[j] != g,
        decreases n - i,
    {
        if v[i] == g {
            proof {
                assert(v@[i as int] == g);
            }
            return true;
        }
        i += 1;
    }
    false
}

/// Balance computation over the stored events: a pure projection, owning
/// no rows of its own.
pub struct InMemoryBalanceRepository {
}

impl InMemoryBalanceRepository {
    /// A balance calculator.
    pub fn new() -> (r: Self)
    {
        InMemoryBalanceRepository {  }
    }

    /// Net balances of one group over the given events.
    pub fn calculate_group_balances(
        &self,
        group_id: GroupId,
        expenses: &Vec<Expense>,
        shares: &Vec<ExpenseShare>,
        payments: &Vec<Payment>,
    ) -> (r: GroupBalance)
        requires
            events_wf(expenses@, shares@, payments@),
        ensures
            r.group_id == group_id,
            is_group_balances(r.balances@, expenses@, shares@, payments@, group_id),
            unique_users(r.balances@),
            net_total(r.balances@) == group_expense_total(expenses@, group_id)
                - counted_share_total(shares@, expenses@, group_id),
            forall|j: int| 0 <= j < r.balances@.len()
                ==> -BALANCE_LIMIT_CENTS <= (#[trigger] r.balances@[j]).net_balance
                    <= BALANCE_LIMIT_CENTS,
    {
        compute_group_balances(group_id, expenses, shares, payments)
    }

    /// One user's net balance in one group; a user the events never touch
    /// owes and is owed nothing.
    pub fn calculate_user_balance(
        &self,
        user_id: UserId,
        group_id: GroupId,
        expenses: &Vec<Expense>,
        shares: &Vec<ExpenseShare>,
        payments: &Vec<Payment>,
    ) -> (r: i64)
        requires
            events_wf(expenses@, shares@, payments@),
        ensures
            r == balance_of(user_id, expenses@, shares@, payments@, group_id),
    {
        let gb = self.calculate_group_balances(group_id, expenses, shares, payments);
        let r = lookup_balance(&gb, user_id);
        proof {
            let b = gb.balances@;
            lemma_user_index(b, user_id);
            lemma_user_index_contains(b, user_id);
            if user_index(b, user_id) < 0 {
                let init_s = users_after_expenses(expenses@, group_id);
                lemma_untouched_payments(
                    crate::balance::users_after_shares(init_s, shares@, expenses@, group_id),
                    payments@,
                    group_id,
                    user_id,
                );
                lemma_untouched_shares(init_s, shares@, expenses@, group_id, user_id);
                lemma_untouched_expenses(expenses@, group_id, user_id);
            }
        }
        r
    }

    /// The settling transfers of one group: the resolver's greedy matching
    /// applied to the group's balances, whichever way those balances are
    /// presented.
    pub fn get_debt_summary(
        &self,
        group_id: GroupId,
        expenses: &Vec<Expense>,
        shares: &Vec<ExpenseShare>,
        payments: &Vec<Payment>,
    ) -> (r: Vec<DebtSummary>)
        requires
            events_wf(expenses@, shares@, payments@),
        ensures
            exists|bals: Seq<crate::expense::UserBalance>| #[trigger] is_group_balances(
                bals,
                expenses@,
                shares@,
                payments@,
                group_id,
            ),
            forall|bals: Seq<crate::expense::UserBalance>|
                #[trigger] is_group_balances(bals, expenses@, shares@, payments@, group_id)
                    ==> is_resolution(bals, r@) && transfers_match(
                    r@,
                    greedy_transfers(creditor_list(bals), debtor_list(bals)),
                ),
    {
        let gb = self.calculate_group_balances(group_id, expenses, shares, payments);
        let out = resolve(&gb);
        proof {
            assert(is_group_balances(gb.balances@, expenses@, shares@, payments@, group_id));
            assert forall|bals: Seq<crate::expense::UserBalance>|
                #[trigger] is_group_balances(bals, expenses@, shares@, payments@, group_id) implies
                is_resolution(bals, out@) && transfers_match(
                    out@,
                    greedy_transfers(creditor_list(bals), debtor_list(bals)),
                ) by {
                lemma_balances_deterministic(
                    bals,
                    gb.balances@,
                    expenses@,
                    shares@,
                    payments@,
                    group_id,
                );
            }
        }
        out
    }

    /// All settling transfers that involve one user: for every group the
    /// expenses mention, in first-appearance order, the user's entries of
    /// that group's settling transfers.
    #[verifier::loop_isolation(false)]
    pub fn get_user_debts(
        &self,
        user_id: UserId,
        expenses: &Vec<Expense>,
        shares: &Vec<ExpenseShare>,
        payments: &Vec<Payment>,
    ) -> (r: Vec<DebtSummary>)
        requires
            events_wf(expenses@, shares@, payments@),
        ensures
            forall|j: int| 0 <= j < r@.len() ==> (#[trigger] r@[j]).creditor_id == user_id
                || r@[j].debtor_id == user_id,
            transfers_match(
                r@,
                user_debt_triples(
                    distinct_groups(expenses@),
                    expenses@,
                    shares@,
                    payments@,
                    user_id,
                    distinct_groups(expenses@).len() as int,
                ),
            ),
    {
        let ghost es = expenses@;
        let mut group_ids: Vec<GroupId> = Vec::new();
        let n = expenses.len();
        let mut i: usize = 0;
        while i < n
            invariant
                0 <= i <= n,
                group_ids@ == distinct_groups(es.take(i as int)),
            decreases n - i,
        {
            proof {
                assert(es.take(i + 1 as int).drop_last() =~= es.take(i as int));
                assert(es.take(i + 1 as int).last() == es[i as int]);
            }
            let gid = expenses[i].group_id;
            if !contains_group(&group_ids, gid) {
                group_ids.push(gid);
            }
            i += 1;
        }
        proof {
            assert(es.take(n as int) =~= es);
        }
        let ghost gs = group_ids@;

        let mut out: Vec<DebtSummary> = Vec::new();
        let g = group_ids.len();
        let mut gi: usize = 0;
        while gi < g
            invariant
                0 <= gi <= g,
                triples_of(out@) == user_debt_triples(gs, es, shares@, payments@, user_id, gi as int),
                forall|j: int| 0 <= j < out@.len() ==> (#[trigger] out@[j]).currency@ == "USD"@,
                forall|j: int| 0 <= j < out@.len() ==> (#[trigger] out@[j]).creditor_id == user_id
                    || out@[j].debtor_id == user_id,
            decreases g - gi,
        {
            let transfers = self.get_debt_summary(group_ids[gi], expenses, shares, payments);
            proof {
                // the summary realises the group's pinned triples: any
                // balance witness will do, and one exists
                let gid = gs[gi as int];
                assert(is_group_balances(
                    the_balances(es, shares@, payments@, gid),
                    es,
                    shares@,
                    payments@,
                    gid,
                ));
                lemma_triples_index(transfers@);
                assert(triples_of(transfers@) =~= group_transfer_triples(
                    es,
                    shares@,
                    payments@,
                    gid,
                ));
            }
            let ghost gt = group_transfer_triples(es, shares@, payments@, gs[gi as int]);
            let t = transfers.len();
            let mut ti: usize = 0;
            while ti < t
                invariant
                    0 <= ti <= t,
                    t == gt.len(),
                    triples_of(transfers@) == gt,
                    triples_of(out@) == user_debt_triples(
                        gs,
                        es,
                        shares@,
                        payments@,
                        user_id,
                        gi as int,
                    ) + involving(gt.take(ti as int), user_id),
                    forall|j: int| 0 <= j < out@.len() ==> (#[trigger] out@[j]).currency@
                        == "USD"@,
                    forall|j: int| 0 <= j < out@.len() ==> (#[trigger] out@[j]).creditor_id
                        == user_id || out@[j].debtor_id == user_id,
                decreases t - ti,
            {
                proof {
                    assert(gt.take(ti + 1 as int).drop_last() =~= gt.take(ti as int));
                    assert(gt.take(ti + 1 as int).last() == gt[ti as int]);
                    lemma_triples_index(transfers@);
                }
                if transfers[ti].creditor_id == user_id || transfers[ti].debtor_id == user_id {
                    let d = DebtSummary {
                        creditor_id: transfers[ti].creditor_id,
                        debtor_id: transfers[ti].debtor_id,
                        amount: transfers[ti].amount,
                        currency: transfers[ti].currency.clone(),
                    };
                    proof {
                        lemma_triples_push(out@, d);
                    }
                    out.push(d);
                }
                ti += 1;
            }
            proof {
                assert(gt.take(t as int) =~= gt);
            }
            gi += 1;
        }
        proof {
            lemma_triples_index(out@);
        }
        out
    }
}

} // verus!
