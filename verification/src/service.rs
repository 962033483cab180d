//! The expense service: validated writes and derived reads over the
//! in-memory stores.
//!
//! The service owns one repository of each kind and keeps the store
//! invariants: expense identities are unique, every share belongs to a
//! stored expense, amounts are well formed, and an expense and its shares
//! are written together — a share can never dangle.

use vstd::prelude::*;
use vstd::string::*;
use crate::ids::{UserId, GroupId, ExpenseId, PaymentId};
use crate::money::{AMOUNT_LIMIT_CENTS, MAX_EVENTS};
use crate::expense::{
    Expense, ExpenseShare, ExpenseCreation, ExpenseInfo, SplitError, ValidationError, StoreError,
    CreateExpenseError, SettleDebtError, SettleDebt, GroupBalance, DebtSummary, UserBalance,
    expense_wf, share_wf, payment_wf,
};
use crate::split::{
    compute_shares, compute_shares_post, split_error_of, is_split_shares, split_wf,
};
use crate::util::unique_seq;
use crate::text::{trimmed_text, trim_text};
use crate::balance::{
    unique_expense_ids, events_wf, is_group_balances, unique_users, net_total, balance_of,
    group_expense_total, counted_share_total,
};
use crate::debt::{is_resolution, transfers_match, greedy_transfers, creditor_list, debtor_list};
use crate::money::BALANCE_LIMIT_CENTS;
use crate::expense::ExpenseFilter;
use crate::persistence::{
    InMemoryExpenseRepository, InMemoryExpenseShareRepository, InMemoryBalanceRepository,
    InMemoryPaymentRepository, expense_index, without_expense, without_shares, shares_of,
    lemma_expense_index, lemma_without_expense, lemma_without_shares, lemma_without_shares_absent,
    copy_opt_string,
    filtered_expenses, page_len, provenanced, group_only_filter, distinct_groups,
    user_debt_triples,
};

verus! {

/// Draw a fresh 128-bit identifier, or report that no randomness was to
/// be had.
///
/// Relies on getrandom's `fill` for the bytes and on uuid's
/// `Builder::from_random_bytes` to stamp them into a version-4 identifier.
/// Nothing is promised of the value — randomness guarantees neither
/// freshness nor anything else, so callers check for collisions.
#[verifier::external_body]
pub(crate) fn fresh_id_bits() -> Result<u128, ()> {
    let mut bytes = [0u8; 16];
    match getrandom::fill(&mut bytes) {
        Ok(()) => Ok(uuid::Builder::from_random_bytes(bytes).into_uuid().as_u128()),
        Err(_) => Err(()),
    }
}

/// Read the wall clock.
///
/// Relies on chrono's `Utc::now`: the current time, reduced to
/// milliseconds since the Unix epoch. Nothing is promised of the value —
/// the clock may report anything, and on a system clock before the Unix
/// epoch chrono stops the process.
#[verifier::external_body]
pub(crate) fn now_millis() -> i64 {
    chrono::Utc::now().timestamp_millis()
}

/// Whether the list names this user.
fn participants_contain(ps: &Vec<UserId>, u: UserId) -> (r: bool)
    ensures
        r == ps@.contains(u),
{
    let n = ps.len();
    let mut i: usize = 0;
    while i < n
        invariant
            n == ps@.len(),
            0 <= i <= n,
            forall|j: int| 0 <= j < i ==> ps@[j] != u,
        decreases n - i,
    {
        if ps[i] == u {
            proof {
                assert(ps@[i as int] == u);
            }
            return true;
        }
        i += 1;
    }
    false
}

/// Which error, if any, rejects an expense-creation request before its
/// split rule is even consulted. A description that is empty once trimmed
/// counts as empty.
pub open spec fn creation_validation_error(c: ExpenseCreation) -> Option<SplitError> {
    if trimmed_text(c.description@).len() == 0 {
        Some(SplitError::EmptyDescription)
    } else if c.amount <= 0 {
        Some(SplitError::NonPositiveAmount)
    } else if !c.participants@.contains(c.paid_by) {
        Some(SplitError::PayerNotParticipant)
    } else {
        None
    }
}

/// The stored expense mirrors the creation request: every field copied,
/// the description trimmed, the date defaulted to the creation time.
pub open spec fn stored_expense_matches(
    e: Expense,
    c: ExpenseCreation,
    created_by: UserId,
    eid: ExpenseId,
    now: i64,
) -> bool {
    &&& e.id == eid
    &&& e.group_id == c.group_id
    &&& e.description@ == trimmed_text(c.description@)
    &&& e.amount == c.amount
    &&& e.currency == c.currency
    &&& e.paid_by == c.paid_by
    &&& e.created_by == created_by
    &&& e.category == c.category
    &&& e.date == (match c.date {
        Some(d) => d,
        None => now,
    })
    &&& e.created_at == now
    &&& e.updated_at == now
}

/// The returned info mirrors the created expense and carries its shares.
pub open spec fn info_matches(
    info: ExpenseInfo,
    c: ExpenseCreation,
    created_by: UserId,
    eid: ExpenseId,
    now: i64,
) -> bool {
    &&& info.id == eid
    &&& info.group_id == c.group_id
    &&& info.description@ == trimmed_text(c.description@)
    &&& info.amount == c.amount
    &&& info.currency == c.currency
    &&& info.paid_by == c.paid_by
    &&& info.created_by == created_by
    &&& info.category == c.category
    &&& info.date == (match c.date {
        Some(d) => d,
        None => now,
    })
    &&& info.created_at == now
}

/// The bounds an expense-creation request must respect so that share
/// computation and storage stay within machine limits.
pub open spec fn creation_bounds(c: ExpenseCreation) -> bool {
    &&& c.amount <= AMOUNT_LIMIT_CENTS
    &&& 0 < c.participants@.len() <= MAX_EVENTS
    &&& unique_seq(c.participants@)
    &&& split_wf(c.split_type)
}

/// The service around the four stores.
pub struct ExpenseService {
    pub expense_repository: InMemoryExpenseRepository,
    pub share_repository: InMemoryExpenseShareRepository,
    pub balance_repository: InMemoryBalanceRepository,
    pub payment_repository: InMemoryPaymentRepository,
}

impl ExpenseService {
    /// The store invariants the service maintains.
    pub open spec fn wf(self) -> bool {
        &&& unique_expense_ids(self.expense_repository.expenses@)
        &&& self.expense_repository.expenses@.len() <= MAX_EVENTS
        &&& self.share_repository.shares@.len() <= MAX_EVENTS
        &&& self.payment_repository.payments@.len() <= MAX_EVENTS
        &&& forall|i: int| 0 <= i < self.expense_repository.expenses@.len() ==> expense_wf(
            #[trigger] self.expense_repository.expenses@[i],
        )
        &&& forall|i: int| 0 <= i < self.share_repository.shares@.len() ==> share_wf(
            #[trigger] self.share_repository.shares@[i],
        )
        &&& forall|i: int| 0 <= i < self.payment_repository.payments@.len() ==> payment_wf(
            #[trigger] self.payment_repository.payments@[i],
        )
        &&& forall|i: int| 0 <= i < self.share_repository.shares@.len() ==> expense_index(
            self.expense_repository.expenses@,
            (#[trigger] self.share_repository.shares@[i]).expense_id,
        ) >= 0
    }

    /// The stored events satisfy what a balance computation asks of them.
    pub proof fn lemma_wf_events(self)
        requires
            self.wf(),
        ensures
            events_wf(
                self.expense_repository.expenses@,
                self.share_repository.shares@,
                self.payment_repository.payments@,
            ),
    {
    }

    /// Assemble the service from its stores.
    pub fn new(
        expense_repository: InMemoryExpenseRepository,
        share_repository: InMemoryExpenseShareRepository,
        balance_repository: InMemoryBalanceRepository,
        payment_repository: InMemoryPaymentRepository,
    ) -> (r: Self)
        ensures
            r.expense_repository == expense_repository,
            r.share_repository == share_repository,
            r.balance_repository == balance_repository,
            r.payment_repository == payment_repository,
    {
        ExpenseService { expense_repository, share_repository, balance_repository, payment_repository }
    }

    /// Create an expense and its shares as one atomic step: the freshly
    /// allocated identity is handed to the share calculation, so every
    /// share carries the right expense from the moment it exists.
    pub fn create_expense_with_id(
        &mut self,
        creation: &ExpenseCreation,
        created_by: UserId,
        expense_id: ExpenseId,
        now: i64,
    ) -> (r: Result<ExpenseInfo, SplitError>)
        requires
            old(self).wf(),
            creation_bounds(*creation),
            expense_index(old(self).expense_repository.expenses@, expense_id) == -1,
            old(self).expense_repository.expenses@.len() < MAX_EVENTS,
            old(self).share_repository.shares@.len() + creation.participants@.len() <= MAX_EVENTS,
        ensures
            final(self).wf(),
            final(self).payment_repository == old(self).payment_repository,
            final(self).balance_repository == old(self).balance_repository,
            match creation_validation_error(*creation) {
                Some(e) => r == Result::<ExpenseInfo, SplitError>::Err(e) && *final(self)
                    == *old(self),
                None => match r {
                    Err(e) => {
                        &&& compute_shares_post(
                            Result::<Vec<ExpenseShare>, SplitError>::Err(e),
                            expense_id,
                            creation.amount as int,
                            creation.participants@,
                            creation.split_type,
                        )
                        &&& *final(self) == *old(self)
                    },
                    Ok(info) => {
                        &&& split_error_of(
                            creation.amount as int,
                            creation.participants@,
                            creation.split_type,
                        ) is None
                        &&& is_split_shares(
                            info.shares@,
                            expense_id,
                            creation.amount as int,
                            creation.participants@,
                            creation.split_type,
                        )
                        &&& info_matches(info, *creation, created_by, expense_id, now)
                        &&& final(self).expense_repository.expenses@.len() == old(
                            self,
                        ).expense_repository.expenses@.len() + 1
                        &&& final(self).expense_repository.expenses@.drop_last() == old(
                            self,
                        ).expense_repository.expenses@
                        &&& stored_expense_matches(
                            final(self).expense_repository.expenses@.last(),
                            *creation,
                            created_by,
                            expense_id,
                            now,
                        )
                        &&& final(self).share_repository.shares@ == old(
                            self,
                        ).share_repository.shares@ + info.shares@
                    },
                },
            },
    {
        let description = trim_text(creation.description.as_str());
        if description.as_str().is_empty() {
            return Err(SplitError::EmptyDescription);
        }
        if creation.amount <= 0 {
            return Err(SplitError::NonPositiveAmount);
        }
        if !participants_contain(&creation.participants, creation.paid_by) {
            return Err(SplitError::PayerNotParticipant);
        }
        let shares = match compute_shares(
            expense_id,
            creation.amount,
            &creation.participants,
            creation.paid_by,
            &creation.split_type,
        ) {
            Ok(s) => s,
            Err(e) => {
                return Err(e);
            },
        };
        let date = match creation.date {
            Some(d) => d,
            None => now,
        };
        let expense = Expense {
            id: expense_id,
            group_id: creation.group_id,
            description: description.clone(),
            amount: creation.amount,
            currency: creation.currency.clone(),
            paid_by: creation.paid_by,
            created_by,
            category: copy_opt_string(&creation.category),
            date,
            created_at: now,
            updated_at: now,
        };
        let ghost es0 = self.expense_repository.expenses@;
        let ghost ss0 = self.share_repository.shares@;
        self.expense_repository.create_expense(&expense);
        proof {
            assert forall|i: int| 0 <= i < ss0.len() implies (#[trigger] ss0[i]).expense_id
                != expense_id by {
                lemma_expense_index(es0, ss0[i].expense_id);
            }
            lemma_without_shares_absent(ss0, expense_id);
        }
        self.share_repository.create_shares(&shares);
        proof {
            let es1 = self.expense_repository.expenses@;
            let ss1 = self.share_repository.shares@;
            assert(ss1 == ss0 + shares@);
            lemma_expense_index(es0, expense_id);
            assert(unique_expense_ids(es1));
            assert forall|i: int| 0 <= i < ss1.len() implies expense_index(
                es1,
                (#[trigger] ss1[i]).expense_id,
            ) >= 0 by {
                assert(es1.drop_last() =~= es0);
                if i < ss0.len() {
                    assert(ss1[i] == ss0[i]);
                    lemma_expense_index(es0, ss0[i].expense_id);
                } else {
                    assert(ss1[i] == shares@[i - ss0.len()]);
                    assert(ss1[i].expense_id == expense_id);
                    assert(es1.last().id == expense_id);
                }
            }
        }
        let info = ExpenseInfo {
            id: expense_id,
            group_id: creation.group_id,
            description,
            amount: creation.amount,
            currency: creation.currency.clone(),
            paid_by: creation.paid_by,
            created_by,
            category: copy_opt_string(&creation.category),
            date,
            shares,
            created_at: now,
        };
        Ok(info)
    }

    /// Create an expense under a freshly drawn identity. The drawn
    /// identity is checked against the store: on a collision nothing is
    /// written and the store reports a duplicate.
    pub fn create_expense(&mut self, creation: &ExpenseCreation, created_by: UserId) -> (r: Result<
        ExpenseInfo,
        CreateExpenseError,
    >)
        requires
            old(self).wf(),
            creation_bounds(*creation),
        ensures
            final(self).wf(),
            final(self).payment_repository == old(self).payment_repository,
            ({
                let full = old(self).expense_repository.expenses@.len() >= MAX_EVENTS || old(
                    self,
                ).share_repository.shares@.len() + creation.participants@.len() > MAX_EVENTS;
                if full {
                    r == Result::<ExpenseInfo, CreateExpenseError>::Err(
                        CreateExpenseError::Store(StoreError::Full),
                    ) && *final(self) == *old(self)
                } else {
                    match r {
                        Err(CreateExpenseError::Store(StoreError::NoFreshId)) => *final(self)
                            == *old(self),
                        Err(CreateExpenseError::Store(StoreError::DuplicateId)) => {
                            // only an occupied store can collide, so on an
                            // empty store a valid request must succeed
                            &&& *final(self) == *old(self)
                            &&& old(self).expense_repository.expenses@.len() > 0
                        },
                        Err(CreateExpenseError::Store(StoreError::Full)) => false,
                        Err(CreateExpenseError::Split(e)) => {
                            &&& *final(self) == *old(self)
                            &&& match creation_validation_error(*creation) {
                                Some(e2) => e == e2,
                                None => split_error_of(
                                    creation.amount as int,
                                    creation.participants@,
                                    creation.split_type,
                                ) == Some(e),
                            }
                        },
                        Ok(info) => {
                            &&& creation_validation_error(*creation) is None
                            &&& split_error_of(
                                creation.amount as int,
                                creation.participants@,
                                creation.split_type,
                            ) is None
                            &&& is_split_shares(
                                info.shares@,
                                info.id,
                                creation.amount as int,
                                creation.participants@,
                                creation.split_type,
                            )
                            &&& final(self).expense_repository.expenses@.len() == old(
                                self,
                            ).expense_repository.expenses@.len() + 1
                            &&& final(self).expense_repository.expenses@.drop_last() == old(
                                self,
                            ).expense_repository.expenses@
                            &&& exists|now: i64| info_matches(info, *creation, created_by, info.id, now)
                                && #[trigger] stored_expense_matches(
                                final(self).expense_repository.expenses@.last(),
                                *creation,
                                created_by,
                                info.id,
                                now,
                            )
                            &&& final(self).share_repository.shares@ == old(
                                self,
                            ).share_repository.shares@ + info.shares@
                        },
                    }
                }
            }),
    {
        if self.expense_repository.expenses.len() >= MAX_EVENTS
            || self.share_repository.shares.len() > MAX_EVENTS - creation.participants.len() {
            return Err(CreateExpenseError::Store(StoreError::Full));
        }
        let expense_id = match fresh_id_bits() {
            Ok(bits) => ExpenseId(bits),
            Err(()) => {
                return Err(CreateExpenseError::Store(StoreError::NoFreshId));
            },
        };
        let now = now_millis();
        if self.expense_repository.get_expense_by_id(expense_id).is_some() {
            return Err(CreateExpenseError::Store(StoreError::DuplicateId));
        }
        match self.create_expense_with_id(creation, created_by, expense_id, now) {
            Ok(info) => Ok(info),
            Err(e) => Err(CreateExpenseError::Split(e)),
        }
    }

    /// Fetch one stored expense together with its shares.
    pub fn get_expense(&self, expense_id: ExpenseId) -> (r: Option<ExpenseInfo>)
        requires
            self.wf(),
        ensures
            match r {
                None => expense_index(self.expense_repository.expenses@, expense_id) == -1,
                Some(info) => {
                    let idx = expense_index(self.expense_repository.expenses@, expense_id);
                    let e = self.expense_repository.expenses@[idx];
                    &&& 0 <= idx < self.expense_repository.expenses@.len()
                    &&& info.id == e.id
                    &&& info.group_id == e.group_id
                    &&& info.description == e.description
                    &&& info.amount == e.amount
                    &&& info.currency == e.currency
                    &&& info.paid_by == e.paid_by
                    &&& info.created_by == e.created_by
                    &&& info.category == e.category
                    &&& info.date == e.date
                    &&& info.created_at == e.created_at
                    &&& info.shares@ == shares_of(self.share_repository.shares@, expense_id)
                },
            },
    {
        match self.expense_repository.get_expense_by_id(expense_id) {
            None => None,
            Some(e) => {
                let shares = self.share_repository.get_expense_shares(expense_id);
                Some(
                    ExpenseInfo {
                        id: e.id,
                        group_id: e.group_id,
                        description: e.description,
                        amount: e.amount,
                        currency: e.currency,
                        paid_by: e.paid_by,
                        created_by: e.created_by,
                        category: e.category,
                        date: e.date,
                        shares,
                        created_at: e.created_at,
                    },
                )
            },
        }
    }

    /// Delete one expense and its shares together: both vanish, or (for an
    /// unknown identity) nothing changes.
    pub fn delete_expense(&mut self, expense_id: ExpenseId)
        requires
            old(self).wf(),
        ensures
            final(self).wf(),
            final(self).payment_repository == old(self).payment_repository,
            final(self).expense_repository.expenses@ == without_expense(
                old(self).expense_repository.expenses@,
                expense_id,
            ),
            final(self).share_repository.shares@ == without_shares(
                old(self).share_repository.shares@,
                expense_id,
            ),
    {
        let ghost es0 = self.expense_repository.expenses@;
        let ghost ss0 = self.share_repository.shares@;
        self.share_repository.delete_expense_shares(expense_id);
        self.expense_repository.delete_expense(expense_id);
        proof {
            let es1 = self.expense_repository.expenses@;
            let ss1 = self.share_repository.shares@;
            lemma_without_expense(es0, expense_id);
            lemma_without_shares(ss0, expense_id);
            assert forall|i: int| 0 <= i < ss1.len() implies expense_index(
                es1,
                (#[trigger] ss1[i]).expense_id,
            ) >= 0 by {
                let s = ss1[i];
                let i0 = choose|i0: int| 0 <= i0 < ss0.len() && ss0[i0] == s;
                lemma_expense_index(es0, s.expense_id);
                let j0 = expense_index(es0, s.expense_id);
                assert(es0[j0].id == s.expense_id);
                assert(es1.contains(es0[j0]));
                let j1 = choose|j1: int| 0 <= j1 < es1.len() && es1[j1] == es0[j0];
                lemma_expense_index(es1, s.expense_id);
                assert(es1[j1].id == s.expense_id);
            }
            assert forall|i: int| 0 <= i < es1.len() implies expense_wf(#[trigger] es1[i]) by {
                let i0 = choose|i0: int| 0 <= i0 < es0.len() && es0[i0] == es1[i];
            }
            assert forall|i: int| 0 <= i < ss1.len() implies share_wf(#[trigger] ss1[i]) by {
                let i0 = choose|i0: int| 0 <= i0 < ss0.len() && ss0[i0] == ss1[i];
            }
        }
    }

    /// Net balances of one group over the stored events.
    pub fn get_group_balances(&self, group_id: GroupId) -> (r: GroupBalance)
        requires
            self.wf(),
        ensures
            r.group_id == group_id,
            is_group_balances(
                r.balances@,
                self.expense_repository.expenses@,
                self.share_repository.shares@,
                self.payment_repository.payments@,
                group_id,
            ),
            unique_users(r.balances@),
            net_total(r.balances@) == group_expense_total(
                self.expense_repository.expenses@,
                group_id,
            ) - counted_share_total(
                self.share_repository.shares@,
                self.expense_repository.expenses@,
                group_id,
            ),
            forall|j: int| 0 <= j < r.balances@.len()
                ==> -BALANCE_LIMIT_CENTS <= (#[trigger] r.balances@[j]).net_balance
                    <= BALANCE_LIMIT_CENTS,
    {
        proof {
            self.lemma_wf_events();
        }
        self.balance_repository.calculate_group_balances(
            group_id,
            &self.expense_repository.expenses,
            &self.share_repository.shares,
            &self.payment_repository.payments,
        )
    }

    /// One user's net balance in one group.
    pub fn get_user_balance(&self, user_id: UserId, group_id: GroupId) -> (r: i64)
        requires
            self.wf(),
        ensures
            r == balance_of(
                user_id,
                self.expense_repository.expenses@,
                self.share_repository.shares@,
                self.payment_repository.payments@,
                group_id,
            ),
    {
        proof {
            self.lemma_wf_events();
        }
        self.balance_repository.calculate_user_balance(
            user_id,
            group_id,
            &self.expense_repository.expenses,
            &self.share_repository.shares,
            &self.payment_repository.payments,
        )
    }

    /// The settling transfers of one group: the resolver's greedy matching
    /// over the group's balances, however those balances are presented.
    pub fn get_debt_summary(&self, group_id: GroupId) -> (r: Vec<DebtSummary>)
        requires
            self.wf(),
        ensures
            exists|bals: Seq<UserBalance>| #[trigger] is_group_balances(
                bals,
                self.expense_repository.expenses@,
                self.share_repository.shares@,
                self.payment_repository.payments@,
                group_id,
            ),
            forall|bals: Seq<UserBalance>| #[trigger] is_group_balances(
                bals,
                self.expense_repository.expenses@,
                self.share_repository.shares@,
                self.payment_repository.payments@,
                group_id,
            ) ==> is_resolution(bals, r@) && transfers_match(
                r@,
                greedy_transfers(creditor_list(bals), debtor_list(bals)),
            ),
    {
        proof {
            self.lemma_wf_events();
        }
        self.balance_repository.get_debt_summary(
            group_id,
            &self.expense_repository.expenses,
            &self.share_repository.shares,
            &self.payment_repository.payments,
        )
    }

    /// All settling transfers involving one user: for every stored group,
    /// in first-appearance order, the user's entries of that group's
    /// settling transfers.
    pub fn get_user_debts(&self, user_id: UserId) -> (r: Vec<DebtSummary>)
        requires
            self.wf(),
        ensures
            forall|j: int| 0 <= j < r@.len() ==> (#[trigger] r@[j]).creditor_id == user_id
                || r@[j].debtor_id == user_id,
            transfers_match(
                r@,
                user_debt_triples(
                    distinct_groups(self.expense_repository.expenses@),
                    self.expense_repository.expenses@,
                    self.share_repository.shares@,
                    self.payment_repository.payments@,
                    user_id,
                    distinct_groups(self.expense_repository.expenses@).len() as int,
                ),
            ),
    {
        proof {
            self.lemma_wf_events();
        }
        self.balance_repository.get_user_debts(
            user_id,
            &self.expense_repository.expenses,
            &self.share_repository.shares,
            &self.payment_repository.payments,
        )
    }

    /// The expenses of one group, newest first, under the given page.
    pub fn get_group_expenses(
        &self,
        group_id: GroupId,
        limit: Option<usize>,
        offset: Option<usize>,
    ) -> (r: Vec<ExpenseInfo>)
        ensures
            r@.len() == page_len(
                filtered_expenses(
                    self.expense_repository.expenses@,
                    self.share_repository.shares@,
                    group_only_filter(group_id, limit, offset),
                ).len() as int,
                offset,
                limit,
            ),
            forall|j: int| 0 <= j < r@.len() ==> provenanced(
                #[trigger] r@[j],
                self.expense_repository.expenses@,
                self.share_repository.shares@,
                group_only_filter(group_id, limit, offset),
            ),
            forall|i: int, j: int| 0 <= i < j < r@.len() ==> r@[i].date >= r@[j].date,
    {
        self.expense_repository.get_group_expenses(
            group_id,
            limit,
            offset,
            &self.share_repository.shares,
        )
    }

    /// Search the stored expenses under a caller-supplied filter.
    pub fn search_expenses(&self, filter: &ExpenseFilter) -> (r: Vec<ExpenseInfo>)
        ensures
            r@.len() == page_len(
                filtered_expenses(
                    self.expense_repository.expenses@,
                    self.share_repository.shares@,
                    *filter,
                ).len() as int,
                filter.offset,
                filter.limit,
            ),
            forall|j: int| 0 <= j < r@.len() ==> provenanced(
                #[trigger] r@[j],
                self.expense_repository.expenses@,
                self.share_repository.shares@,
                *filter,
            ),
            forall|i: int, j: int| 0 <= i < j < r@.len() ==> r@[i].date >= r@[j].date,
    {
        self.expense_repository.get_expenses(filter, &self.share_repository.shares)
    }

    /// Record a settlement between a creditor and a debtor under the given
    /// payment identity and time. The debtor — the party who actually pays
    /// — is stored as the payment's `from_user`: the balance aggregation
    /// credits `from_user` and debits `to_user`, which moves both
    /// positions toward zero.
    ///
    /// No expense share is marked settled by this: how a settlement should
    /// be allocated to individual shares is left open, and the ledger nets
    /// purely at the balance level.
    pub fn settle_debt_with_id(
        &mut self,
        group_id: GroupId,
        settle: &SettleDebt,
        payment_id: PaymentId,
        now: i64,
    ) -> (r: Result<(), ValidationError>)
        requires
            old(self).wf(),
            settle.amount <= AMOUNT_LIMIT_CENTS,
            old(self).payment_repository.payments@.len() < MAX_EVENTS,
        ensures
            final(self).wf(),
            final(self).expense_repository == old(self).expense_repository,
            final(self).share_repository == old(self).share_repository,
            settle.amount <= 0 ==> r == Result::<(), ValidationError>::Err(
                ValidationError::NonPositiveAmount,
            ) && *final(self) == *old(self),
            settle.amount > 0 && settle.creditor_id == settle.debtor_id ==> r == Result::<
                (),
                ValidationError,
            >::Err(ValidationError::PayerIsPayee) && *final(self) == *old(self),
            settle.amount > 0 && settle.creditor_id != settle.debtor_id ==> {
                let ps0 = old(self).payment_repository.payments@;
                let ps1 = final(self).payment_repository.payments@;
                &&& r == Result::<(), ValidationError>::Ok(())
                &&& ps1.len() == ps0.len() + 1
                &&& ps1.drop_last() == ps0
                &&& ps1.last().id == payment_id
                &&& ps1.last().group_id == group_id
                &&& ps1.last().from_user == settle.debtor_id
                &&& ps1.last().to_user == settle.creditor_id
                &&& ps1.last().amount == settle.amount
                &&& ps1.last().currency@ == "USD"@
                &&& ps1.last().description@ == "Debt settlement: $"@ + crate::text::money_text(
                    settle.amount as nat,
                )
                &&& ps1.last().created_at == now
            },
    {
        let mut description = String::from_str("Debt settlement: $");
        let amount_text = crate::text::money_text_of(settle.amount as u64);
        description.append(amount_text.as_str());
        let payment = match crate::settlement::record_payment(
            payment_id,
            group_id,
            settle.debtor_id,
            settle.creditor_id,
            settle.amount,
            String::from_str("USD"),
            description,
            now,
        ) {
            Ok(p) => p,
            Err(e) => {
                return Err(e);
            },
        };
        self.payment_repository.create_payment(&payment);
        proof {
            let ps1 = self.payment_repository.payments@;
            assert(ps1.drop_last() =~= old(self).payment_repository.payments@);
        }
        Ok(())
    }

    /// Record a settlement under a freshly drawn payment identity at the
    /// current time.
    #[allow(unused_variables)]
    pub fn settle_debt(&mut self, group_id: GroupId, settle: &SettleDebt, settled_by: UserId) -> (r:
        Result<(), SettleDebtError>)
        requires
            old(self).wf(),
            settle.amount <= AMOUNT_LIMIT_CENTS,
        ensures
            final(self).wf(),
            final(self).expense_repository == old(self).expense_repository,
            final(self).share_repository == old(self).share_repository,
            old(self).payment_repository.payments@.len() >= MAX_EVENTS ==> r == Result::<
                (),
                SettleDebtError,
            >::Err(SettleDebtError::Store(StoreError::Full)) && *final(self) == *old(self),
            old(self).payment_repository.payments@.len() < MAX_EVENTS && r == Result::<
                (),
                SettleDebtError,
            >::Err(SettleDebtError::Store(StoreError::NoFreshId)) ==> *final(self) == *old(self),
            old(self).payment_repository.payments@.len() < MAX_EVENTS && r != Result::<
                (),
                SettleDebtError,
            >::Err(SettleDebtError::Store(StoreError::NoFreshId)) ==> {
                &&& (settle.amount <= 0 ==> r == Result::<(), SettleDebtError>::Err(
                    SettleDebtError::Validation(ValidationError::NonPositiveAmount),
                ) && *final(self) == *old(self))
                &&& (settle.amount > 0 && settle.creditor_id == settle.debtor_id ==> r == Result::<
                    (),
                    SettleDebtError,
                >::Err(SettleDebtError::Validation(ValidationError::PayerIsPayee)) && *final(self)
                    == *old(self))
                &&& (settle.amount > 0 && settle.creditor_id != settle.debtor_id ==> {
                    let ps0 = old(self).payment_repository.payments@;
                    let ps1 = final(self).payment_repository.payments@;
                    &&& r == Result::<(), SettleDebtError>::Ok(())
                    &&& ps1.len() == ps0.len() + 1
                    &&& ps1.drop_last() == ps0
                    &&& ps1.last().group_id == group_id
                    &&& ps1.last().from_user == settle.debtor_id
                    &&& ps1.last().to_user == settle.creditor_id
                    &&& ps1.last().amount == settle.amount
                    &&& ps1.last().currency@ == "USD"@
                    &&& ps1.last().description@ == "Debt settlement: $"@
                        + crate::text::money_text(settle.amount as nat)
                })
            },
    {
        if self.payment_repository.payments.len() >= MAX_EVENTS {
            return Err(SettleDebtError::Store(StoreError::Full));
        }
        let payment_id = match fresh_id_bits() {
            Ok(bits) => PaymentId(bits),
            Err(()) => {
                return Err(SettleDebtError::Store(StoreError::NoFreshId));
            },
        };
        let now = now_millis();
        match self.settle_debt_with_id(group_id, settle, payment_id, now) {
            Ok(()) => Ok(()),
            Err(e) => Err(SettleDebtError::Validation(e)),
        }
    }
}

} // verus!
