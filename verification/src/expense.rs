//! Domain types of the expense-sharing ledger.
//!
//! Amounts are integer cents. Timestamps are milliseconds since the Unix
//! epoch. Balances are derived values: positive means the group owes the
//! user, negative means the user owes the group.

use vstd::prelude::*;
use crate::ids::{UserId, GroupId, ExpenseId, PaymentId};
use crate::money::{valid_amount, bounded_amount};

verus! {

/// A stored expense: one purchase paid by one user on behalf of a group.
#[derive(Clone, Debug)]
pub struct Expense {
    pub id: ExpenseId,
    pub group_id: GroupId,
    pub description: String,
    /// Total amount in cents; always positive.
    pub amount: i64,
    pub currency: String,
    /// User who paid the expense.
    pub paid_by: UserId,
    /// User who created the expense entry.
    pub created_by: UserId,
    pub category: Option<String>,
    pub date: i64,
    pub created_at: i64,
    pub updated_at: i64,
}

/// One user's portion of an expense's total cost.
#[derive(Clone, Copy, Debug, PartialEq, Eq, Structural)]
pub struct ExpenseShare {
    pub expense_id: ExpenseId,
    pub user_id: UserId,
    /// Amount this user owes for this expense, in cents.
    pub amount: i64,
    pub is_settled: bool,
}

/// The rule by which an expense's total is divided into shares.
///
/// The map-carrying variants hold one entry per user; keys are unique.
#[derive(Clone, Debug)]
pub enum SplitType {
    /// Split equally among the participants.
    Equal,
    /// Exact amount per user, in cents; the amounts must sum to the total.
    Exact(Vec<(UserId, i64)>),
    /// Percentage per user, in hundredths of a percent (`10000` is 100%);
    /// the percentages must sum to 100%.
    Percentage(Vec<(UserId, i64)>),
    /// Integer weight per user; each share is proportional to its weight.
    ByShares(Vec<(UserId, u32)>),
}

/// A request to create an expense together with its shares.
#[derive(Clone, Debug)]
pub struct ExpenseCreation {
    pub group_id: GroupId,
    pub description: String,
    pub amount: i64,
    pub currency: String,
    pub paid_by: UserId,
    pub split_type: SplitType,
    /// Users involved in the expense.
    pub participants: Vec<UserId>,
    pub category: Option<String>,
    /// Optional expense date; the creation time is used when absent.
    pub date: Option<i64>,
}

/// A stored expense together with its shares, as returned to callers.
#[derive(Clone, Debug)]
pub struct ExpenseInfo {
    pub id: ExpenseId,
    pub group_id: GroupId,
    pub description: String,
    pub amount: i64,
    pub currency: String,
    pub paid_by: UserId,
    pub created_by: UserId,
    pub category: Option<String>,
    pub date: i64,
    pub shares: Vec<ExpenseShare>,
    pub created_at: i64,
}

/// A user's net position within a group, in cents.
#[derive(Clone, Copy, Debug, PartialEq, Eq, Structural)]
pub struct UserBalance {
    pub user_id: UserId,
    /// Positive: the group owes this user; negative: this user owes the group.
    pub net_balance: i64,
}

/// The complete set of net balances of one group.
#[derive(Clone, Debug, PartialEq, Eq)]
pub struct GroupBalance {
    pub group_id: GroupId,
    pub balances: Vec<UserBalance>,
}

/// One recommended settling transfer between two users.
#[derive(Clone, Debug, PartialEq, Eq)]
pub struct DebtSummary {
    pub creditor_id: UserId,
    pub debtor_id: UserId,
    pub amount: i64,
    pub currency: String,
}

/// A request to settle (part of) a debt between two users.
#[derive(Clone, Copy, Debug)]
pub struct SettleDebt {
    pub creditor_id: UserId,
    pub debtor_id: UserId,
    pub amount: i64,
}

/// A recorded real-world transfer that offsets ledger balances.
///
/// `from_user` is the payer and `to_user` the payee: the balance
/// aggregation adds `amount` to `from_user`'s balance (they put money in)
/// and subtracts it from `to_user`'s (they were made whole). A settlement
/// therefore records the debtor as `from_user` and the creditor as
/// `to_user`, and moves both positions toward zero.
#[derive(Clone, Debug)]
pub struct Payment {
    pub id: PaymentId,
    pub group_id: GroupId,
    pub from_user: UserId,
    pub to_user: UserId,
    pub amount: i64,
    pub currency: String,
    pub description: String,
    pub created_at: i64,
}

/// Criteria for searching stored expenses.
#[derive(Clone, Debug)]
pub struct ExpenseFilter {
    pub group_id: Option<GroupId>,
    pub paid_by: Option<UserId>,
    pub involving_user: Option<UserId>,
    pub category: Option<String>,
    pub date_from: Option<i64>,
    pub date_to: Option<i64>,
    pub limit: Option<usize>,
    pub offset: Option<usize>,
}

/// Why an expense-creation request was rejected. All of these mean the
/// request itself is wrong and must be corrected by the caller.
#[derive(Clone, Copy, Debug, PartialEq, Eq, Structural)]
pub enum SplitError {
    /// The description is empty.
    EmptyDescription,
    /// The total amount is zero or negative.
    NonPositiveAmount,
    /// The payer is not among the participants (also covers an empty
    /// participant list).
    PayerNotParticipant,
    /// A participant has no entry in the split's map.
    MissingAllocation,
    /// The map's amounts do not sum to the total (or the percentages do
    /// not sum to 100%).
    AllocationMismatch,
    /// The share weights sum to zero.
    ZeroTotalShares,
}

/// Why a payment request was rejected.
#[derive(Clone, Copy, Debug, PartialEq, Eq, Structural)]
pub enum ValidationError {
    /// The payment amount is zero or negative.
    NonPositiveAmount,
    /// Payer and payee are the same user.
    PayerIsPayee,
}

/// Why a write to the in-memory store failed.
#[derive(Clone, Copy, Debug, PartialEq, Eq, Structural)]
pub enum StoreError {
    /// A record with this identity already exists.
    DuplicateId,
    /// The store holds as many events as a balance computation accepts.
    Full,
    /// No fresh identity could be drawn: the randomness source failed.
    NoFreshId,
}

/// Why `create_expense` failed: either the request was invalid, or the
/// store refused the write.
#[derive(Clone, Copy, Debug, PartialEq, Eq, Structural)]
pub enum CreateExpenseError {
    Split(SplitError),
    Store(StoreError),
}

/// Why `settle_debt` failed.
#[derive(Clone, Copy, Debug, PartialEq, Eq, Structural)]
pub enum SettleDebtError {
    Validation(ValidationError),
    Store(StoreError),
}

/// A stored expense is well formed when its amount is positive and small
/// enough for the ledger's arithmetic.
pub open spec fn expense_wf(e: Expense) -> bool {
    valid_amount(e.amount)
}

/// A stored share is well formed when its amount is bounded; share amounts
/// may be zero or (for exact splits) negative.
pub open spec fn share_wf(s: ExpenseShare) -> bool {
    bounded_amount(s.amount)
}

/// A stored payment is well formed when its amount is positive, bounded,
/// and moves money between two distinct users.
pub open spec fn payment_wf(p: Payment) -> bool {
    valid_amount(p.amount) && p.from_user != p.to_user
}

} // verus!
