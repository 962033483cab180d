//! Money as integer minor units (cents), with the ledger-wide tolerance.

use vstd::prelude::*;

verus! {

/// One cent: every comparison of money sums in the ledger tolerates a
/// deviation of at most this much.
pub const TOLERANCE_CENTS: i64 = 1;

/// Largest amount (in cents) a single expense, share or payment may carry.
/// Keeping every event under this bound lets the ledger accumulate balances
/// in `i64` without overflow.
pub const AMOUNT_LIMIT_CENTS: i64 = 10_000_000_000;

/// Largest number of events (expenses, shares or payments) a single balance
/// computation accepts; together with `AMOUNT_LIMIT_CENTS` this keeps every
/// running total inside `i64`.
pub const MAX_EVENTS: usize = 1_000_000;

/// Percentages are scaled by 100: `10000` stands for 100.00 percent.
pub const PERCENT_SCALE: i64 = 10000;

/// A percentage sum may deviate from 100% by at most this much
/// (one hundredth of a percent).
pub const PERCENT_TOLERANCE: i64 = 1;

/// Largest single percentage entry a split map may carry.
pub const PERCENT_ENTRY_LIMIT: i64 = 1_000_000;

/// Largest amount (in cents) any single ledger event may move. A share of
/// a percentage split may exceed its expense's total by a sliver (one
/// participant may hold a hair over one hundred percent), so this sits
/// above `AMOUNT_LIMIT_CENTS`.
pub const EVENT_LIMIT_CENTS: i64 = 20_000_000_000;

/// Largest net balance the ledger can produce: every computation reads at
/// most `MAX_EVENTS` expenses, shares and payments, each moving at most
/// `EVENT_LIMIT_CENTS` (payments move money twice).
pub const BALANCE_LIMIT_CENTS: i64 = 80_000_000_000_000_000;

/// An amount usable as the total of an expense or a payment: positive and
/// small enough for the ledger's arithmetic.
pub open spec fn valid_amount(a: i64) -> bool {
    0 < a <= AMOUNT_LIMIT_CENTS
}

/// An amount usable as a single share of an expense: shares may be zero
/// (a participant with weight zero) and, for exact splits, negative.
pub open spec fn bounded_amount(a: i64) -> bool {
    -EVENT_LIMIT_CENTS <= a <= EVENT_LIMIT_CENTS
}

/// Whether a positive amount is usable as an expense or payment total.
pub fn is_valid_amount(a: i64) -> (r: bool)
    ensures
        r == valid_amount(a),
{
    0 < a && a <= AMOUNT_LIMIT_CENTS
}

} // verus!
