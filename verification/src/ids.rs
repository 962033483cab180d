//! Identifiers for users, groups, expenses and payments.
//!
//! An identifier is a 128-bit value (the width of a UUID); the engine only
//! ever compares identifiers for equality or orders them as integers, so it
//! carries them as plain numbers.

use vstd::prelude::*;

verus! {

/// Identity of a user.
#[derive(Clone, Copy, Debug, PartialEq, Eq, Structural, Hash)]
pub struct UserId(pub u128);

/// Identity of a group of users.
#[derive(Clone, Copy, Debug, PartialEq, Eq, Structural, Hash)]
pub struct GroupId(pub u128);

/// Identity of an expense.
#[derive(Clone, Copy, Debug, PartialEq, Eq, Structural, Hash)]
pub struct ExpenseId(pub u128);

/// Identity of a payment.
#[derive(Clone, Copy, Debug, PartialEq, Eq, Structural, Hash)]
pub struct PaymentId(pub u128);

/// Identity of a chore.
#[derive(Clone, Copy, Debug, PartialEq, Eq, Structural, Hash)]
pub struct ChoreId(pub u128);

/// Identity of a calendar event.
#[derive(Clone, Copy, Debug, PartialEq, Eq, Structural, Hash)]
pub struct EventId(pub u128);

} // verus!
