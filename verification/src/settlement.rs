//! The settlement recorder: turning a completed real-world transfer into a
//! well-formed payment event.
//!
//! Recording only checks that the data is well formed; it does not verify
//! that the transfer happened, and it never marks any expense share as
//! settled — settlement stays a ledger-level netting concern.

use vstd::prelude::*;
use crate::ids::{UserId, GroupId, PaymentId};
use crate::money::AMOUNT_LIMIT_CENTS;
use crate::expense::{Payment, ValidationError, payment_wf};

verus! {

/// Build the payment event for a completed transfer: the amount must be
/// positive and the two parties distinct.
pub fn record_payment(
    id: PaymentId,
    group_id: GroupId,
    from_user: UserId,
    to_user: UserId,
    amount: i64,
    currency: String,
    description: String,
    now: i64,
) -> (r: Result<Payment, ValidationError>)
    requires
        amount <= AMOUNT_LIMIT_CENTS,
    ensures
        amount <= 0 ==> r == Result::<Payment, ValidationError>::Err(
            ValidationError::NonPositiveAmount,
        ),
        amount > 0 && from_user == to_user ==> r == Result::<Payment, ValidationError>::Err(
            ValidationError::PayerIsPayee,
        ),
        amount > 0 && from_user != to_user ==> match r {
            Ok(p) => {
                &&& p.id == id
                &&& p.group_id == group_id
                &&& p.from_user == from_user
                &&& p.to_user == to_user
                &&& p.amount == amount
                &&& p.currency == currency
                &&& p.description == description
                &&& p.created_at == now
                &&& payment_wf(p)
            },
            Err(_) => false,
        },
{
    if amount <= 0 {
        return Err(ValidationError::NonPositiveAmount);
    }
    if from_user == to_user {
        return Err(ValidationError::PayerIsPayee);
    }
    Ok(
        Payment {
            id,
            group_id,
            from_user,
            to_user,
            amount,
            currency,
            description,
            created_at: now,
        },
    )
}

} // verus!
