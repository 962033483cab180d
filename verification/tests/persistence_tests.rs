use twodo_backend::expense::{Expense, ExpenseShare, Payment, ValidationError};
use twodo_backend::ids::{ExpenseId, GroupId, PaymentId, UserId};
use twodo_backend::persistence::{
    InMemoryExpenseRepository, InMemoryExpenseShareRepository, InMemoryPaymentRepository,
};
use twodo_backend::settlement::record_payment;

fn expense(id: u128, gid: u128, amount: i64) -> Expense {
    Expense {
        id: ExpenseId(id),
        group_id: GroupId(gid),
        description: "thing".to_string(),
        amount,
        currency: "USD".to_string(),
        paid_by: UserId(1),
        created_by: UserId(1),
        category: None,
        date: 10,
        created_at: 10,
        updated_at: 10,
    }
}

fn share(eid: u128, uid: u128, amount: i64) -> ExpenseShare {
    ExpenseShare { expense_id: ExpenseId(eid), user_id: UserId(uid), amount, is_settled: false }
}

#[test]
fn expense_store_round_trip() {
    let mut repo = InMemoryExpenseRepository::new();
    repo.create_expense(&expense(1, 9, 500));
    repo.create_expense(&expense(2, 9, 700));
    let found = repo.get_expense_by_id(ExpenseId(2)).unwrap();
    assert_eq!(found.amount, 700);
    assert!(repo.get_expense_by_id(ExpenseId(3)).is_none());
    repo.delete_expense(ExpenseId(1));
    assert!(repo.get_expense_by_id(ExpenseId(1)).is_none());
    assert_eq!(repo.expenses.len(), 1);
}

#[test]
fn update_expense_replaces_by_identity() {
    let mut repo = InMemoryExpenseRepository::new();
    repo.create_expense(&expense(1, 9, 500));
    repo.update_expense(&expense(1, 9, 900));
    assert_eq!(repo.expenses.len(), 1);
    assert_eq!(repo.get_expense_by_id(ExpenseId(1)).unwrap().amount, 900);
    repo.update_expense(&expense(2, 9, 100));
    assert_eq!(repo.expenses.len(), 2);
}

#[test]
fn share_store_filters_by_expense_and_user() {
    let mut repo = InMemoryExpenseShareRepository::new();
    repo.create_shares(&vec![share(1, 1, 250), share(1, 2, 250), share(2, 1, 40)]);
    let of_one = repo.get_expense_shares(ExpenseId(1));
    assert_eq!(of_one.len(), 2);
    let expenses = vec![expense(1, 9, 500), expense(2, 8, 40)];
    let of_user = repo.get_user_shares(UserId(1), None, &expenses);
    assert_eq!(of_user.len(), 2);
    let of_user_in_group = repo.get_user_shares(UserId(1), Some(GroupId(9)), &expenses);
    assert_eq!(of_user_in_group.len(), 1);
    assert_eq!(of_user_in_group[0].expense_id, ExpenseId(1));
    repo.delete_expense_shares(ExpenseId(1));
    assert!(repo.get_expense_shares(ExpenseId(1)).is_empty());
    assert_eq!(repo.shares.len(), 1);
}

#[test]
fn payment_store_filters_by_group_and_user() {
    let mut repo = InMemoryPaymentRepository::new();
    let p1 = record_payment(
        PaymentId(1),
        GroupId(9),
        UserId(1),
        UserId(2),
        300,
        "USD".to_string(),
        "first".to_string(),
        5,
    )
    .unwrap();
    let p2 = record_payment(
        PaymentId(2),
        GroupId(8),
        UserId(2),
        UserId(3),
        400,
        "USD".to_string(),
        "second".to_string(),
        6,
    )
    .unwrap();
    repo.create_payment(&p1);
    repo.create_payment(&p2);
    assert_eq!(repo.get_group_payments(GroupId(9)).len(), 1);
    assert_eq!(repo.get_user_payments(UserId(2)).len(), 2);
    assert_eq!(repo.get_user_payments(UserId(3)).len(), 1);
}

#[test]
fn record_payment_validates() {
    let r = record_payment(
        PaymentId(1),
        GroupId(9),
        UserId(1),
        UserId(2),
        0,
        "USD".to_string(),
        "never".to_string(),
        5,
    );
    assert_eq!(r.unwrap_err(), ValidationError::NonPositiveAmount);
    let r = record_payment(
        PaymentId(1),
        GroupId(9),
        UserId(1),
        UserId(1),
        10,
        "USD".to_string(),
        "never".to_string(),
        5,
    );
    assert_eq!(r.unwrap_err(), ValidationError::PayerIsPayee);
}
