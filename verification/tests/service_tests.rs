use twodo_backend::expense::{
    CreateExpenseError, ExpenseCreation, ExpenseFilter, SettleDebt, SettleDebtError, SplitError,
    SplitType, UserBalance, ValidationError,
};
use twodo_backend::ids::{ExpenseId, GroupId, PaymentId, UserId};
use twodo_backend::persistence::{
    InMemoryBalanceRepository, InMemoryExpenseRepository, InMemoryExpenseShareRepository,
    InMemoryPaymentRepository,
};
use twodo_backend::service::ExpenseService;

fn new_service() -> ExpenseService {
    ExpenseService::new(
        InMemoryExpenseRepository::new(),
        InMemoryExpenseShareRepository::new(),
        InMemoryBalanceRepository::new(),
        InMemoryPaymentRepository::new(),
    )
}

fn dinner_creation() -> ExpenseCreation {
    ExpenseCreation {
        group_id: GroupId(9),
        description: "Dinner".to_string(),
        amount: 3_000,
        currency: "USD".to_string(),
        paid_by: UserId(1),
        split_type: SplitType::Equal,
        participants: vec![UserId(1), UserId(2), UserId(3)],
        category: None,
        date: None,
    }
}

#[test]
fn end_to_end_dinner_scenario() {
    // A pays 30.00 for dinner, split equally among A, B and C
    let mut service = new_service();
    let info = service
        .create_expense_with_id(&dinner_creation(), UserId(1), ExpenseId(77), 1_000)
        .unwrap();
    assert_eq!(info.id, ExpenseId(77));
    assert_eq!(info.shares.len(), 3);
    assert!(info.shares.iter().all(|s| s.amount == 1_000 && s.expense_id == ExpenseId(77)));

    let gb = service.get_group_balances(GroupId(9));
    assert_eq!(
        gb.balances,
        vec![
            UserBalance { user_id: UserId(1), net_balance: 2_000 },
            UserBalance { user_id: UserId(2), net_balance: -1_000 },
            UserBalance { user_id: UserId(3), net_balance: -1_000 },
        ]
    );

    let transfers = service.get_debt_summary(GroupId(9));
    assert_eq!(transfers.len(), 2);
    assert!(transfers.iter().all(|t| t.creditor_id == UserId(1) && t.amount == 1_000));

    // B settles 10.00 with A
    let settle = SettleDebt { creditor_id: UserId(1), debtor_id: UserId(2), amount: 1_000 };
    service
        .settle_debt_with_id(GroupId(9), &settle, PaymentId(5), 2_000)
        .unwrap();

    let gb = service.get_group_balances(GroupId(9));
    assert_eq!(
        gb.balances,
        vec![
            UserBalance { user_id: UserId(1), net_balance: 1_000 },
            UserBalance { user_id: UserId(2), net_balance: 0 },
            UserBalance { user_id: UserId(3), net_balance: -1_000 },
        ]
    );

    // the debtor is the payer of record, the creditor the payee
    let recorded = &service.payment_repository.payments[0];
    assert_eq!(recorded.description, "Debt settlement: $10.00");
    assert_eq!(recorded.currency, "USD");
    assert_eq!(recorded.from_user, UserId(2));
    assert_eq!(recorded.to_user, UserId(1));
}

#[test]
fn create_expense_with_random_identity() {
    let mut service = new_service();
    let info = service.create_expense(&dinner_creation(), UserId(1)).unwrap();
    assert_eq!(info.shares.len(), 3);
    let fetched = service.get_expense(info.id).unwrap();
    assert_eq!(fetched.description, "Dinner");
    assert_eq!(fetched.amount, 3_000);
    assert_eq!(fetched.shares.len(), 3);
}

#[test]
fn description_is_stored_trimmed() {
    let mut service = new_service();
    let mut creation = dinner_creation();
    creation.description = "  Dinner out \t".to_string();
    let info = service
        .create_expense_with_id(&creation, UserId(1), ExpenseId(77), 1_000)
        .unwrap();
    assert_eq!(info.description, "Dinner out");
    assert_eq!(service.get_expense(ExpenseId(77)).unwrap().description, "Dinner out");
}

#[test]
fn whitespace_only_description_rejected() {
    let mut service = new_service();
    let mut creation = dinner_creation();
    creation.description = " \t\n ".to_string();
    let r = service.create_expense(&creation, UserId(1));
    assert!(matches!(r, Err(CreateExpenseError::Split(SplitError::EmptyDescription))));
}

#[test]
fn empty_description_rejected() {
    let mut service = new_service();
    let mut creation = dinner_creation();
    creation.description = "".to_string();
    let r = service.create_expense(&creation, UserId(1));
    assert!(matches!(r, Err(CreateExpenseError::Split(SplitError::EmptyDescription))));
}

#[test]
fn non_positive_amount_rejected() {
    let mut service = new_service();
    let mut creation = dinner_creation();
    creation.amount = 0;
    let r = service.create_expense(&creation, UserId(1));
    assert!(matches!(r, Err(CreateExpenseError::Split(SplitError::NonPositiveAmount))));
}

#[test]
fn payer_must_participate() {
    let mut service = new_service();
    let mut creation = dinner_creation();
    creation.paid_by = UserId(42);
    let r = service.create_expense(&creation, UserId(1));
    assert!(matches!(r, Err(CreateExpenseError::Split(SplitError::PayerNotParticipant))));
}

#[test]
fn split_errors_pass_through_service() {
    let mut service = new_service();
    let mut creation = dinner_creation();
    creation.participants = vec![UserId(1), UserId(2)];
    creation.split_type = SplitType::Exact(vec![(UserId(1), 1_000), (UserId(2), 1_000)]);
    let r = service.create_expense(&creation, UserId(1));
    assert!(matches!(r, Err(CreateExpenseError::Split(SplitError::AllocationMismatch))));
}

#[test]
fn settle_debt_validates_amount_and_parties() {
    let mut service = new_service();
    let zero = SettleDebt { creditor_id: UserId(1), debtor_id: UserId(2), amount: 0 };
    assert!(matches!(
        service.settle_debt(GroupId(9), &zero, UserId(1)),
        Err(SettleDebtError::Validation(ValidationError::NonPositiveAmount))
    ));
    let same = SettleDebt { creditor_id: UserId(1), debtor_id: UserId(1), amount: 100 };
    assert!(matches!(
        service.settle_debt(GroupId(9), &same, UserId(1)),
        Err(SettleDebtError::Validation(ValidationError::PayerIsPayee))
    ));
}

#[test]
fn delete_expense_removes_expense_and_shares() {
    let mut service = new_service();
    let info = service
        .create_expense_with_id(&dinner_creation(), UserId(1), ExpenseId(77), 1_000)
        .unwrap();
    assert!(service.get_expense(info.id).is_some());
    service.delete_expense(info.id);
    assert!(service.get_expense(info.id).is_none());
    let gb = service.get_group_balances(GroupId(9));
    assert!(gb.balances.is_empty());
}

#[test]
fn user_balance_reads_one_user() {
    let mut service = new_service();
    service
        .create_expense_with_id(&dinner_creation(), UserId(1), ExpenseId(77), 1_000)
        .unwrap();
    assert_eq!(service.get_user_balance(UserId(1), GroupId(9)), 2_000);
    assert_eq!(service.get_user_balance(UserId(2), GroupId(9)), -1_000);
    // untouched users owe nothing
    assert_eq!(service.get_user_balance(UserId(42), GroupId(9)), 0);
}

#[test]
fn user_debts_only_involve_the_user() {
    let mut service = new_service();
    service
        .create_expense_with_id(&dinner_creation(), UserId(1), ExpenseId(77), 1_000)
        .unwrap();
    let debts = service.get_user_debts(UserId(2));
    assert_eq!(debts.len(), 1);
    assert_eq!(debts[0].creditor_id, UserId(1));
    assert_eq!(debts[0].debtor_id, UserId(2));
}

#[test]
fn group_expense_listing_is_newest_first_and_paged() {
    let mut service = new_service();
    for (i, date) in [(1u128, 100i64), (2, 300), (3, 200)] {
        let mut c = dinner_creation();
        c.date = Some(date);
        c.description = format!("expense-{i}");
        service
            .create_expense_with_id(&c, UserId(1), ExpenseId(i), 50)
            .unwrap();
    }
    let all = service.get_group_expenses(GroupId(9), None, None);
    let dates: Vec<i64> = all.iter().map(|e| e.date).collect();
    assert_eq!(dates, vec![300, 200, 100]);

    let page = service.get_group_expenses(GroupId(9), Some(1), Some(1));
    assert_eq!(page.len(), 1);
    assert_eq!(page[0].date, 200);

    let past_end = service.get_group_expenses(GroupId(9), Some(5), Some(9));
    assert!(past_end.is_empty());
}

#[test]
fn search_filters_by_involved_user() {
    let mut service = new_service();
    let mut c = dinner_creation();
    c.participants = vec![UserId(1), UserId(2)];
    service
        .create_expense_with_id(&c, UserId(1), ExpenseId(1), 50)
        .unwrap();
    let mut c2 = dinner_creation();
    c2.participants = vec![UserId(1), UserId(3)];
    c2.description = "Taxi".to_string();
    service
        .create_expense_with_id(&c2, UserId(1), ExpenseId(2), 60)
        .unwrap();

    let filter = ExpenseFilter {
        group_id: Some(GroupId(9)),
        paid_by: None,
        involving_user: Some(UserId(3)),
        category: None,
        date_from: None,
        date_to: None,
        limit: None,
        offset: None,
    };
    let found = service.search_expenses(&filter);
    assert_eq!(found.len(), 1);
    assert_eq!(found[0].description, "Taxi");
}

#[test]
fn user_debts_span_groups_in_order() {
    let mut service = new_service();
    let mut first = dinner_creation();
    first.participants = vec![UserId(1), UserId(2)];
    service
        .create_expense_with_id(&first, UserId(1), ExpenseId(1), 10)
        .unwrap();
    let mut second = dinner_creation();
    second.group_id = GroupId(8);
    second.description = "Taxi".to_string();
    second.amount = 4_000;
    second.participants = vec![UserId(2), UserId(1)];
    second.paid_by = UserId(2);
    service
        .create_expense_with_id(&second, UserId(2), ExpenseId(2), 20)
        .unwrap();

    // one debt toward user 1 in the first group, one away in the second,
    // listed in the groups' first-appearance order
    let debts = service.get_user_debts(UserId(1));
    assert_eq!(debts.len(), 2);
    assert_eq!(debts[0].creditor_id, UserId(1));
    assert_eq!(debts[0].debtor_id, UserId(2));
    assert_eq!(debts[0].amount, 1_500);
    assert_eq!(debts[1].creditor_id, UserId(2));
    assert_eq!(debts[1].debtor_id, UserId(1));
    assert_eq!(debts[1].amount, 2_000);
}
