use twodo_backend::balance::compute_group_balances;
use twodo_backend::expense::{Expense, ExpenseShare, Payment, UserBalance};
use twodo_backend::ids::{ExpenseId, GroupId, PaymentId, UserId};

fn expense(id: u128, gid: u128, amount: i64, paid_by: u128) -> Expense {
    Expense {
        id: ExpenseId(id),
        group_id: GroupId(gid),
        description: "stuff".to_string(),
        amount,
        currency: "USD".to_string(),
        paid_by: UserId(paid_by),
        created_by: UserId(paid_by),
        category: None,
        date: 0,
        created_at: 0,
        updated_at: 0,
    }
}

fn share(eid: u128, uid: u128, amount: i64) -> ExpenseShare {
    ExpenseShare { expense_id: ExpenseId(eid), user_id: UserId(uid), amount, is_settled: false }
}

fn payment(id: u128, gid: u128, from: u128, to: u128, amount: i64) -> Payment {
    Payment {
        id: PaymentId(id),
        group_id: GroupId(gid),
        from_user: UserId(from),
        to_user: UserId(to),
        amount,
        currency: "USD".to_string(),
        description: "settle".to_string(),
        created_at: 0,
    }
}

#[test]
fn single_expense_balances() {
    let expenses = vec![expense(1, 9, 3_000, 1)];
    let shares = vec![share(1, 1, 1_000), share(1, 2, 1_000), share(1, 3, 1_000)];
    let payments = vec![];
    let gb = compute_group_balances(GroupId(9), &expenses, &shares, &payments);
    assert_eq!(gb.group_id, GroupId(9));
    assert_eq!(
        gb.balances,
        vec![
            UserBalance { user_id: UserId(1), net_balance: 2_000 },
            UserBalance { user_id: UserId(2), net_balance: -1_000 },
            UserBalance { user_id: UserId(3), net_balance: -1_000 },
        ]
    );
}

#[test]
fn conservation_net_balances_sum_to_zero() {
    // shares of every expense sum exactly to its amount, so the net
    // balances cancel out
    let expenses = vec![expense(1, 9, 3_000, 1), expense(2, 9, 5_000, 2)];
    let shares = vec![
        share(1, 1, 1_500),
        share(1, 2, 1_500),
        share(2, 1, 2_500),
        share(2, 2, 2_500),
    ];
    let payments = vec![payment(1, 9, 3, 1, 700), payment(2, 9, 1, 2, 200)];
    let gb = compute_group_balances(GroupId(9), &expenses, &shares, &payments);
    let total: i64 = gb.balances.iter().map(|b| b.net_balance).sum();
    assert_eq!(total, 0);
}

#[test]
fn other_groups_are_ignored() {
    let expenses = vec![expense(1, 9, 3_000, 1), expense(2, 8, 9_999, 2)];
    let shares = vec![share(1, 1, 3_000), share(2, 2, 9_999)];
    let payments = vec![payment(1, 8, 1, 2, 50)];
    let gb = compute_group_balances(GroupId(9), &expenses, &shares, &payments);
    assert_eq!(
        gb.balances,
        vec![UserBalance { user_id: UserId(1), net_balance: 0 }]
    );
}

#[test]
fn dangling_share_does_not_count() {
    // a share pointing at an expense the group does not own is ignored
    let expenses = vec![expense(1, 9, 3_000, 1)];
    let shares = vec![share(1, 1, 3_000), share(42, 2, 500)];
    let payments = vec![];
    let gb = compute_group_balances(GroupId(9), &expenses, &shares, &payments);
    assert_eq!(gb.balances.len(), 1);
    assert_eq!(gb.balances[0].net_balance, 0);
}

#[test]
fn payments_move_balances() {
    // the payer's position rises, the payee's falls
    let expenses = vec![];
    let shares = vec![];
    let payments = vec![payment(1, 9, 1, 2, 700)];
    let gb = compute_group_balances(GroupId(9), &expenses, &shares, &payments);
    assert_eq!(
        gb.balances,
        vec![
            UserBalance { user_id: UserId(1), net_balance: 700 },
            UserBalance { user_id: UserId(2), net_balance: -700 },
        ]
    );
}

#[test]
fn recomputation_is_bitwise_identical() {
    // no intervening writes: the two results are equal in every field
    let expenses = vec![expense(1, 9, 3_000, 1), expense(2, 9, 4_001, 3)];
    let shares = vec![share(1, 2, 1_499), share(1, 1, 1_501), share(2, 3, 4_001)];
    let payments = vec![payment(1, 9, 2, 1, 99)];
    let first = compute_group_balances(GroupId(9), &expenses, &shares, &payments);
    let second = compute_group_balances(GroupId(9), &expenses, &shares, &payments);
    assert_eq!(first, second);
}

#[test]
fn incomplete_share_sets_drift_per_expense() {
    // hand-made share sets that each fall one cent short of their expense
    // leave the net balances summing to one cent per expense
    let expenses = vec![expense(1, 9, 10_000, 1), expense(2, 9, 10_000, 2)];
    let shares = vec![
        share(1, 1, 3_333),
        share(1, 2, 3_333),
        share(1, 3, 3_333),
        share(2, 1, 3_333),
        share(2, 2, 3_333),
        share(2, 3, 3_333),
    ];
    let gb = compute_group_balances(GroupId(9), &expenses, &shares, &vec![]);
    let total: i64 = gb.balances.iter().map(|b| b.net_balance).sum();
    assert_eq!(total, 2);
}
