use twodo_backend::debt::resolve;
use twodo_backend::expense::{GroupBalance, UserBalance};
use twodo_backend::ids::{GroupId, UserId};

fn balances(entries: Vec<(u128, i64)>) -> GroupBalance {
    GroupBalance {
        group_id: GroupId(9),
        balances: entries
            .into_iter()
            .map(|(u, b)| UserBalance { user_id: UserId(u), net_balance: b })
            .collect(),
    }
}

#[test]
fn two_debtors_pay_one_creditor() {
    // {A: +20.00, B: -10.00, C: -10.00}: both debtors pay A in full
    let gb = balances(vec![(1, 2_000), (2, -1_000), (3, -1_000)]);
    let transfers = resolve(&gb);
    assert_eq!(transfers.len(), 2);
    for t in &transfers {
        assert_eq!(t.creditor_id, UserId(1));
        assert_eq!(t.amount, 1_000);
        assert_eq!(t.currency, "USD");
    }
    let debtors: Vec<u128> = transfers.iter().map(|t| t.debtor_id.0).collect();
    assert!(debtors.contains(&2));
    assert!(debtors.contains(&3));
    let into_creditor: i64 =
        transfers.iter().filter(|t| t.creditor_id == UserId(1)).map(|t| t.amount).sum();
    assert_eq!(into_creditor, 2_000);

    // applying the transfers zeroes every balance
    for b in &gb.balances {
        let paid: i64 =
            transfers.iter().filter(|t| t.debtor_id == b.user_id).map(|t| t.amount).sum();
        let received: i64 =
            transfers.iter().filter(|t| t.creditor_id == b.user_id).map(|t| t.amount).sum();
        assert_eq!(b.net_balance - received + paid, 0);
    }
}

#[test]
fn largest_positions_match_first() {
    let gb = balances(vec![(1, 5_000), (2, -3_000), (3, 1_000), (4, -3_000)]);
    let transfers = resolve(&gb);
    // the largest creditor (A at 50.00) is settled against the largest
    // debtor first; ties among debtors break by user identity
    assert_eq!(transfers[0].creditor_id, UserId(1));
    assert_eq!(transfers[0].debtor_id, UserId(2));
    assert_eq!(transfers[0].amount, 3_000);
    let total_moved: i64 = transfers.iter().map(|t| t.amount).sum();
    assert_eq!(total_moved, 6_000);
    // never more transfers than positions, minus one
    assert!(transfers.len() <= 3);
}

#[test]
fn balances_within_tolerance_stay_untouched() {
    // one cent either way is inside the tolerance: nothing to settle
    let gb = balances(vec![(1, 1), (2, -1), (3, 0)]);
    let transfers = resolve(&gb);
    assert!(transfers.is_empty());
}

#[test]
fn empty_balances_need_no_transfers() {
    let gb = balances(vec![]);
    assert!(resolve(&gb).is_empty());
}

#[test]
fn every_transfer_is_positive_and_between_distinct_users() {
    let gb = balances(vec![(1, 777), (2, -300), (3, -477), (4, 0)]);
    let transfers = resolve(&gb);
    for t in &transfers {
        assert!(t.amount > 0);
        assert_ne!(t.creditor_id, t.debtor_id);
    }
}

#[test]
fn resolution_is_deterministic() {
    let gb = balances(vec![(5, 900), (2, -400), (9, 1_100), (3, -1_600)]);
    let first = resolve(&gb);
    let second = resolve(&gb);
    assert_eq!(first, second);
}
