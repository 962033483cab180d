use twodo_backend::expense::{SplitError, SplitType};
use twodo_backend::ids::{ExpenseId, UserId};
use twodo_backend::split::compute_shares;

fn users(n: u128) -> Vec<UserId> {
    (1..=n).map(UserId).collect()
}

#[test]
fn equal_split_three_way_sums_exactly() {
    // 100.00 split equally among three participants: the remainder cent
    // lands on the last participant, and nothing is lost
    let ps = users(3);
    let shares = compute_shares(ExpenseId(7), 10_000, &ps, UserId(1), &SplitType::Equal).unwrap();
    assert_eq!(shares.len(), 3);
    let amounts: Vec<i64> = shares.iter().map(|s| s.amount).collect();
    assert_eq!(amounts, vec![3_333, 3_333, 3_334]);
    for (i, s) in shares.iter().enumerate() {
        assert_eq!(s.user_id, UserId(i as u128 + 1));
        assert_eq!(s.expense_id, ExpenseId(7));
        assert!(!s.is_settled);
    }
    let total: i64 = shares.iter().map(|s| s.amount).sum();
    assert_eq!(total, 10_000);
}

#[test]
fn equal_split_never_loses_cents() {
    // 1.00 among seven: every division remainder is redistributed
    let ps = users(7);
    let shares = compute_shares(ExpenseId(1), 100, &ps, UserId(1), &SplitType::Equal).unwrap();
    let total: i64 = shares.iter().map(|s| s.amount).sum();
    assert_eq!(total, 100);
    for s in &shares {
        assert!(s.amount == 14 || s.amount == 15);
    }
}

#[test]
fn equal_split_exact_division() {
    let ps = users(3);
    let shares = compute_shares(ExpenseId(1), 3_000, &ps, UserId(1), &SplitType::Equal).unwrap();
    assert!(shares.iter().all(|s| s.amount == 1_000));
}

#[test]
fn exact_split_mismatch_rejected() {
    // 40 + 50 = 90, not 100: the request must be corrected
    let ps = users(2);
    let alloc = vec![(UserId(1), 4_000), (UserId(2), 5_000)];
    let r = compute_shares(ExpenseId(1), 10_000, &ps, UserId(1), &SplitType::Exact(alloc));
    assert_eq!(r.unwrap_err(), SplitError::AllocationMismatch);
}

#[test]
fn exact_split_within_tolerance_accepted() {
    let ps = users(2);
    let alloc = vec![(UserId(1), 4_000), (UserId(2), 5_999)];
    let shares =
        compute_shares(ExpenseId(1), 10_000, &ps, UserId(1), &SplitType::Exact(alloc)).unwrap();
    assert_eq!(shares[0].amount, 4_000);
    assert_eq!(shares[1].amount, 5_999);
}

#[test]
fn exact_split_missing_participant_rejected() {
    let ps = users(2);
    let alloc = vec![(UserId(1), 10_000)];
    let r = compute_shares(ExpenseId(1), 10_000, &ps, UserId(1), &SplitType::Exact(alloc));
    assert_eq!(r.unwrap_err(), SplitError::MissingAllocation);
}

#[test]
fn percentage_split_quarters() {
    // 200.00 at 25% / 75% gives 50.00 and 150.00
    let ps = users(2);
    let pcts = vec![(UserId(1), 2_500), (UserId(2), 7_500)];
    let shares =
        compute_shares(ExpenseId(1), 20_000, &ps, UserId(1), &SplitType::Percentage(pcts)).unwrap();
    assert_eq!(shares[0].amount, 5_000);
    assert_eq!(shares[1].amount, 15_000);
}

#[test]
fn percentage_split_must_sum_to_hundred() {
    let ps = users(2);
    let pcts = vec![(UserId(1), 2_500), (UserId(2), 2_500)];
    let r = compute_shares(ExpenseId(1), 20_000, &ps, UserId(1), &SplitType::Percentage(pcts));
    assert_eq!(r.unwrap_err(), SplitError::AllocationMismatch);
}

#[test]
fn by_shares_split_weights() {
    // 90.00 split 1:2:3 gives 15.00, 30.00, 45.00
    let ps = users(3);
    let weights = vec![(UserId(1), 1), (UserId(2), 2), (UserId(3), 3)];
    let shares =
        compute_shares(ExpenseId(1), 9_000, &ps, UserId(1), &SplitType::ByShares(weights)).unwrap();
    assert_eq!(shares[0].amount, 1_500);
    assert_eq!(shares[1].amount, 3_000);
    assert_eq!(shares[2].amount, 4_500);
}

#[test]
fn by_shares_split_sums_exactly() {
    // an uneven weighting still accounts for every cent
    let ps = users(3);
    let weights = vec![(UserId(1), 1), (UserId(2), 1), (UserId(3), 1)];
    let shares =
        compute_shares(ExpenseId(1), 100, &ps, UserId(1), &SplitType::ByShares(weights)).unwrap();
    let total: i64 = shares.iter().map(|s| s.amount).sum();
    assert_eq!(total, 100);
}

#[test]
fn by_shares_zero_total_rejected() {
    let ps = users(2);
    let weights = vec![(UserId(1), 0), (UserId(2), 0)];
    let r = compute_shares(ExpenseId(1), 9_000, &ps, UserId(1), &SplitType::ByShares(weights));
    assert_eq!(r.unwrap_err(), SplitError::ZeroTotalShares);
}

#[test]
fn by_shares_missing_weight_rejected() {
    let ps = users(3);
    let weights = vec![(UserId(1), 1), (UserId(2), 2)];
    let r = compute_shares(ExpenseId(1), 9_000, &ps, UserId(1), &SplitType::ByShares(weights));
    assert_eq!(r.unwrap_err(), SplitError::MissingAllocation);
}
