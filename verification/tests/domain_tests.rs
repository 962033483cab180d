use twodo_backend::calendar::events_overlap;
use twodo_backend::chores::{chore_is_overdue, ChoreStatus};
use twodo_backend::config::Config;
use twodo_backend::groups::{role_can_administer, MemberRole};

#[test]
fn roles_and_administration() {
    assert!(role_can_administer(MemberRole::Owner));
    assert!(role_can_administer(MemberRole::Admin));
    assert!(!role_can_administer(MemberRole::Member));
}

#[test]
fn overdue_chores() {
    assert!(chore_is_overdue(ChoreStatus::Pending, Some(5), 10));
    assert!(!chore_is_overdue(ChoreStatus::Completed, Some(5), 10));
    assert!(!chore_is_overdue(ChoreStatus::Cancelled, Some(5), 10));
    assert!(!chore_is_overdue(ChoreStatus::Pending, Some(15), 10));
    assert!(!chore_is_overdue(ChoreStatus::Pending, None, 10));
}

#[test]
fn event_overlap() {
    assert!(events_overlap(0, 10, 5, 15));
    assert!(!events_overlap(0, 10, 10, 15));
    assert!(events_overlap(5, 6, 0, 100));
}

#[test]
fn config_defaults() {
    let c = Config::default_values();
    assert_eq!(c.host, "127.0.0.1");
    assert_eq!(c.port, 3000);
    assert_eq!(c.jwt_expiration_hours, 24);
}
