//! Domain model of chores: recurring household tasks with assignees.

use vstd::prelude::*;
use crate::ids::{UserId, GroupId, ChoreId};

verus! {

/// How urgent a chore is.
#[derive(Clone, Copy, Debug, PartialEq, Eq, Structural)]
pub enum Priority {
    Low,
    Medium,
    High,
    Urgent,
}

/// Where a chore stands in its life cycle.
#[derive(Clone, Copy, Debug, PartialEq, Eq, Structural)]
pub enum ChoreStatus {
    Pending,
    InProgress,
    Completed,
    Overdue,
    Cancelled,
}

/// How often a recurring chore repeats.
#[derive(Clone, Copy, Debug, PartialEq, Eq, Structural)]
pub enum RecurrenceFrequency {
    Daily,
    Weekly,
    Monthly,
    Yearly,
}

/// A day of the week, for weekly recurrence.
#[derive(Clone, Copy, Debug, PartialEq, Eq, Structural)]
pub enum Weekday {
    Monday,
    Tuesday,
    Wednesday,
    Thursday,
    Friday,
    Saturday,
    Sunday,
}

/// The repetition rule of a recurring chore.
#[derive(Clone, Debug)]
pub struct RecurrencePattern {
    pub frequency: RecurrenceFrequency,
    /// Repeat every N frequency units.
    pub interval: u32,
    /// For weekly recurrence.
    pub days_of_week: Option<Vec<Weekday>>,
    /// For monthly recurrence.
    pub day_of_month: Option<u32>,
    pub end_date: Option<i64>,
}

/// A stored chore.
#[derive(Clone, Debug)]
pub struct Chore {
    pub id: ChoreId,
    pub group_id: GroupId,
    pub title: String,
    pub description: Option<String>,
    /// User assigned to this chore.
    pub assigned_to: Option<UserId>,
    pub created_by: UserId,
    pub category: Option<String>,
    pub priority: Priority,
    pub status: ChoreStatus,
    pub due_date: Option<i64>,
    /// Duration in minutes.
    pub estimated_duration: Option<u32>,
    pub recurrence: Option<RecurrencePattern>,
    pub created_at: i64,
    pub updated_at: i64,
    pub completed_at: Option<i64>,
}

/// A request to create a chore.
#[derive(Clone, Debug)]
pub struct ChoreCreation {
    pub group_id: GroupId,
    pub title: String,
    pub description: Option<String>,
    pub assigned_to: Option<UserId>,
    pub category: Option<String>,
    pub priority: Priority,
    pub due_date: Option<i64>,
    pub estimated_duration: Option<u32>,
    pub recurrence: Option<RecurrencePattern>,
}

/// A request to comment on a chore.
#[derive(Clone, Debug)]
pub struct AddComment {
    pub content: String,
}

/// A stored comment on a chore.
#[derive(Clone, Debug)]
pub struct ChoreComment {
    pub id: u128,
    pub chore_id: ChoreId,
    pub user_id: UserId,
    pub content: String,
    pub created_at: i64,
}

/// A chore is overdue when it has a due date in the past and is neither
/// completed nor cancelled.
pub fn chore_is_overdue(status: ChoreStatus, due_date: Option<i64>, now: i64) -> (r: bool)
    ensures
        r == (match due_date {
            Some(d) => d < now && status != ChoreStatus::Completed
                && status != ChoreStatus::Cancelled,
            None => false,
        }),
{
    match due_date {
        Some(d) => d < now && !(status == ChoreStatus::Completed) && !(status
            == ChoreStatus::Cancelled),
        None => false,
    }
}

} // verus!
