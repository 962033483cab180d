//! Domain model of the shared calendar: events, attendees and recurrence.

use vstd::prelude::*;
use crate::ids::{UserId, GroupId, EventId, ChoreId, ExpenseId};

verus! {

/// Who may see an event.
#[derive(Clone, Copy, Debug, PartialEq, Eq, Structural)]
pub enum EventVisibility {
    /// Visible to all group members.
    Public,
    /// Only visible to creator and invited attendees.
    Private,
    /// Only visible to the creator.
    Confidential,
}

/// How often a recurring event repeats.
#[derive(Clone, Copy, Debug, PartialEq, Eq, Structural)]
pub enum RecurrenceFrequency {
    Daily,
    Weekly,
    Monthly,
    Yearly,
}

/// A day of the week, for weekly recurrence.
#[derive(Clone, Copy, Debug, PartialEq, Eq, Structural)]
pub enum Weekday {
    Monday,
    Tuesday,
    Wednesday,
    Thursday,
    Friday,
    Saturday,
    Sunday,
}

/// An attendee's answer to an invitation.
#[derive(Clone, Copy, Debug, PartialEq, Eq, Structural)]
pub enum AttendeeStatus {
    Pending,
    Accepted,
    Declined,
    Tentative,
}

/// The time span a calendar view covers.
#[derive(Clone, Copy, Debug, PartialEq, Eq, Structural)]
pub enum ViewType {
    Day,
    Week,
    Month,
    Year,
    Agenda,
}

/// Why two events clash.
#[derive(Clone, Copy, Debug, PartialEq, Eq, Structural)]
pub enum ConflictType {
    /// Events overlap in time.
    Overlap,
    /// Same event appears multiple times.
    Duplicate,
    /// Same location booked at the same time.
    Location,
}

/// A request to answer an invitation.
#[derive(Clone, Copy, Debug, PartialEq, Eq, Structural)]
pub struct RespondToEvent {
    pub status: AttendeeStatus,
}

/// Which occurrences of a recurring series an update touches.
#[derive(Clone, Copy, Debug, PartialEq, Eq, Structural)]
pub enum RecurrenceUpdateScope {
    /// Only this occurrence.
    ThisEvent,
    /// This and all future occurrences.
    ThisAndFuture,
    /// The entire series.
    AllEvents,
}

/// Which occurrences of a recurring series a deletion removes.
#[derive(Clone, Copy, Debug, PartialEq, Eq, Structural)]
pub enum RecurrenceDeleteScope {
    /// Only this occurrence.
    ThisEvent,
    /// This and all future occurrences.
    ThisAndFuture,
    /// The entire series.
    AllEvents,
}

/// The repetition rule of a recurring event.
#[derive(Clone, Debug)]
pub struct RecurrenceRule {
    pub frequency: RecurrenceFrequency,
    /// Repeat every N frequency units.
    pub interval: u32,
    pub days_of_week: Option<Vec<Weekday>>,
    pub day_of_month: Option<u32>,
    /// For "second Tuesday of the month" and the like.
    pub week_of_month: Option<u32>,
    pub month_of_year: Option<u32>,
    /// End date of the series.
    pub until: Option<i64>,
    /// Largest number of occurrences.
    pub count: Option<u32>,
}

/// A stored calendar event.
#[derive(Clone, Debug)]
pub struct Event {
    pub id: EventId,
    pub group_id: GroupId,
    pub title: String,
    pub description: Option<String>,
    pub location: Option<String>,
    pub start_time: i64,
    pub end_time: i64,
    pub is_all_day: bool,
    pub created_by: UserId,
    pub category: Option<String>,
    /// Hex color for display.
    pub color: Option<String>,
    pub recurrence: Option<RecurrenceRule>,
    /// Minutes before the event to send reminders.
    pub reminder_minutes: Vec<u32>,
    pub visibility: EventVisibility,
    pub created_at: i64,
    pub updated_at: i64,
}

/// One user's attendance of one event.
#[derive(Clone, Copy, Debug, PartialEq, Eq, Structural)]
pub struct EventAttendee {
    pub event_id: EventId,
    pub user_id: UserId,
    pub status: AttendeeStatus,
    pub is_organizer: bool,
    pub invited_at: i64,
    pub responded_at: Option<i64>,
}

/// A request to create an event.
#[derive(Clone, Debug)]
pub struct EventCreation {
    pub group_id: GroupId,
    pub title: String,
    pub description: Option<String>,
    pub location: Option<String>,
    pub start_time: i64,
    pub end_time: i64,
    pub is_all_day: bool,
    pub category: Option<String>,
    pub color: Option<String>,
    pub recurrence: Option<RecurrenceRule>,
    pub reminder_minutes: Vec<u32>,
    pub visibility: EventVisibility,
    /// Users to invite.
    pub attendees: Vec<UserId>,
    pub linked_chore_id: Option<ChoreId>,
    pub linked_expense_id: Option<ExpenseId>,
}

/// A span of time.
#[derive(Clone, Copy, Debug, PartialEq, Eq, Structural)]
pub struct DateRange {
    pub start: i64,
    pub end: i64,
}

/// Two events overlap when each starts before the other ends.
pub fn events_overlap(a_start: i64, a_end: i64, b_start: i64, b_end: i64) -> (r: bool)
    ensures
        r == (a_start < b_end && b_start < a_end),
{
    a_start < b_end && b_start < a_end
}

} // verus!
