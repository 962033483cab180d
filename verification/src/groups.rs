//! Domain model of groups: a set of users sharing expenses and chores.

use vstd::prelude::*;
use crate::ids::{UserId, GroupId};

verus! {

/// A group of users.
#[derive(Clone, Debug)]
pub struct Group {
    pub id: GroupId,
    pub name: String,
    pub description: Option<String>,
    /// User who created the group.
    pub created_by: UserId,
    pub created_at: i64,
    pub updated_at: i64,
}

/// One user's membership in a group.
#[derive(Clone, Copy, Debug, PartialEq, Eq, Structural)]
pub struct GroupMember {
    pub group_id: GroupId,
    pub user_id: UserId,
    pub role: MemberRole,
    pub joined_at: i64,
}

/// What a member may do within a group.
#[derive(Clone, Copy, Debug, PartialEq, Eq, Structural)]
pub enum MemberRole {
    Owner,
    Admin,
    Member,
}

/// A request to create a group.
#[derive(Clone, Debug)]
pub struct GroupCreation {
    pub name: String,
    pub description: Option<String>,
    pub created_by: UserId,
}

/// A request to change a group's name or description.
#[derive(Clone, Debug)]
pub struct GroupUpdate {
    pub name: Option<String>,
    pub description: Option<String>,
}

/// A stored group as returned to callers.
#[derive(Clone, Debug)]
pub struct GroupInfo {
    pub id: GroupId,
    pub name: String,
    pub description: Option<String>,
    pub created_by: UserId,
    pub member_count: usize,
    pub created_at: i64,
    pub user_role: Option<MemberRole>,
}

/// A pending invitation of a user into a group.
#[derive(Clone, Copy, Debug, PartialEq, Eq, Structural)]
pub struct GroupInvitation {
    pub group_id: GroupId,
    pub invited_user_id: UserId,
    pub invited_by: UserId,
    pub created_at: i64,
}

/// A request to invite a user into a group.
#[derive(Clone, Copy, Debug, PartialEq, Eq, Structural)]
pub struct InviteUser {
    pub user_id: UserId,
}

/// A group member as returned to callers.
#[derive(Clone, Debug)]
pub struct GroupMemberInfo {
    pub user_id: UserId,
    pub username: String,
    pub role: MemberRole,
    pub joined_at: i64,
}

/// Whether this role may administer the group (change it, invite and
/// remove members).
pub fn role_can_administer(role: MemberRole) -> (r: bool)
    ensures
        r == (role == MemberRole::Owner || role == MemberRole::Admin),
{
    match role {
        MemberRole::Owner => true,
        MemberRole::Admin => true,
        MemberRole::Member => false,
    }
}

} // verus!
