//! The standard registration policy: who may view and change the access
//! lists and roles of a registered channel.

use vstd::prelude::*;
use crate::policy::access::{ChannelAccessFlag, ChannelAccessSet};
use crate::policy::error::{PermissionError, PermissionResult, RegistrationPermissionError, refused_for_registration};

verus! {

/// What the registration policy reads of an account, with respect to one
/// registered channel: the flags of the role its access to the channel
/// holds, or `None` without access.
#[derive(Debug)]
pub struct RegistrationAccess {
    pub role: Option<ChannelAccessSet>,
}

/// `r` allows exactly when the account has a role holding `flag`, and
/// otherwise refuses for lack of access.
pub open spec fn role_result(a: RegistrationAccess, flag: ChannelAccessFlag, r: PermissionResult) -> bool {
    if a.role matches Some(f) && f@.contains(flag) {
        r is Ok
    } else {
        refused_for_registration(r, RegistrationPermissionError::NoAccess)
    }
}

/// `r` allows exactly when the account has a role holding `flag` and every
/// flag of `other`; it refuses for lack of access without `flag`, and
/// otherwise for editing a higher role.
pub open spec fn edit_result(a: RegistrationAccess, flag: ChannelAccessFlag, other: Set<ChannelAccessFlag>, r: PermissionResult) -> bool {
    match a.role {
        Some(f) => if !f@.contains(flag) {
            refused_for_registration(r, RegistrationPermissionError::NoAccess)
        } else if !other.subset_of(f@) {
            refused_for_registration(r, RegistrationPermissionError::CantEditHigherRole)
        } else {
            r is Ok
        },
        None => refused_for_registration(r, RegistrationPermissionError::NoAccess),
    }
}

/// Editing through a role needs the flag and every flag of what is edited:
/// it is allowed exactly when the account's role holds `flag` and all of
/// `other`; without the flag (or without a role) it is refused for lack of
/// access, and with the flag but not all of `other`, for editing a higher
/// role. Holding more flags never loses an edit.
pub proof fn law_edit_needs_flag_and_dominance(a: RegistrationAccess, b: RegistrationAccess, flag: ChannelAccessFlag,
    other: Set<ChannelAccessFlag>, r: PermissionResult, q: PermissionResult)
    requires
        edit_result(a, flag, other, r),
        edit_result(b, flag, other, q),
    ensures
        r is Ok <==> (a.role matches Some(f) && f@.contains(flag) && other.subset_of(f@)),
        !(a.role matches Some(f) && f@.contains(flag)) ==> refused_for_registration(r, RegistrationPermissionError::NoAccess),
        (a.role matches Some(f) && f@.contains(flag) && !other.subset_of(f@))
            ==> refused_for_registration(r, RegistrationPermissionError::CantEditHigherRole),
        (a.role matches Some(f) && b.role matches Some(g) && f@.subset_of(g@) && r is Ok) ==> q is Ok,
{
    if a.role matches Some(f) && b.role matches Some(g) && f@.subset_of(g@) && r is Ok {
        let f = a.role->Some_0;
        let g = b.role->Some_0;
        assert(g@.contains(flag));
        assert(other.subset_of(g@));
    }
}

fn refuse(reason: RegistrationPermissionError) -> (r: PermissionResult)
    ensures
        refused_for_registration(r, reason),
{
    Err(PermissionError::Registration(reason))
}

/// The standard registration policy.
#[derive(Debug)]
pub struct StandardRegistrationPolicy;

impl StandardRegistrationPolicy {
    pub fn new() -> (r: StandardRegistrationPolicy) {
        StandardRegistrationPolicy
    }

    fn require(source: &RegistrationAccess, flag: ChannelAccessFlag) -> (r: PermissionResult)
        ensures
            role_result(*source, flag, r),
    {
        match &source.role {
            Some(f) => if f.is_set(flag) {
                Ok(())
            } else {
                refuse(RegistrationPermissionError::NoAccess)
            },
            None => refuse(RegistrationPermissionError::NoAccess),
        }
    }

    fn require_dominating(source: &RegistrationAccess, flag: ChannelAccessFlag, other: &ChannelAccessSet) -> (r: PermissionResult)
        ensures
            edit_result(*source, flag, other@, r),
    {
        match &source.role {
            Some(f) => if !f.is_set(flag) {
                refuse(RegistrationPermissionError::NoAccess)
            } else if !f.dominates(other) {
                refuse(RegistrationPermissionError::CantEditHigherRole)
            } else {
                Ok(())
            },
            None => refuse(RegistrationPermissionError::NoAccess),
        }
    }

    /// Whether a user, logged in to an account with the given access (or
    /// `None` when not logged in), may view the channel's access list.
    pub fn can_view_access(&self, source: &Option<RegistrationAccess>) -> (r: PermissionResult)
        ensures
            match *source {
                Some(a) => role_result(a, ChannelAccessFlag::AccessView, r),
                None => refused_for_registration(r, RegistrationPermissionError::NotLoggedIn),
            },
    {
        match source {
            Some(a) => Self::require(a, ChannelAccessFlag::AccessView),
            None => refuse(RegistrationPermissionError::NotLoggedIn),
        }
    }

    /// Whether a user, logged in to an account with the given access (or
    /// `None` when not logged in), may view the channel's roles.
    pub fn can_view_roles(&self, source: &Option<RegistrationAccess>) -> (r: PermissionResult)
        ensures
            match *source {
                Some(a) => role_result(a, ChannelAccessFlag::RoleView, r),
                None => refused_for_registration(r, RegistrationPermissionError::NotLoggedIn),
            },
    {
        match source {
            Some(a) => Self::require(a, ChannelAccessFlag::RoleView),
            None => refuse(RegistrationPermissionError::NotLoggedIn),
        }
    }

    /// Whether an account may change the access of `target`: it needs
    /// `AccessEdit`, and must hold every flag of the target's current role.
    pub fn can_change_access_for(&self, source: &RegistrationAccess, target: &RegistrationAccess) -> (r: PermissionResult)
        ensures
            match target.role {
                Some(t) => edit_result(*source, ChannelAccessFlag::AccessEdit, t@, r),
                None => role_result(*source, ChannelAccessFlag::AccessEdit, r),
            },
    {
        match &target.role {
            Some(t) => Self::require_dominating(source, ChannelAccessFlag::AccessEdit, t),
            None => Self::require(source, ChannelAccessFlag::AccessEdit),
        }
    }

    /// Whether an account may grant a role with the given flags: it needs
    /// `AccessEdit` and every flag of the role.
    pub fn can_grant_role(&self, source: &RegistrationAccess, role: &ChannelAccessSet) -> (r: PermissionResult)
        ensures
            edit_result(*source, ChannelAccessFlag::AccessEdit, role@, r),
    {
        Self::require_dominating(source, ChannelAccessFlag::AccessEdit, role)
    }

    /// Whether an account may edit a role with the given flags: it needs
    /// `RoleEdit` and every flag of the role.
    pub fn can_edit_role(&self, source: &RegistrationAccess, role: &ChannelAccessSet) -> (r: PermissionResult)
        ensures
            edit_result(*source, ChannelAccessFlag::RoleEdit, role@, r),
    {
        Self::require_dominating(source, ChannelAccessFlag::RoleEdit, role)
    }

    /// Whether an account may create a role with the given flags: it needs
    /// `RoleEdit` and every one of those flags.
    pub fn can_create_role(&self, source: &RegistrationAccess, with_flags: &ChannelAccessSet) -> (r: PermissionResult)
        ensures
            edit_result(*source, ChannelAccessFlag::RoleEdit, with_flags@, r),
    {
        Self::require_dominating(source, ChannelAccessFlag::RoleEdit, with_flags)
    }
}

} // verus!
