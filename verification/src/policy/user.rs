//! The standard user policy: which user modes a user may set, and who may
//! discover whom.

use vstd::prelude::*;
use crate::id::ChannelId;
use crate::modes::UserModeFlag;
use crate::policy::error::{PermissionError, PermissionResult, UserPermissionError, refused_for_user};

verus! {

/// The standard user policy.
#[derive(Debug)]
pub struct StandardUserPolicy {}

impl StandardUserPolicy {
    pub fn new() -> (r: StandardUserPolicy) {
        StandardUserPolicy {}
    }

    /// Whether a user may set `mode` on itself: not the oper and TLS modes,
    /// which only the server sets.
    pub fn can_set_umode(&self, mode: UserModeFlag) -> (r: PermissionResult)
        ensures
            if mode == UserModeFlag::Oper || mode == UserModeFlag::TlsConnection {
                refused_for_user(r, UserPermissionError::ReadOnlyUmode)
            } else {
                r is Ok
            },
    {
        match mode {
            UserModeFlag::Oper | UserModeFlag::TlsConnection => Err(PermissionError::User(UserPermissionError::ReadOnlyUmode)),
            _ => Ok(()),
        }
    }

    /// Whether a user may unset `mode` on itself: any mode.
    pub fn can_unset_umode(&self, mode: UserModeFlag) -> (r: PermissionResult)
        ensures
            r is Ok,
    {
        Ok(())
    }

    /// Whether a user in the channels `to_user_channels` may discover,
    /// without knowing its nickname, a user in `user_channels` that is
    /// `invisible` or not: allowed when the user is not invisible or they
    /// share a channel.
    pub fn can_list_user(&self, to_user_channels: &Vec<ChannelId>, invisible: bool, user_channels: &Vec<ChannelId>) -> (r: PermissionResult)
        ensures
            if !invisible || exists|i: int, j: int| 0 <= i < to_user_channels@.len() && 0 <= j < user_channels@.len()
                && to_user_channels@[i] == user_channels@[j] {
                r is Ok
            } else {
                refused_for_user(r, UserPermissionError::Invisible)
            },
    {
        if !invisible {
            return Ok(());
        }
        let mut i: usize = 0;
        while i < to_user_channels.len()
            invariant
                i <= to_user_channels@.len(),
                forall|a: int, b: int| 0 <= a < i && 0 <= b < user_channels@.len() ==> to_user_channels@[a] != user_channels@[b],
            decreases to_user_channels@.len() - i,
        {
            let mut j: usize = 0;
            while j < user_channels.len()
                invariant
                    i < to_user_channels@.len(),
                    j <= user_channels@.len(),
                    forall|b: int| 0 <= b < j ==> to_user_channels@[i as int] != user_channels@[b],
                decreases user_channels@.len() - j,
            {
                if to_user_channels[i] == user_channels[j] {
                    return Ok(());
                }
                j = j + 1;
            }
            i = i + 1;
        }
        Err(PermissionError::User(UserPermissionError::Invisible))
    }
}

} // verus!
