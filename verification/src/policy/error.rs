//! The reasons a policy refuses an action.

use vstd::prelude::*;
use crate::validated::ChannelName;

verus! {

/// Why an action on a channel is refused.
#[derive(Clone, Copy, Debug, PartialEq, Eq, Structural)]
pub enum ChannelPermissionError {
    UserNotOnChannel,
    UserNotOp,
    UserIsBanned,
    CannotSendToChannel,
    InviteOnlyChannel,
    BadChannelKey,
    NotRegistered,
    NoAccess,
}

/// Why an action concerning a user is refused.
#[derive(Clone, Copy, Debug, PartialEq, Eq, Structural)]
pub enum UserPermissionError {
    NotOper,
    ReadOnlyUmode,
    NotLoggedIn,
    /// The user is invisible and shares no channel with the one asking
    Invisible,
}

/// Why an action on a channel registration is refused.
#[derive(Clone, Copy, Debug, PartialEq, Eq, Structural)]
pub enum RegistrationPermissionError {
    NotLoggedIn,
    NoAccess,
    CantEditHigherRole,
}

/// Why an action is refused.
#[derive(Debug)]
pub enum PermissionError {
    /// Refused on the named channel
    Channel(ChannelName, ChannelPermissionError),
    User(UserPermissionError),
    Registration(RegistrationPermissionError),
    /// Something the decision depends on could not be looked up
    InternalError(String),
}

/// The result of a policy decision.
pub type PermissionResult = Result<(), PermissionError>;

/// `r` refuses the action on the channel named `name` for `reason`.
pub open spec fn refused_on_channel(r: PermissionResult, name: Seq<char>, reason: ChannelPermissionError) -> bool {
    r matches Err(PermissionError::Channel(n, e)) && n@ == name && e == reason
}

/// `r` refuses the action for `reason`, concerning a user.
pub open spec fn refused_for_user(r: PermissionResult, reason: UserPermissionError) -> bool {
    r matches Err(PermissionError::User(e)) && e == reason
}

/// `r` refuses the action for `reason`, concerning a channel registration.
pub open spec fn refused_for_registration(r: PermissionResult, reason: RegistrationPermissionError) -> bool {
    r matches Err(PermissionError::Registration(e)) && e == reason
}

} // verus!
