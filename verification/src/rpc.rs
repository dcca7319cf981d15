//! Messages exchanged between the synchronisation layer, the server logic,
//! the management service and remote server nodes.

use vstd::prelude::*;
use crate::id::{AccountId, ChannelAccessId, ChannelId, ChannelRegistrationId, ChannelRoleId, EventId, SaslSessionId, UserId};
use crate::policy::access::ChannelAccessSet;

verus! {

/// A management command addressed to the server logic.
#[derive(Clone, Copy, Debug, PartialEq, Eq, Structural)]
pub enum ServerManagementCommandType {
    /// Collect server statistics
    ServerStatistics,
    /// Dump network state (for debugging)
    DumpNetwork,
    /// Dump event log (for debugging)
    DumpEvents,
}

/// A message to be handled by a specific node.
#[derive(Debug)]
pub enum RemoteServerRequestType {
    /// Simple ping for communication tests
    Ping,
    /// A message to be handled by a services node
    Services(RemoteServicesServerRequestType),
    /// A message to be handled by a history node
    History(RemoteHistoryServerRequestType),
}

/// A message to be handled by a services node.
#[allow(inconsistent_fields)]
#[derive(Debug)]
pub enum RemoteServicesServerRequestType {
    /// User attempting registration: account name being registered, password provided
    RegisterUser(String, String),
    /// User attempting login: account id, password
    UserLogin(AccountId, String),
    /// Begin SASL authentication with the given mechanism
    BeginAuthenticate(SaslSessionId, String),
    /// SASL traffic
    Authenticate(SaslSessionId, Vec<u8>),
    /// Abort a SASL session
    AbortAuthenticate(SaslSessionId),
    /// Register a channel
    RegisterChannel(AccountId, ChannelId),
    /// Add, modify or remove (`None`) a channel access entry
    ModifyAccess { source: AccountId, id: ChannelAccessId, role: Option<ChannelRoleId> },
    /// Create a channel role
    CreateRole { source: AccountId, channel: ChannelRegistrationId, name: String, flags: ChannelAccessSet },
    /// Modify or delete (`None`) a channel role
    ModifyRole { source: AccountId, id: ChannelRoleId, flags: Option<ChannelAccessSet> },
    /// Add an authorised fingerprint to an account
    AddAccountFingerprint(AccountId, String),
    /// Remove an authorised fingerprint from an account
    RemoveAccountFingerprint(AccountId, String),
}

/// The target of a history query: a user's private conversation or a channel.
#[derive(Clone, Copy, Debug, PartialEq, Eq, Structural)]
pub enum HistoryTarget {
    User(UserId),
    Channel(ChannelId),
}

/// A message to be handled by a history node.
#[derive(Debug)]
pub enum RemoteHistoryServerRequestType {
    ListTargets { user: UserId, after_ts: Option<i64>, before_ts: Option<i64>, limit: Option<usize> },
    /// Fetch entries; `request` is the encoded query of the history service
    GetEntries { user: UserId, target: HistoryTarget, request: Vec<u8> },
}

/// A SASL authentication response.
#[derive(Debug)]
pub enum AuthenticateStatus {
    /// Authentication continues, with this data to be sent to the client
    InProgress(Vec<u8>),
    /// Authentication succeeded; the user should be logged in to this account
    Success(AccountId),
    /// Authentication failed
    Fail,
    /// Authentication aborted
    Aborted,
}

/// The response to a [`RemoteServerRequestType`].
#[derive(Debug)]
pub enum RemoteServerResponse {
    /// Operation succeeded, no output
    Success,
    /// Operation not supported by this server
    NotSupported,
    /// Operation failed, with error message
    Error(String),
    /// Response specific to services servers
    Services(RemoteServicesServerResponse),
    /// Response specific to history servers
    History(RemoteHistoryServerResponse),
}

/// Response of a services server.
#[derive(Debug)]
pub enum RemoteServicesServerResponse {
    /// Operation succeeded, user should be logged in to account
    LogUserIn(AccountId),
    /// SASL response
    Authenticate(AuthenticateStatus),
    /// Operation failed due to invalid credentials
    InvalidCredentials,
    /// Registration failed because the account exists
    AlreadyExists,
    /// Operation failed because of insufficient privileges
    AccessDenied,
    /// User isn't registered or account doesn't exist
    NoAccount,
    /// Channel isn't registered
    ChannelNotRegistered,
}

/// Response of a history server.
#[derive(Debug)]
pub enum RemoteHistoryServerResponse {
    /// The targets with history visible to the user, with their latest timestamps
    TargetList(Vec<(HistoryTarget, i64)>),
    /// The encoded entries, or the history service's error message
    Entries(Result<Vec<u8>, String>),
}

/// Notice that something has been added to the network history log, for a
/// history subscriber: the event, its time, the encoded state change, and
/// the users who should be notified of it.
#[derive(Debug)]
pub struct NetworkHistoryUpdate {
    pub event: EventId,
    pub timestamp: i64,
    pub change: Vec<u8>,
    pub users_to_notify: Vec<UserId>,
}

} // verus!
