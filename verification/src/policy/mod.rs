//! Access policy: who may do what on channels, registrations and users.

pub mod access;
pub mod ban_resolver;
pub mod error;
pub mod channel;
pub mod oper;
pub mod user;
pub mod debugging;
pub mod registration;

use vstd::prelude::*;

verus! {

/// The standard policies for channels, users, opers and registrations.
#[derive(Debug)]
pub struct StandardPolicyService {
    pub channel_policy: channel::StandardChannelPolicy,
    pub user_policy: user::StandardUserPolicy,
    pub oper_policy: oper::StandardOperPolicy,
    pub registration_policy: registration::StandardRegistrationPolicy,
}

impl StandardPolicyService {
    pub fn new() -> (r: StandardPolicyService) {
        StandardPolicyService {
            channel_policy: channel::StandardChannelPolicy::new(),
            user_policy: user::StandardUserPolicy::new(),
            oper_policy: oper::StandardOperPolicy::new(),
            registration_policy: registration::StandardRegistrationPolicy::new(),
        }
    }
}

/// Access policy for new client connections.
pub trait AccessPolicyService {
    /// Whether a client connection may use the server.
    fn check_user_access(&self, client_host: &str, client_ip: &str) -> bool;
}

} // verus!
