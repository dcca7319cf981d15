//! The standard debugging policy: who may inspect private but harmless
//! network information.

use vstd::prelude::*;
use crate::policy::error::PermissionResult;

verus! {

/// The standard debugging policy.
#[derive(Debug)]
pub struct StandardDebuggingPolicy {}

impl StandardDebuggingPolicy {
    pub fn new() -> (r: StandardDebuggingPolicy) {
        StandardDebuggingPolicy {}
    }

    /// Whether a user may list the servers of the network: any user may.
    pub fn can_list_links(&self) -> (r: PermissionResult)
        ensures
            r is Ok,
    {
        Ok(())
    }
}

} // verus!
