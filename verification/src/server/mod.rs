//! The decisions of a network server process: its logging configuration,
//! its management interface, and saving its state.

pub mod config;
pub mod management;

use vstd::prelude::*;
use crate::sync::replicated_log::EventLogSaveError;

verus! {

/// Whether to detach into the background when starting: only when not asked
/// to stay in the foreground, and not when resuming after an upgrade, as the
/// process being replaced already did whatever detaching was needed.
pub fn should_daemonise(foreground: bool, upgrading: bool) -> (r: bool)
    ensures
        r == (!foreground && !upgrading),
{
    !foreground && !upgrading
}

/// Errors in saving a server's state for an upgrade.
#[derive(Debug)]
pub enum ServerSaveError {
    IoError(String),
    EventLogSaveError(EventLogSaveError),
}

} // verus!
