//! Receivers of history updates.

use vstd::prelude::*;
use crate::id::{LogEntryId, UserId};

verus! {

/// Something that is told of new history log entries and of the users who
/// may see them.
pub trait HistorySubscriber {
    /// A new history log entry has been created; no user has been told yet.
    fn new_log_entry(&self, entry: LogEntryId);

    /// The user `user_id` may see the entry `entry`.
    fn notify_user(&self, user_id: UserId, entry: LogEntryId);
}

/// A subscriber for channel history.
#[derive(Debug)]
pub struct ChannelHistorySubscriber {}

} // verus!
