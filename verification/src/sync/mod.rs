//! The event log and the decisions of the synchronisation protocol.

pub mod eventlog;
pub mod message;
pub mod network;
pub mod replicated_log;
