//! Network state synchronisation, naming rules and access policy for the
//! Sable chat network.

pub mod id;
pub mod sync;
pub mod time;
pub mod policy;
pub mod rpc;
pub mod crypto;
pub mod text;
pub mod validated;
pub mod modes;
pub mod utils;
pub mod types;
pub mod server;
pub mod node;
pub mod subscriber;
pub mod tls;
