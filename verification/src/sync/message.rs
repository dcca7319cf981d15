//! Messages of the synchronisation protocol.

use vstd::prelude::*;
use crate::id::{EpochId, EventClock, EventId, ServerId};
use crate::rpc::{RemoteServerRequestType, RemoteServerResponse};
use crate::sync::eventlog::Event;

verus! {

/// A copy of the network state, as exchanged when a server joins: the event
/// clock it reflects, the names of the servers in it, and the encoded state.
#[derive(Debug)]
pub struct NetworkSnapshot {
    pub clock: EventClock,
    pub servers: Vec<(String, ServerId)>,
    pub encoded: Vec<u8>,
}

/// A request or response addressed to one server of the network.
#[derive(Debug)]
pub struct TargetedMessage {
    /// The server from which the message originated
    pub source: String,
    /// The server to which the message is addressed
    pub target: String,
    /// Servers that have already tried to deliver it, not to be used again
    pub via: Vec<String>,
    /// The request
    pub content: RemoteServerRequestType,
}

/// The content of a protocol message.
#[derive(Debug)]
pub enum MessageDetail {
    /// A new event has been created
    NewEvent(Event),
    /// Several events at once, in answer to `SyncRequest` or `GetEvent`
    BulkEvents(Vec<Event>),
    /// Request for every event not covered by the given clock
    SyncRequest(EventClock),
    /// Request for specific events
    GetEvent(Vec<EventId>),
    /// Request for the current network state
    GetNetworkState,
    /// The current network state
    NetworkState(NetworkSnapshot),
    /// A message addressed to one server
    TargetedMessage(TargetedMessage),
    /// The answer to a targeted message
    TargetedMessageResponse(RemoteServerResponse),
    /// The sender has quit the network, so its message was rejected
    MessageRejected,
    /// Finished processing; close the connection
    Done,
}

/// A protocol message, with the server and epoch it comes from.
#[derive(Debug)]
pub struct Message {
    pub source_server: (ServerId, EpochId),
    pub content: MessageDetail,
}

impl Message {
    /// Whether the receiver of this message should send something back:
    /// true exactly for sync requests, event requests and state requests.
    pub fn expects_response(&self) -> (r: bool)
        ensures
            r == (self.content is SyncRequest || self.content is GetEvent || self.content is GetNetworkState),
    {
        match self.content {
            MessageDetail::SyncRequest(_) | MessageDetail::GetEvent(_) | MessageDetail::GetNetworkState => true,
            _ => false,
        }
    }
}

/// The four bytes of `n`, most significant first.
pub open spec fn be_bytes(n: u32) -> Seq<u8> {
    seq![(n / 0x100_0000) as u8, (n / 0x1_0000 % 0x100) as u8, (n / 0x100 % 0x100) as u8, (n % 0x100) as u8]
}

/// The number whose bytes, most significant first, are the first four of `b`.
pub open spec fn be_value(b: Seq<u8>) -> int {
    b[0] * 0x100_0000 + b[1] * 0x1_0000 + b[2] * 0x100 + b[3]
}

/// A message's bytes as sent on a sync connection: their length as four
/// bytes, most significant first, then the bytes themselves.
pub fn frame_message(payload: &[u8]) -> (r: Vec<u8>)
    requires
        payload@.len() <= u32::MAX,
    ensures
        r@ == be_bytes(payload@.len() as u32) + payload@,
{
    let n = payload.len() as u32;
    let mut out: Vec<u8> = Vec::new();
    out.push((n / 0x100_0000) as u8);
    out.push((n / 0x1_0000 % 0x100) as u8);
    out.push((n / 0x100 % 0x100) as u8);
    out.push((n % 0x100) as u8);
    let mut i: usize = 0;
    while i < payload.len()
        invariant
            i <= payload@.len(),
            n == payload@.len(),
            out@ == be_bytes(n) + payload@.take(i as int),
        decreases payload@.len() - i,
    {
        out.push(payload[i]);
        proof {
            assert(payload@.take(i + 1) =~= payload@.take(i as int).push(payload@[i as int]));
        }
        i = i + 1;
    }
    proof {
        assert(payload@.take(payload@.len() as int) =~= payload@);
    }
    out
}

/// The length of the message that follows a four-byte header.
pub fn frame_length(header: &[u8]) -> (r: u32)
    requires
        header@.len() == 4,
    ensures
        r == be_value(header@),
{
    (header[0] as u32) * 0x100_0000 + (header[1] as u32) * 0x1_0000 + (header[2] as u32) * 0x100 + (header[3] as u32)
}

/// Reading the header of a framed message gives back the message's length.
pub proof fn law_frame_length_round_trip(n: u32)
    ensures
        be_value(be_bytes(n)) == n,
{
    let b = be_bytes(n);
    assert(b[0] == n / 0x100_0000);
    assert(b[1] == n / 0x1_0000 % 0x100);
    assert(b[2] == n / 0x100 % 0x100);
    assert(b[3] == n % 0x100);
    assert((n / 0x100_0000) * 0x100_0000 + (n / 0x1_0000 % 0x100) * 0x1_0000 + (n / 0x100 % 0x100) * 0x100 + n % 0x100 == n) by (nonlinear_arith);
}

} // verus!
