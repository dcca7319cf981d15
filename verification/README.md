# sable_network

The network layer of the Sable chat server, as a Verus-verified library.

- `src/sync` — the event log (causal ordering of network state changes),
  the peer table of the gossip network, the protocol messages and their
  framing, and the replicated log that decides what to do with each message
  from a peer.
- `src/policy` — who may join, speak, change modes and manage the lists of a
  channel; who may view and edit channel registrations; oper checks; user
  mode and visibility rules.
- `src/validated.rs` — nicknames, channel names, keys and the other
  validated names, with their length and character rules.
- `src/modes.rs`, `src/utils.rs` — mode sets and how mode changes are shown
  to clients.
- `src/types.rs` — wildcard patterns, IP addresses and networks, and the
  host, user and address matchers built on them.
- `src/tls.rs` — certificates and keys read from PEM files, and the server
  name a peer's certificate carries.
- `src/node.rs`, `src/server` — ping-outs, who is told of a state change,
  how a node stops, the management interface's routes and client
  authorisation, log filters.
- `app/` — configuration files, the wire format, sync connections over any
  byte stream, the driver that carries out the replicated log's decisions,
  and the conversion of `std::net` addresses and `ipnet` networks.

Contracts state each function's result exactly over mathematical models;
the laws (`law_*` proof functions) state what holds across calls, such as
restoring a saved log, that over any run of additions an event is
processed at most once and only once its dependencies are recorded, or
that the order of additions does not change the history once nothing
is left pending.
