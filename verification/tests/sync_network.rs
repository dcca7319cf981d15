use sable_network::id::{EpochId, EventClock, EventId, ServerId};
use sable_network::rpc::RemoteServerRequestType;
use sable_network::sync::eventlog::Event;
use sable_network::sync::message::{frame_length, frame_message, Message, MessageDetail, NetworkSnapshot, TargetedMessage};
use sable_network::sync::network::{GossipPeers, NetworkError, NodeConfig, PeerAddress, PeerConfig, SyncConfig};
use sable_network::sync::replicated_log::{ReplicatedEventLog, RouteAction, RouteStage, SyncStep};

fn peer(name: &str, ip: &str, port: u16, fp: &str) -> PeerConfig {
    PeerConfig {
        name: name.to_string(),
        address: PeerAddress { ip: ip.to_string(), port },
        fingerprint: fp.to_string(),
    }
}

fn peers() -> Vec<PeerConfig> {
    vec![
        peer("a.example", "10.0.0.1", 6668, "aa"),
        peer("b.example", "10.0.0.2", 6668, "a9993e364706816aba3e25717850c26c9cd0d89d"),
        peer("c.example", "10.0.0.3", 6668, "cc"),
        peer("d.example", "10.0.0.4", 6668, "dd"),
    ]
}

fn table(fanout: usize) -> GossipPeers {
    GossipPeers::new(peers(), fanout, &PeerAddress { ip: "10.0.0.1".to_string(), port: 6668 })
}

fn node_config() -> NodeConfig {
    NodeConfig {
        listen_addr: PeerAddress { ip: "10.0.0.1".to_string(), port: 6668 },
        cert_file: "cert.pem".to_string(),
        key_file: "key.pem".to_string(),
    }
}

fn sync_config() -> SyncConfig {
    SyncConfig { peers: peers(), fanout: 2, ca_file: "ca.pem".to_string() }
}

fn id(server: u16, local: u64) -> EventId {
    EventId::new(ServerId(server), EpochId(1), local)
}

fn event(eid: EventId, deps: &[EventId]) -> Event {
    let mut c = EventClock::new();
    for d in deps {
        c.update_with_id(*d);
    }
    Event { id: eid, timestamp: 1, clock: c, payload: vec![] }
}

#[test]
fn the_listen_address_is_this_node_and_peers_start_disabled() {
    let t = table(2);
    assert_eq!(t.me().name, "a.example");
    assert_eq!(t.len(), 3);
    for i in 0..3 {
        assert!(!t.is_enabled(i));
    }
    assert_eq!(t.peer(0).name, "b.example");
    assert!(t.choose_peer().is_none());
    assert!(t.choose_any_peer().is_some());
}

#[test]
fn enabled_peers_are_chosen_and_found() {
    let mut t = table(2);
    t.enable_peer(&"c.example".to_string());
    assert!(t.is_enabled(1));
    assert_eq!(t.choose_peer().unwrap().name, "c.example");
    assert_eq!(t.find_peer(&"c.example".to_string()).unwrap().name, "c.example");
    assert!(t.find_peer(&"b.example".to_string()).is_none());
    assert!(t.choose_peer_except(&vec!["c.example".to_string()]).is_none());
    t.disable_peer(&"c.example".to_string());
    assert!(t.choose_peer().is_none());
}

#[test]
fn propagation_targets_are_enabled_distinct_and_at_most_fanout() {
    let mut t = table(2);
    t.enable_peer(&"b.example".to_string());
    t.enable_peer(&"c.example".to_string());
    t.enable_peer(&"d.example".to_string());
    let targets = t.propagation_targets();
    assert_eq!(targets.len(), 2);
    assert_ne!(targets[0], targets[1]);
    let mut t1 = table(5);
    t1.enable_peer(&"d.example".to_string());
    assert_eq!(t1.propagation_targets(), vec![2]);
}

#[test]
fn authorise_peer_checks_name_address_and_certificate() {
    let t = table(2);
    assert_eq!(t.authorise_peer(&"b.example".to_string(), &"10.0.0.2".to_string(), b"abc").unwrap(), 0);
    assert!(matches!(t.authorise_peer(&"x.example".to_string(), &"10.0.0.2".to_string(), b"abc"), Err(NetworkError::AuthzError(_))));
    match t.authorise_peer(&"b.example".to_string(), &"10.9.9.9".to_string(), b"abc") {
        Err(NetworkError::AuthzError(m)) => assert_eq!(m, "IP address doesn't match peer configuration (10.9.9.9/10.0.0.2)"),
        _ => panic!("expected an authorisation error"),
    }
    assert!(matches!(t.authorise_peer(&"b.example".to_string(), &"10.0.0.2".to_string(), b"abd"), Err(NetworkError::AuthzError(_))));
    assert_eq!(t.authorise_peer_fingerprint(&"c.example".to_string(), &"10.0.0.3".to_string(), &"cc".to_string()).unwrap(), 1);
    match t.authorise_peer_fingerprint(&"c.example".to_string(), &"10.0.0.3".to_string(), &"cd".to_string()) {
        Err(NetworkError::AuthzError(m)) => assert_eq!(m, "Certificate doesn't match (cd/cc)"),
        _ => panic!("expected an authorisation error"),
    }
}

#[test]
fn peer_states_survive_save_and_restore() {
    let mut t = table(2);
    t.enable_peer(&"d.example".to_string());
    let state = t.save_state();
    assert_eq!(state.peer_states.len(), 3);
    let mut fresh = table(2);
    fresh.restore_state(&state);
    assert!(!fresh.is_enabled(0));
    assert!(!fresh.is_enabled(1));
    assert!(fresh.is_enabled(2));
}

#[test]
fn frames_carry_their_length() {
    let framed = frame_message(b"hello");
    assert_eq!(framed, vec![0, 0, 0, 5, b'h', b'e', b'l', b'l', b'o']);
    assert_eq!(frame_length(&framed[0..4]), 5);
    assert_eq!(frame_length(&[1, 2, 3, 4]), 0x01020304);
    let big = vec![7u8; 300];
    assert_eq!(frame_length(&frame_message(&big)[0..4]), 300);
}

#[test]
fn only_requests_expect_responses() {
    let m = Message { source_server: (ServerId(1), EpochId(1)), content: MessageDetail::GetNetworkState };
    assert!(m.expects_response());
    let d = Message { source_server: (ServerId(1), EpochId(1)), content: MessageDetail::Done };
    assert!(!d.expects_response());
}

fn replicated() -> ReplicatedEventLog {
    ReplicatedEventLog::new(ServerId(1), EpochId(7), sync_config(), &node_config())
}

fn from(server: u16, content: MessageDetail) -> Message {
    Message { source_server: (ServerId(server), EpochId(3)), content }
}

#[test]
fn tombstoned_servers_are_refused() {
    let mut r = replicated();
    r.enable_server(&"b.example".to_string(), ServerId(2));
    r.disable_server("b.example".to_string(), ServerId(2), EpochId(3));
    assert_eq!(r.server_is_tombstoned(ServerId(2), EpochId(3)), Some("b.example".to_string()));
    assert_eq!(r.server_is_tombstoned(ServerId(2), EpochId(4)), None);
    assert!(!r.network().is_enabled(0));
    let step = r.handle_message(from(2, MessageDetail::GetNetworkState), &"b.example".to_string());
    assert!(matches!(step, SyncStep::Reject));
    r.enable_server(&"b.example".to_string(), ServerId(2));
    assert_eq!(r.server_is_tombstoned(ServerId(2), EpochId(3)), None);
    assert!(r.network().is_enabled(0));
    let step = r.handle_message(from(2, MessageDetail::GetNetworkState), &"b.example".to_string());
    assert!(matches!(step, SyncStep::ExportState));
}

#[test]
fn new_events_are_added_requested_and_propagated() {
    let mut r = replicated();
    let step = r.handle_message(from(2, MessageDetail::NewEvent(event(id(2, 2), &[id(2, 1)]))), &"b.example".to_string());
    match step {
        SyncStep::NewEvent(o) => {
            assert!(o.ready.is_empty());
            assert_eq!(o.request, Some(vec![id(2, 1)]));
            assert_eq!(o.propagate.unwrap().id, id(2, 2));
        }
        _ => panic!("expected an event outcome"),
    }
    let step = r.handle_message(from(2, MessageDetail::BulkEvents(vec![event(id(2, 1), &[])])), &"b.example".to_string());
    match step {
        SyncStep::BulkEvents(o) => {
            assert_eq!(o.ready.iter().map(|e| e.id).collect::<Vec<_>>(), vec![id(2, 1), id(2, 2)]);
            assert!(o.requests.is_empty());
        }
        _ => panic!("expected a bulk outcome"),
    }
    let again = r.handle_new_event(event(id(2, 1), &[]), true);
    assert!(again.ready.is_empty() && again.request.is_none() && again.propagate.is_none());
}

#[test]
fn requests_for_events_are_answered_from_the_log() {
    let mut r = replicated();
    r.handle_new_event(event(id(2, 1), &[]), false);
    r.handle_new_event(event(id(3, 1), &[]), false);
    match r.handle_message(from(2, MessageDetail::GetEvent(vec![id(3, 1), id(4, 4), id(2, 1)])), &"b.example".to_string()) {
        SyncStep::SendEvents(v) => assert_eq!(v.iter().map(|e| e.id).collect::<Vec<_>>(), vec![id(3, 1), id(2, 1)]),
        _ => panic!("expected events"),
    }
    let mut c = EventClock::new();
    c.update_with_id(id(2, 1));
    match r.handle_message(from(2, MessageDetail::SyncRequest(c)), &"b.example".to_string()) {
        SyncStep::SendEvents(v) => assert_eq!(v.iter().map(|e| e.id).collect::<Vec<_>>(), vec![id(3, 1)]),
        _ => panic!("expected events"),
    }
}

#[test]
fn network_state_sets_the_clock_and_enables_servers() {
    let mut r = replicated();
    let mut c = EventClock::new();
    c.update_with_id(id(3, 9));
    let snap = NetworkSnapshot { clock: c, servers: vec![("c.example".to_string(), ServerId(3))], encoded: vec![] };
    let step = r.handle_message(from(3, MessageDetail::NetworkState(snap)), &"c.example".to_string());
    assert!(matches!(step, SyncStep::ImportState(_)));
    assert_eq!(r.event_log().clock().get(ServerId(3)), Some(id(3, 9)));
    assert!(r.network().is_enabled(1));
    assert!(!r.network().is_enabled(0));
}

#[test]
fn targeted_messages_are_delivered_or_routed() {
    let mut r = replicated();
    let mine = TargetedMessage { source: "b.example".to_string(), target: "a.example".to_string(), via: vec![], content: RemoteServerRequestType::Ping };
    assert!(matches!(r.handle_message(from(2, MessageDetail::TargetedMessage(mine)), &"b.example".to_string()), SyncStep::Deliver(RemoteServerRequestType::Ping)));
    let other = r.targeted_message("d.example".to_string(), RemoteServerRequestType::Ping);
    assert_eq!(other.source, "a.example");
    assert!(matches!(r.handle_message(from(2, MessageDetail::TargetedMessage(other)), &"b.example".to_string()), SyncStep::Route(_)));
    let mut routed = r.targeted_message("d.example".to_string(), RemoteServerRequestType::Ping);
    r.mark_routed(&mut routed);
    assert_eq!(routed.via, vec!["a.example".to_string()]);
}

#[test]
fn targeted_messages_go_direct_then_through_relays() {
    let mut r = replicated();
    r.enable_server(&"b.example".to_string(), ServerId(2));
    r.enable_server(&"c.example".to_string(), ServerId(3));
    let mut direct = r.targeted_message("b.example".to_string(), RemoteServerRequestType::Ping);
    match r.route_step(&mut direct, None) {
        RouteAction::SendTo(peer, RouteStage::Direct) => assert_eq!(peer, "b.example"),
        other => panic!("expected a direct send, got {:?}", other),
    }
    assert!(direct.via.is_empty());
    match r.route_step(&mut direct, Some(RouteStage::Direct)) {
        RouteAction::SendTo(peer, RouteStage::Relayed) => assert!(peer == "b.example" || peer == "c.example"),
        other => panic!("expected a relay, got {:?}", other),
    }
    assert_eq!(direct.via, vec!["a.example".to_string()]);
    match r.route_step(&mut direct, Some(RouteStage::Relayed)) {
        RouteAction::SendTo(_, RouteStage::Relayed) => {}
        other => panic!("expected another relay, got {:?}", other),
    }
    assert_eq!(direct.via, vec!["a.example".to_string()]);

    let mut elsewhere = r.targeted_message("z.example".to_string(), RemoteServerRequestType::Ping);
    assert!(matches!(r.route_step(&mut elsewhere, None), RouteAction::SendTo(_, RouteStage::Relayed)));
    assert_eq!(elsewhere.via, vec!["a.example".to_string()]);

    let mut stuck = r.targeted_message("z.example".to_string(), RemoteServerRequestType::Ping);
    stuck.via = vec!["b.example".to_string(), "c.example".to_string()];
    match r.route_step(&mut stuck, None) {
        RouteAction::GiveUp(NetworkError::InternalError(m)) => assert_eq!(m, "Ran out of potential peers to route targeted message"),
        other => panic!("expected to give up, got {:?}", other),
    }
    assert_eq!(stuck.via.len(), 3);
}

#[test]
fn a_peer_refusing_our_messages_is_disabled() {
    let mut r = replicated();
    r.enable_server(&"c.example".to_string(), ServerId(3));
    assert!(r.network().is_enabled(1));
    let step = r.handle_message(from(3, MessageDetail::MessageRejected), &"c.example".to_string());
    assert!(matches!(step, SyncStep::Nothing));
    assert!(!r.network().is_enabled(1));
}

#[test]
fn replicated_log_resumes_from_saved_state() {
    let mut r = replicated();
    r.enable_server(&"d.example".to_string(), ServerId(4));
    r.disable_server("b.example".to_string(), ServerId(2), EpochId(3));
    let (created, ready) = r.create_event(vec![1]);
    assert_eq!(created.id, EventId::new(ServerId(1), EpochId(7), 1));
    assert_eq!(ready.len(), 1);
    let state = r.save_state();
    let mut back = ReplicatedEventLog::restore(state, sync_config(), &node_config());
    assert_eq!(back.server_is_tombstoned(ServerId(2), EpochId(3)), Some("b.example".to_string()));
    assert!(back.network().is_enabled(2));
    assert!(!back.network().is_enabled(1));
    assert_eq!(back.event_log().clock().get(ServerId(1)), Some(created.id));
    let (next, _) = back.create_event(vec![]);
    assert_eq!(next.id.local, 2);
}

#[test]
fn joining_adopts_the_state_and_clears_tombstones() {
    let mut r = replicated();
    r.disable_server("c.example".to_string(), ServerId(3), EpochId(3));
    let mut c = EventClock::new();
    c.update_with_id(id(3, 2));
    let snap = NetworkSnapshot { clock: c, servers: vec![("c.example".to_string(), ServerId(3))], encoded: vec![] };
    r.adopt_synced_state(&snap);
    assert_eq!(r.server_is_tombstoned(ServerId(3), EpochId(3)), None);
    assert!(r.network().is_enabled(1));
    assert_eq!(r.event_log().clock().get(ServerId(3)), Some(id(3, 2)));
}
