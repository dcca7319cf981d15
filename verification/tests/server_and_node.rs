use sable_network::crypto::certificate_fingerprint;
use sable_network::id::{EpochId, ObjectIdParts, ServerId, UserId};
use sable_network::node::{dump_events, dump_network_state, node_shutdown, servers_to_ping_out, users_to_notify, ServerPingInfo, UpdateAudience};
use sable_network::rpc::ServerManagementCommandType;
use sable_network::server::config::{AuthorisedFingerprint, BuiltinLogTarget, LogEntry, LogLevel, LogTarget};
use sable_network::server::management::{find_authorised_fingerprint, find_fingerprint, route_request, ManagementRoute, ShutdownAction};
use sable_network::server::should_daemonise;
use sable_network::text::pair_message;

fn uid(n: u64) -> UserId {
    UserId(ObjectIdParts { server: ServerId(1), epoch: EpochId(1), local: n })
}

#[test]
fn management_requests_are_routed() {
    assert_eq!(route_request("GET", "/statistics"), ManagementRoute::ServerCommand(ServerManagementCommandType::ServerStatistics));
    assert_eq!(route_request("GET", "/dump-network"), ManagementRoute::ServerCommand(ServerManagementCommandType::DumpNetwork));
    assert_eq!(route_request("GET", "/dump-events"), ManagementRoute::ServerCommand(ServerManagementCommandType::DumpEvents));
    assert_eq!(route_request("POST", "/shutdown"), ManagementRoute::Shutdown(ShutdownAction::Shutdown));
    assert_eq!(route_request("POST", "/restart"), ManagementRoute::Shutdown(ShutdownAction::Restart));
    assert_eq!(route_request("POST", "/upgrade"), ManagementRoute::Shutdown(ShutdownAction::Upgrade));
    assert_eq!(route_request("POST", "/statistics"), ManagementRoute::NotFound);
    assert_eq!(route_request("GET", "/shutdown"), ManagementRoute::NotFound);
    assert_eq!(route_request("GET", "/"), ManagementRoute::NotFound);
}

#[test]
fn certificates_are_known_by_their_sha1_fingerprint() {
    assert_eq!(certificate_fingerprint(b"abc"), "a9993e364706816aba3e25717850c26c9cd0d89d");
    let fps = vec![
        AuthorisedFingerprint { name: "ops".to_string(), fingerprint: "00".to_string() },
        AuthorisedFingerprint { name: "admin".to_string(), fingerprint: "a9993e364706816aba3e25717850c26c9cd0d89d".to_string() },
    ];
    assert_eq!(find_authorised_fingerprint(&fps, b"abc"), Some(1));
    assert_eq!(find_authorised_fingerprint(&fps, b"abd"), None);
    assert_eq!(find_fingerprint(&fps, "00"), Some(0));
    assert_eq!(find_fingerprint(&fps, "01"), None);
}

#[test]
fn log_entries_filter_by_level_and_module() {
    let e = LogEntry {
        target: LogTarget::Builtin(BuiltinLogTarget::Stdout),
        category: None,
        modules: vec!["sable_network::sync".to_string()],
        level: Some(LogLevel::Info),
    };
    assert!(e.takes(LogLevel::Warn, Some("sable_network::sync::network")));
    assert!(!e.takes(LogLevel::Debug, Some("sable_network::sync::network")));
    assert!(!e.takes(LogLevel::Error, Some("sable_network::policy")));
    assert!(e.takes(LogLevel::Error, None));
    let all = LogEntry { target: LogTarget::File { filename: "x.log".to_string() }, category: None, modules: vec![], level: None };
    assert!(all.takes(LogLevel::Trace, Some("anything")));
    let off = LogEntry { target: LogTarget::Builtin(BuiltinLogTarget::Stderr), category: None, modules: vec![], level: Some(LogLevel::Off) };
    assert!(!off.takes(LogLevel::Error, None));
}

#[test]
fn only_fresh_starts_in_the_background_daemonise() {
    assert!(should_daemonise(false, false));
    assert!(!should_daemonise(true, false));
    assert!(!should_daemonise(false, true));
}

#[test]
fn silent_servers_ping_out() {
    let servers = vec![
        ServerPingInfo { id: ServerId(1), epoch: EpochId(1), last_ping: 1000 },
        ServerPingInfo { id: ServerId(2), epoch: EpochId(5), last_ping: 700 },
        ServerPingInfo { id: ServerId(3), epoch: EpochId(1), last_ping: 760 },
    ];
    assert_eq!(servers_to_ping_out(1000, 240, &servers), vec![(ServerId(2), EpochId(5))]);
    assert!(servers_to_ping_out(1000, 1000, &servers).is_empty());
}

#[test]
fn updates_reach_the_right_users() {
    assert!(users_to_notify(&UpdateAudience::Nobody).is_empty());
    assert_eq!(users_to_notify(&UpdateAudience::User(uid(1))), vec![uid(1)]);
    assert_eq!(users_to_notify(&UpdateAudience::Members(vec![uid(1), uid(2)])), vec![uid(1), uid(2)]);
    assert_eq!(users_to_notify(&UpdateAudience::ListWatchers(vec![(uid(1), false), (uid(2), true)])), vec![uid(2)]);
    assert_eq!(users_to_notify(&UpdateAudience::MembersAnd(vec![uid(1)], uid(9))), vec![uid(1), uid(9)]);
    let mut n = users_to_notify(&UpdateAudience::Neighbours(uid(5), vec![vec![uid(1), uid(5)], vec![uid(2), uid(1)]]));
    n.sort_by_key(|u| u.0.local);
    assert_eq!(n, vec![uid(1), uid(2), uid(5)]);
    let alone = users_to_notify(&UpdateAudience::Neighbours(uid(5), vec![]));
    assert_eq!(alone, vec![uid(5)]);
    let mut q = users_to_notify(&UpdateAudience::ChannelsMembers(vec![vec![uid(3)], vec![uid(3), uid(4)]]));
    q.sort_by_key(|u| u.0.local);
    assert_eq!(q, vec![uid(3), uid(4)]);
    assert_eq!(users_to_notify(&UpdateAudience::PrivateMessage { target: uid(1), source: Some(uid(2)) }), vec![uid(1), uid(2)]);
    assert_eq!(users_to_notify(&UpdateAudience::PrivateMessage { target: uid(1), source: Some(uid(1)) }), vec![uid(1)]);
    assert_eq!(users_to_notify(&UpdateAudience::PrivateMessage { target: uid(1), source: None }), vec![uid(1)]);
}

#[test]
fn debug_dumps_are_disabled() {
    assert_eq!(dump_network_state(), "{\"error\": \"Debug functionality not enabled\"}");
    assert_eq!(dump_events(), "{\"error\": \"Debug functionality not enabled\"}");
}

#[test]
fn pair_messages_are_formatted() {
    assert_eq!(pair_message("Mismatch", "a", "b"), "Mismatch (a/b)");
}


#[test]
fn a_node_announces_its_departure_unless_upgrading() {
    assert_eq!(node_shutdown(Some(ShutdownAction::Shutdown)), (ShutdownAction::Shutdown, true));
    assert_eq!(node_shutdown(Some(ShutdownAction::Restart)), (ShutdownAction::Restart, true));
    assert_eq!(node_shutdown(Some(ShutdownAction::Upgrade)), (ShutdownAction::Upgrade, false));
    assert_eq!(node_shutdown(None), (ShutdownAction::Shutdown, true));
}
