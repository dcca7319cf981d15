//! The management interface: which request does what, and which client
//! certificates may use it.

use vstd::prelude::*;
use crate::crypto::{certificate_fingerprint, hex_lower, sha1_digest_of};
use crate::rpc::ServerManagementCommandType;
use crate::server::config::AuthorisedFingerprint;
use crate::text::str_eq;

verus! {

/// How the server is to stop.
#[derive(Clone, Copy, Debug, PartialEq, Eq, Structural)]
pub enum ShutdownAction {
    Shutdown,
    Restart,
    Upgrade,
}

/// What a management request asks for.
#[derive(Clone, Copy, Debug, PartialEq, Eq, Structural)]
pub enum ManagementRoute {
    /// A command for the server logic, answered with its response
    ServerCommand(ServerManagementCommandType),
    /// Stop the server in the given way
    Shutdown(ShutdownAction),
    /// No such request: answered with "not found"
    NotFound,
}

/// The route of a request with the given HTTP method and path.
pub open spec fn route_of(method: Seq<char>, path: Seq<char>) -> ManagementRoute {
    if method == "GET"@ && path == "/statistics"@ {
        ManagementRoute::ServerCommand(ServerManagementCommandType::ServerStatistics)
    } else if method == "GET"@ && path == "/dump-network"@ {
        ManagementRoute::ServerCommand(ServerManagementCommandType::DumpNetwork)
    } else if method == "GET"@ && path == "/dump-events"@ {
        ManagementRoute::ServerCommand(ServerManagementCommandType::DumpEvents)
    } else if method == "POST"@ && path == "/shutdown"@ {
        ManagementRoute::Shutdown(ShutdownAction::Shutdown)
    } else if method == "POST"@ && path == "/restart"@ {
        ManagementRoute::Shutdown(ShutdownAction::Restart)
    } else if method == "POST"@ && path == "/upgrade"@ {
        ManagementRoute::Shutdown(ShutdownAction::Upgrade)
    } else {
        ManagementRoute::NotFound
    }
}

/// The route of a management request: `GET` of `/statistics`,
/// `/dump-network` or `/dump-events` for the server commands, `POST` of
/// `/shutdown`, `/restart` or `/upgrade` to stop the server, anything else
/// not found.
pub fn route_request(method: &str, path: &str) -> (r: ManagementRoute)
    ensures
        r == route_of(method@, path@),
{
    let get = str_eq(method, "GET");
    let post = str_eq(method, "POST");
    if get && str_eq(path, "/statistics") {
        ManagementRoute::ServerCommand(ServerManagementCommandType::ServerStatistics)
    } else if get && str_eq(path, "/dump-network") {
        ManagementRoute::ServerCommand(ServerManagementCommandType::DumpNetwork)
    } else if get && str_eq(path, "/dump-events") {
        ManagementRoute::ServerCommand(ServerManagementCommandType::DumpEvents)
    } else if post && str_eq(path, "/shutdown") {
        ManagementRoute::Shutdown(ShutdownAction::Shutdown)
    } else if post && str_eq(path, "/restart") {
        ManagementRoute::Shutdown(ShutdownAction::Restart)
    } else if post && str_eq(path, "/upgrade") {
        ManagementRoute::Shutdown(ShutdownAction::Upgrade)
    } else {
        ManagementRoute::NotFound
    }
}

/// Requests are routed by method: only `POST` stops the server, and only
/// with one of the three stopping paths, each to its own action; only
/// `GET` runs a server command; any other method, and `GET` of a stopping
/// path, is not found.
pub proof fn law_routes_follow_method(method: Seq<char>, path: Seq<char>)
    ensures
        route_of(method, path) is Shutdown ==> method == "POST"@,
        route_of(method, path) is ServerCommand ==> method == "GET"@,
        method != "GET"@ && method != "POST"@ ==> route_of(method, path) is NotFound,
        route_of(method, path) == ManagementRoute::Shutdown(ShutdownAction::Shutdown) ==> path == "/shutdown"@,
        route_of(method, path) == ManagementRoute::Shutdown(ShutdownAction::Restart) ==> path == "/restart"@,
        route_of(method, path) == ManagementRoute::Shutdown(ShutdownAction::Upgrade) ==> path == "/upgrade"@,
        method == "GET"@ && (path == "/shutdown"@ || path == "/restart"@ || path == "/upgrade"@)
            ==> route_of(method, path) is NotFound,
        method == "POST"@ && (path == "/statistics"@ || path == "/dump-network"@ || path == "/dump-events"@)
            ==> route_of(method, path) is NotFound,
{
    reveal_strlit("GET");
    reveal_strlit("POST");
    reveal_strlit("/statistics");
    reveal_strlit("/dump-network");
    reveal_strlit("/dump-events");
    reveal_strlit("/shutdown");
    reveal_strlit("/restart");
    reveal_strlit("/upgrade");
    assert("GET"@ != "POST"@) by {
        assert("GET"@.len() != "POST"@.len());
    }
    assert("/shutdown"@.len() == 9 && "/restart"@.len() == 8 && "/upgrade"@.len() == 8);
    assert("/statistics"@.len() == 11 && "/dump-network"@.len() == 13 && "/dump-events"@.len() == 12);
    assert("/shutdown"@ != "/statistics"@ && "/shutdown"@ != "/dump-network"@ && "/shutdown"@ != "/dump-events"@);
    assert("/restart"@ != "/statistics"@ && "/restart"@ != "/dump-network"@ && "/restart"@ != "/dump-events"@);
    assert("/upgrade"@ != "/statistics"@ && "/upgrade"@ != "/dump-network"@ && "/upgrade"@ != "/dump-events"@);
}

/// The position of the first authorised fingerprint equal to `fingerprint`.
pub open spec fn first_authorised(fps: Seq<AuthorisedFingerprint>, fingerprint: Seq<char>, r: Option<usize>) -> bool {
    match r {
        Some(i) => i < fps.len() && fps[i as int].fingerprint@ == fingerprint
            && forall|j: int| 0 <= j < i ==> fps[j].fingerprint@ != fingerprint,
        None => forall|j: int| 0 <= j < fps.len() ==> fps[j].fingerprint@ != fingerprint,
    }
}

/// The first authorised fingerprint for the client certificate `cert_der`
/// (the lowercase hex SHA-1 digest of its DER bytes), given by position;
/// `None` when the certificate is not authorised.
pub fn find_authorised_fingerprint(fps: &Vec<AuthorisedFingerprint>, cert_der: &[u8]) -> (r: Option<usize>)
    ensures
        first_authorised(fps@, hex_lower(sha1_digest_of(cert_der@)), r),
{
    let fingerprint = certificate_fingerprint(cert_der);
    find_fingerprint(fps, fingerprint.as_str())
}

/// The first authorised fingerprint equal to `fingerprint`, given by position.
pub fn find_fingerprint(fps: &Vec<AuthorisedFingerprint>, fingerprint: &str) -> (r: Option<usize>)
    ensures
        first_authorised(fps@, fingerprint@, r),
{
    let mut i: usize = 0;
    while i < fps.len()
        invariant
            i <= fps@.len(),
            forall|j: int| 0 <= j < i ==> fps@[j].fingerprint@ != fingerprint@,
        decreases fps@.len() - i,
    {
        if str_eq(fps[i].fingerprint.as_str(), fingerprint) {
            return Some(i);
        }
        i = i + 1;
    }
    None
}

} // verus!
