//! The configuration entities and the snapshot that bundles them, together
//! with the pure compute parts of entity creation and update.

use vstd::prelude::*;
use crate::ids::Id;
use crate::json::Json;

verus! {

/// A named binding of a port and protocol, optionally anchored to a TLS
/// policy. Timestamps are Unix seconds.
#[derive(Debug, Clone)]
pub struct Listener {
    pub id: Id,
    pub name: String,
    pub port: i32,
    pub protocol: String,
    pub tls_policy_id: Option<Id>,
    pub enabled: bool,
    pub created_at: i64,
    pub updated_at: i64,
}

/// A conditional forwarding rule owned by one listener.
#[derive(Debug)]
pub struct Route {
    pub id: Id,
    pub listener_id: Id,
    pub kind: String,
    pub match_expr: Json,
    pub priority: i32,
    pub upstream_pool_id: Id,
    pub enabled: bool,
    pub created_at: i64,
    pub updated_at: i64,
}

/// A load-balanced set of targets sharing a policy and optional health check.
#[derive(Debug)]
pub struct UpstreamPool {
    pub id: Id,
    pub name: String,
    pub policy: String,
    pub health_check: Option<Json>,
    pub created_at: i64,
    pub updated_at: i64,
}

/// A concrete `host:port` endpoint with a weight and an enable flag.
#[derive(Debug, Clone)]
pub struct UpstreamTarget {
    pub id: Id,
    pub pool_id: Id,
    pub address: String,
    pub weight: i32,
    pub enabled: bool,
    pub created_at: i64,
    pub updated_at: i64,
}

/// A group of domains and an issuance mode.
#[derive(Debug, Clone)]
pub struct TlsPolicy {
    pub id: Id,
    pub mode: String,
    pub domains: Vec<String>,
    pub status: String,
    pub created_at: i64,
    pub updated_at: i64,
}

/// An issued certificate; `expires_at` is Unix seconds.
#[derive(Debug, Clone)]
pub struct Certificate {
    pub id: Id,
    pub domain: String,
    pub cert_pem: String,
    pub key_pem: String,
    pub expires_at: i64,
    pub status: String,
    pub created_at: i64,
    pub updated_at: i64,
}

/// An immutable, self-contained bundle of the entities: the unit of
/// publication.
#[derive(Debug)]
pub struct Snapshot {
    pub listeners: Vec<Listener>,
    pub routes: Vec<Route>,
    pub upstream_pools: Vec<UpstreamPool>,
    pub upstream_targets: Vec<UpstreamTarget>,
    pub tls_policies: Vec<TlsPolicy>,
    pub certificates: Vec<Certificate>,
}

impl Default for Snapshot {
    /// The empty snapshot.
    fn default() -> (r: Self)
        ensures
            r.listeners@.len() == 0,
            r.routes@.len() == 0,
            r.upstream_pools@.len() == 0,
            r.upstream_targets@.len() == 0,
            r.tls_policies@.len() == 0,
            r.certificates@.len() == 0,
    {
        Snapshot {
            listeners: Vec::new(),
            routes: Vec::new(),
            upstream_pools: Vec::new(),
            upstream_targets: Vec::new(),
            tls_policies: Vec::new(),
            certificates: Vec::new(),
        }
    }
}

/// A structured route match expression: every field optional.
#[derive(Debug)]
pub struct RouteMatch {
    pub host: Option<String>,
    pub path_prefix: Option<String>,
    pub path_regex: Option<String>,
    pub method: Option<Vec<String>>,
    pub headers: Option<Vec<(String, String)>>,
    pub query: Option<Vec<(String, String)>>,
    pub ws: Option<bool>,
}

// ---------------------------------------------------------------------
// Creation payloads and the pure part of the create handlers.
// ---------------------------------------------------------------------

#[derive(Debug)]
pub struct CreateListener {
    pub name: String,
    pub port: i32,
    pub protocol: String,
    pub tls_policy_id: Option<Id>,
    pub enabled: Option<bool>,
}

#[derive(Debug)]
pub struct UpdateListener {
    pub name: Option<String>,
    pub port: Option<i32>,
    pub protocol: Option<String>,
    pub tls_policy_id: Option<Id>,
    pub enabled: Option<bool>,
}

#[derive(Debug)]
pub struct CreateRoute {
    pub listener_id: Id,
    pub kind: String,
    pub match_expr: Json,
    pub priority: i32,
    pub upstream_pool_id: Id,
    pub enabled: Option<bool>,
}

#[derive(Debug)]
pub struct UpdateRoute {
    pub kind: Option<String>,
    pub match_expr: Option<Json>,
    pub priority: Option<i32>,
    pub upstream_pool_id: Option<Id>,
    pub enabled: Option<bool>,
}

#[derive(Debug)]
pub struct CreateUpstreamPool {
    pub name: String,
    pub policy: String,
    pub health_check: Option<Json>,
}

#[derive(Debug)]
pub struct UpdateUpstreamPool {
    pub name: Option<String>,
    pub policy: Option<String>,
    pub health_check: Option<Json>,
}

#[derive(Debug)]
pub struct CreateUpstreamTarget {
    pub address: String,
    pub weight: Option<i32>,
    pub enabled: Option<bool>,
}

#[derive(Debug)]
pub struct UpdateUpstreamTarget {
    pub address: Option<String>,
    pub weight: Option<i32>,
    pub enabled: Option<bool>,
}

#[derive(Debug)]
pub struct CreateTlsPolicy {
    pub mode: String,
    pub domains: Vec<String>,
}

#[derive(Debug)]
pub struct UpdateTlsPolicy {
    pub mode: Option<String>,
    pub domains: Option<Vec<String>>,
    pub status: Option<String>,
}

/// Builds the listener a create request describes; `enabled` defaults to true.
pub fn new_listener(id: Id, now: i64, p: CreateListener) -> (r: Listener)
    ensures
        r.id == id,
        r.name == p.name,
        r.port == p.port,
        r.protocol == p.protocol,
        r.tls_policy_id == p.tls_policy_id,
        r.enabled == if p.enabled is Some {
            p.enabled.unwrap()
        } else {
            true
        },
        r.created_at == now,
        r.updated_at == now,
{
    let enabled = match p.enabled {
        Some(e) => e,
        None => true,
    };
    Listener {
        id,
        name: p.name,
        port: p.port,
        protocol: p.protocol,
        tls_policy_id: p.tls_policy_id,
        enabled,
        created_at: now,
        updated_at: now,
    }
}

/// Merges an update into a listener: set fields replace, unset fields stay.
pub fn apply_listener_update(l: Listener, p: UpdateListener, now: i64) -> (r: Listener)
    ensures
        r.id == l.id,
        r.name == if p.name is Some {
            p.name.unwrap()
        } else {
            l.name
        },
        r.port == if p.port is Some {
            p.port.unwrap()
        } else {
            l.port
        },
        r.protocol == if p.protocol is Some {
            p.protocol.unwrap()
        } else {
            l.protocol
        },
        r.tls_policy_id == if p.tls_policy_id is Some {
            p.tls_policy_id
        } else {
            l.tls_policy_id
        },
        r.enabled == if p.enabled is Some {
            p.enabled.unwrap()
        } else {
            l.enabled
        },
        r.created_at == l.created_at,
        r.updated_at == now,
{
    Listener {
        id: l.id,
        name: match p.name {
            Some(v) => v,
            None => l.name,
        },
        port: match p.port {
            Some(v) => v,
            None => l.port,
        },
        protocol: match p.protocol {
            Some(v) => v,
            None => l.protocol,
        },
        tls_policy_id: match p.tls_policy_id {
            Some(v) => Some(v),
            None => l.tls_policy_id,
        },
        enabled: match p.enabled {
            Some(v) => v,
            None => l.enabled,
        },
        created_at: l.created_at,
        updated_at: now,
    }
}

/// Builds the route a create request describes; `enabled` defaults to true.
pub fn new_route(id: Id, now: i64, p: CreateRoute) -> (r: Route)
    ensures
        r.id == id,
        r.listener_id == p.listener_id,
        r.kind == p.kind,
        r.match_expr == p.match_expr,
        r.priority == p.priority,
        r.upstream_pool_id == p.upstream_pool_id,
        r.enabled == if p.enabled is Some {
            p.enabled.unwrap()
        } else {
            true
        },
        r.created_at == now,
        r.updated_at == now,
{
    let enabled = match p.enabled {
        Some(e) => e,
        None => true,
    };
    Route {
        id,
        listener_id: p.listener_id,
        kind: p.kind,
        match_expr: p.match_expr,
        priority: p.priority,
        upstream_pool_id: p.upstream_pool_id,
        enabled,
        created_at: now,
        updated_at: now,
    }
}

/// Merges an update into a route.
pub fn apply_route_update(l: Route, p: UpdateRoute, now: i64) -> (r: Route)
    ensures
        r.id == l.id,
        r.listener_id == l.listener_id,
        r.kind == if p.kind is Some {
            p.kind.unwrap()
        } else {
            l.kind
        },
        r.match_expr == if p.match_expr is Some {
            p.match_expr.unwrap()
        } else {
            l.match_expr
        },
        r.priority == if p.priority is Some {
            p.priority.unwrap()
        } else {
            l.priority
        },
        r.upstream_pool_id == if p.upstream_pool_id is Some {
            p.upstream_pool_id.unwrap()
        } else {
            l.upstream_pool_id
        },
        r.enabled == if p.enabled is Some {
            p.enabled.unwrap()
        } else {
            l.enabled
        },
        r.created_at == l.created_at,
        r.updated_at == now,
{
    Route {
        id: l.id,
        listener_id: l.listener_id,
        kind: match p.kind {
            Some(v) => v,
            None => l.kind,
        },
        match_expr: match p.match_expr {
            Some(v) => v,
            None => l.match_expr,
        },
        priority: match p.priority {
            Some(v) => v,
            None => l.priority,
        },
        upstream_pool_id: match p.upstream_pool_id {
            Some(v) => v,
            None => l.upstream_pool_id,
        },
        enabled: match p.enabled {
            Some(v) => v,
            None => l.enabled,
        },
        created_at: l.created_at,
        updated_at: now,
    }
}

/// Builds the pool a create request describes.
pub fn new_pool(id: Id, now: i64, p: CreateUpstreamPool) -> (r: UpstreamPool)
    ensures
        r.id == id,
        r.name == p.name,
        r.policy == p.policy,
        r.health_check == p.health_check,
        r.created_at == now,
        r.updated_at == now,
{
    UpstreamPool {
        id,
        name: p.name,
        policy: p.policy,
        health_check: p.health_check,
        created_at: now,
        updated_at: now,
    }
}

/// Merges an update into a pool.
pub fn apply_pool_update(l: UpstreamPool, p: UpdateUpstreamPool, now: i64) -> (r: UpstreamPool)
    ensures
        r.id == l.id,
        r.name == if p.name is Some {
            p.name.unwrap()
        } else {
            l.name
        },
        r.policy == if p.policy is Some {
            p.policy.unwrap()
        } else {
            l.policy
        },
        r.health_check == if p.health_check is Some {
            p.health_check
        } else {
            l.health_check
        },
        r.created_at == l.created_at,
        r.updated_at == now,
{
    UpstreamPool {
        id: l.id,
        name: match p.name {
            Some(v) => v,
            None => l.name,
        },
        policy: match p.policy {
            Some(v) => v,
            None => l.policy,
        },
        health_check: match p.health_check {
            Some(v) => Some(v),
            None => l.health_check,
        },
        created_at: l.created_at,
        updated_at: now,
    }
}

/// Builds the target a create request describes; weight defaults to one,
/// `enabled` to true.
pub fn new_target(id: Id, pool_id: Id, now: i64, p: CreateUpstreamTarget) -> (r: UpstreamTarget)
    ensures
        r.id == id,
        r.pool_id == pool_id,
        r.address == p.address,
        r.weight == if p.weight is Some {
            p.weight.unwrap()
        } else {
            1
        },
        r.enabled == if p.enabled is Some {
            p.enabled.unwrap()
        } else {
            true
        },
        r.created_at == now,
        r.updated_at == now,
{
    UpstreamTarget {
        id,
        pool_id,
        address: p.address,
        weight: match p.weight {
            Some(v) => v,
            None => 1,
        },
        enabled: match p.enabled {
            Some(v) => v,
            None => true,
        },
        created_at: now,
        updated_at: now,
    }
}

/// Merges an update into a target.
pub fn apply_target_update(l: UpstreamTarget, p: UpdateUpstreamTarget, now: i64) -> (r:
    UpstreamTarget)
    ensures
        r.id == l.id,
        r.pool_id == l.pool_id,
        r.address == if p.address is Some {
            p.address.unwrap()
        } else {
            l.address
        },
        r.weight == if p.weight is Some {
            p.weight.unwrap()
        } else {
            l.weight
        },
        r.enabled == if p.enabled is Some {
            p.enabled.unwrap()
        } else {
            l.enabled
        },
        r.created_at == l.created_at,
        r.updated_at == now,
{
    UpstreamTarget {
        id: l.id,
        pool_id: l.pool_id,
        address: match p.address {
            Some(v) => v,
            None => l.address,
        },
        weight: match p.weight {
            Some(v) => v,
            None => l.weight,
        },
        enabled: match p.enabled {
            Some(v) => v,
            None => l.enabled,
        },
        created_at: l.created_at,
        updated_at: now,
    }
}

/// Builds the TLS policy a create request describes; it starts pending.
pub fn new_tls_policy(id: Id, now: i64, p: CreateTlsPolicy) -> (r: TlsPolicy)
    ensures
        r.id == id,
        r.mode == p.mode,
        r.domains == p.domains,
        r.status@ == "pending"@,
        r.created_at == now,
        r.updated_at == now,
{
    TlsPolicy {
        id,
        mode: p.mode,
        domains: p.domains,
        status: string_pending(),
        created_at: now,
        updated_at: now,
    }
}

fn string_pending() -> (r: String)
    ensures
        r@ == "pending"@,
{
    "pending".to_owned()
}

/// Merges an update into a TLS policy.
pub fn apply_tls_policy_update(l: TlsPolicy, p: UpdateTlsPolicy, now: i64) -> (r: TlsPolicy)
    ensures
        r.id == l.id,
        r.mode == if p.mode is Some {
            p.mode.unwrap()
        } else {
            l.mode
        },
        r.domains == if p.domains is Some {
            p.domains.unwrap()
        } else {
            l.domains
        },
        r.status == if p.status is Some {
            p.status.unwrap()
        } else {
            l.status
        },
        r.created_at == l.created_at,
        r.updated_at == now,
{
    TlsPolicy {
        id: l.id,
        mode: match p.mode {
            Some(v) => v,
            None => l.mode,
        },
        domains: match p.domains {
            Some(v) => v,
            None => l.domains,
        },
        status: match p.status {
            Some(v) => v,
            None => l.status,
        },
        created_at: l.created_at,
        updated_at: now,
    }
}

/// The renewal sweep: every policy in `auto` mode goes back to `pending`.
pub fn mark_auto_policies_pending(policies: Vec<TlsPolicy>) -> (r: Vec<TlsPolicy>)
    ensures
        r@.len() == policies@.len(),
        forall|i: int|
            0 <= i < r@.len() ==> {
                let p = policies@[i];
                let q = #[trigger] r@[i];
                q.id == p.id && q.mode == p.mode && q.domains == p.domains && q.created_at
                    == p.created_at && q.updated_at == p.updated_at && q.status@ == (
                if p.mode@ == "auto"@ {
                    "pending"@
                } else {
                    p.status@
                })
            },
{
    let mut out: Vec<TlsPolicy> = Vec::new();
    let mut rest = policies;
    let ghost orig = rest@;
    while rest.len() > 0
        invariant
            out@.len() + rest@.len() == orig.len(),
            rest@ == orig.skip(out@.len() as int),
            forall|k: int|
                0 <= k < out@.len() ==> {
                    let p = orig[k];
                    let q = #[trigger] out@[k];
                    q.id == p.id && q.mode == p.mode && q.domains == p.domains && q.created_at
                        == p.created_at && q.updated_at == p.updated_at && q.status@ == (
                    if p.mode@ == "auto"@ {
                        "pending"@
                    } else {
                        p.status@
                    })
                },
        decreases rest@.len(),
    {
        let ghost n = out@.len() as int;
        let p = rest.remove(0);
        proof {
            assert(orig.skip(n)[0] == orig[n]);
            assert(orig[n] == p);
            assert(rest@ =~= orig.skip(n + 1));
        }
        let is_auto = crate::text::str_eq(p.mode.as_str(), "auto");
        let status = if is_auto {
            string_pending()
        } else {
            p.status
        };
        let q = TlsPolicy {
            id: p.id,
            mode: p.mode,
            domains: p.domains,
            status,
            created_at: p.created_at,
            updated_at: p.updated_at,
        };
        out.push(q);
    }
    out
}

} // verus!
