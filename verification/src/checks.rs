//! The publish-time validator: the complete, deterministically ordered
//! check of a snapshot against the configuration invariants. Its order is
//! stable: range, listener, pool, target, TLS, route-conflict, route.

use vstd::prelude::*;
use crate::canon::{canon_match_eq, canon_eq};
use crate::config::{PortRange, ranges_overlap_spec, ranges_overlap};
use crate::ids::Id;
use crate::json::Json;
use crate::matcher::{RouteKind, route_kind_of};
use crate::matchexpr::{parse_route_match, route_match_from_json};
use crate::models::{Listener, Route, Snapshot, TlsPolicy, UpstreamPool, UpstreamTarget};
use crate::text::{
    lower_seq, eq_ignore_case_spec, eq_ignore_ascii_case, parse_host_port_spec, parse_host_port,
};
use crate::validation::{is_https_spec, port_in_bounds};
use vstd::string::StringExecFns;

verus! {

/// One finding of the publish-time validator.
#[derive(Debug, Clone)]
pub enum Issue {
    RangeOverlap { http_range: PortRange, https_range: PortRange },
    DuplicateListenerKey { protocol: String, port: i32 },
    ListenerInvalidPort { listener_id: Id, port: i32 },
    DuplicateBindPort { port: u16 },
    HttpsPortOutsideRange { listener_id: Id, port: u16 },
    HttpsPortConflictsHttp { listener_id: Id, port: u16 },
    HttpPortOutsideRange { listener_id: Id, port: u16 },
    HttpPortConflictsHttps { listener_id: Id, port: u16 },
    ListenerInvalidProtocol { listener_id: Id, protocol: String },
    ListenerTlsPolicyNotFound { listener_id: Id },
    ListenerHttpsRequiresTls { listener_id: Id },
    PoolInvalidPolicy { pool_id: Id, policy: String },
    PoolHealthCheckNotObject { pool_id: Id },
    PoolHealthCheckKind { pool_id: Id, kind: String },
    PoolHealthCheckInterval { pool_id: Id },
    PoolHealthCheckTimeout { pool_id: Id },
    TargetPoolNotFound { target_id: Id, pool_id: Id },
    TargetInvalidWeight { target_id: Id, weight: i32 },
    TargetInvalidAddress { target_id: Id, address: String },
    TlsDomainsEmpty { policy_id: Id },
    TlsInvalidMode { policy_id: Id, mode: String },
    TlsInvalidStatus { policy_id: Id, status: String },
    RouteConflict { route_id: Id, other_id: Id },
    RouteListenerNotFound { route_id: Id, listener_id: Id },
    RouteDisabledListener { route_id: Id, listener_id: Id },
    RoutePoolNotFound { route_id: Id, pool_id: Id },
    RouteInvalidPriority { route_id: Id, priority: i32 },
    RoutePathRequiresCondition { route_id: Id },
    RouteWsRequiresWs { route_id: Id },
    RouteWsRequiresCondition { route_id: Id },
    RouteInvalidMatchExpr { route_id: Id },
    RouteInvalidType { route_id: Id, kind: String },
}

/// The mathematical value of a finding: strings as character sequences.
pub enum IssueV {
    RangeOverlap { http_range: PortRange, https_range: PortRange },
    DuplicateListenerKey { protocol: Seq<char>, port: i32 },
    ListenerInvalidPort { listener_id: Id, port: i32 },
    DuplicateBindPort { port: u16 },
    HttpsPortOutsideRange { listener_id: Id, port: u16 },
    HttpsPortConflictsHttp { listener_id: Id, port: u16 },
    HttpPortOutsideRange { listener_id: Id, port: u16 },
    HttpPortConflictsHttps { listener_id: Id, port: u16 },
    ListenerInvalidProtocol { listener_id: Id, protocol: Seq<char> },
    ListenerTlsPolicyNotFound { listener_id: Id },
    ListenerHttpsRequiresTls { listener_id: Id },
    PoolInvalidPolicy { pool_id: Id, policy: Seq<char> },
    PoolHealthCheckNotObject { pool_id: Id },
    PoolHealthCheckKind { pool_id: Id, kind: Seq<char> },
    PoolHealthCheckInterval { pool_id: Id },
    PoolHealthCheckTimeout { pool_id: Id },
    TargetPoolNotFound { target_id: Id, pool_id: Id },
    TargetInvalidWeight { target_id: Id, weight: i32 },
    TargetInvalidAddress { target_id: Id, address: Seq<char> },
    TlsDomainsEmpty { policy_id: Id },
    TlsInvalidMode { policy_id: Id, mode: Seq<char> },
    TlsInvalidStatus { policy_id: Id, status: Seq<char> },
    RouteConflict { route_id: Id, other_id: Id },
    RouteListenerNotFound { route_id: Id, listener_id: Id },
    RouteDisabledListener { route_id: Id, listener_id: Id },
    RoutePoolNotFound { route_id: Id, pool_id: Id },
    RouteInvalidPriority { route_id: Id, priority: i32 },
    RoutePathRequiresCondition { route_id: Id },
    RouteWsRequiresWs { route_id: Id },
    RouteWsRequiresCondition { route_id: Id },
    RouteInvalidMatchExpr { route_id: Id },
    RouteInvalidType { route_id: Id, kind: Seq<char> },
}

impl View for Issue {
    type V = IssueV;

    open spec fn view(&self) -> IssueV {
        match self {
            Issue::RangeOverlap { http_range, https_range } => IssueV::RangeOverlap {
                http_range: *http_range,
                https_range: *https_range,
            },
            Issue::DuplicateListenerKey { protocol, port } => IssueV::DuplicateListenerKey {
                protocol: protocol@,
                port: *port,
            },
            Issue::ListenerInvalidPort { listener_id, port } => IssueV::ListenerInvalidPort {
                listener_id: *listener_id,
                port: *port,
            },
            Issue::DuplicateBindPort { port } => IssueV::DuplicateBindPort { port: *port },
            Issue::HttpsPortOutsideRange { listener_id, port } => IssueV::HttpsPortOutsideRange {
                listener_id: *listener_id,
                port: *port,
            },
            Issue::HttpsPortConflictsHttp { listener_id, port } => IssueV::HttpsPortConflictsHttp {
                listener_id: *listener_id,
                port: *port,
            },
            Issue::HttpPortOutsideRange { listener_id, port } => IssueV::HttpPortOutsideRange {
                listener_id: *listener_id,
                port: *port,
            },
            Issue::HttpPortConflictsHttps { listener_id, port } => IssueV::HttpPortConflictsHttps {
                listener_id: *listener_id,
                port: *port,
            },
            Issue::ListenerInvalidProtocol { listener_id, protocol } => IssueV::ListenerInvalidProtocol {
                listener_id: *listener_id,
                protocol: protocol@,
            },
            Issue::ListenerTlsPolicyNotFound { listener_id } => IssueV::ListenerTlsPolicyNotFound {
                listener_id: *listener_id,
            },
            Issue::ListenerHttpsRequiresTls { listener_id } => IssueV::ListenerHttpsRequiresTls {
                listener_id: *listener_id,
            },
            Issue::PoolInvalidPolicy { pool_id, policy } => IssueV::PoolInvalidPolicy {
                pool_id: *pool_id,
                policy: policy@,
            },
            Issue::PoolHealthCheckNotObject { pool_id } => IssueV::PoolHealthCheckNotObject {
                pool_id: *pool_id,
            },
            Issue::PoolHealthCheckKind { pool_id, kind } => IssueV::PoolHealthCheckKind {
                pool_id: *pool_id,
                kind: kind@,
            },
            Issue::PoolHealthCheckInterval { pool_id } => IssueV::PoolHealthCheckInterval {
                pool_id: *pool_id,
            },
            Issue::PoolHealthCheckTimeout { pool_id } => IssueV::PoolHealthCheckTimeout {
                pool_id: *pool_id,
            },
            Issue::TargetPoolNotFound { target_id, pool_id } => IssueV::TargetPoolNotFound {
                target_id: *target_id,
                pool_id: *pool_id,
            },
            Issue::TargetInvalidWeight { target_id, weight } => IssueV::TargetInvalidWeight {
                target_id: *target_id,
                weight: *weight,
            },
            Issue::TargetInvalidAddress { target_id, address } => IssueV::TargetInvalidAddress {
                target_id: *target_id,
                address: address@,
            },
            Issue::TlsDomainsEmpty { policy_id } => IssueV::TlsDomainsEmpty {
                policy_id: *policy_id,
            },
            Issue::TlsInvalidMode { policy_id, mode } => IssueV::TlsInvalidMode {
                policy_id: *policy_id,
                mode: mode@,
            },
            Issue::TlsInvalidStatus { policy_id, status } => IssueV::TlsInvalidStatus {
                policy_id: *policy_id,
                status: status@,
            },
            Issue::RouteConflict { route_id, other_id } => IssueV::RouteConflict {
                route_id: *route_id,
                other_id: *other_id,
            },
            Issue::RouteListenerNotFound { route_id, listener_id } => IssueV::RouteListenerNotFound {
                route_id: *route_id,
                listener_id: *listener_id,
            },
            Issue::RouteDisabledListener { route_id, listener_id } => IssueV::RouteDisabledListener {
                route_id: *route_id,
                listener_id: *listener_id,
            },
            Issue::RoutePoolNotFound { route_id, pool_id } => IssueV::RoutePoolNotFound {
                route_id: *route_id,
                pool_id: *pool_id,
            },
            Issue::RouteInvalidPriority { route_id, priority } => IssueV::RouteInvalidPriority {
                route_id: *route_id,
                priority: *priority,
            },
            Issue::RoutePathRequiresCondition { route_id } => IssueV::RoutePathRequiresCondition {
                route_id: *route_id,
            },
            Issue::RouteWsRequiresWs { route_id } => IssueV::RouteWsRequiresWs {
                route_id: *route_id,
            },
            Issue::RouteWsRequiresCondition { route_id } => IssueV::RouteWsRequiresCondition {
                route_id: *route_id,
            },
            Issue::RouteInvalidMatchExpr { route_id } => IssueV::RouteInvalidMatchExpr {
                route_id: *route_id,
            },
            Issue::RouteInvalidType { route_id, kind } => IssueV::RouteInvalidType {
                route_id: *route_id,
                kind: kind@,
            },
        }
    }
}

pub open spec fn issues_view(s: Seq<Issue>) -> Seq<IssueV> {
    s.map_values(|e: Issue| e@)
}

// ---------------------------------------------------------------------
// Reference sets.
// ---------------------------------------------------------------------

pub open spec fn has_listener_id(ls: Seq<Listener>, id: Id) -> bool {
    exists|j: int| 0 <= j < ls.len() && (#[trigger] ls[j]).id == id
}

pub open spec fn has_enabled_listener_id(ls: Seq<Listener>, id: Id) -> bool {
    exists|j: int| 0 <= j < ls.len() && (#[trigger] ls[j]).id == id && ls[j].enabled
}

pub open spec fn has_pool_id(ps: Seq<UpstreamPool>, id: Id) -> bool {
    exists|j: int| 0 <= j < ps.len() && (#[trigger] ps[j]).id == id
}

pub open spec fn has_tls_id(ps: Seq<TlsPolicy>, id: Id) -> bool {
    exists|j: int| 0 <= j < ps.len() && (#[trigger] ps[j]).id == id
}

// ---------------------------------------------------------------------
// Listener findings.
// ---------------------------------------------------------------------

pub open spec fn full_seen_key(ls: Seq<Listener>, i: int) -> bool {
    exists|j: int|
        0 <= j < i && #[trigger] lower_seq(ls[j].protocol@) == lower_seq(ls[i].protocol@)
            && ls[j].port == ls[i].port
}

pub open spec fn full_seen_bind(ls: Seq<Listener>, i: int) -> bool {
    exists|j: int|
        0 <= j < i && (#[trigger] ls[j]).enabled && port_in_bounds(ls[j].port) && ls[j].port
            == ls[i].port
}

pub open spec fn https_range_issues(
    http: Option<PortRange>,
    https: Option<PortRange>,
    id: Id,
    port: u16,
) -> Seq<IssueV> {
    (if https is Some && !(https.unwrap().start <= port && port <= https.unwrap().end) {
        seq![IssueV::HttpsPortOutsideRange { listener_id: id, port }]
    } else {
        Seq::empty()
    }) + (if http is Some && http.unwrap().start <= port && port <= http.unwrap().end {
        seq![IssueV::HttpsPortConflictsHttp { listener_id: id, port }]
    } else {
        Seq::empty()
    })
}

pub open spec fn http_range_issues(
    http: Option<PortRange>,
    https: Option<PortRange>,
    id: Id,
    port: u16,
) -> Seq<IssueV> {
    (if http is Some && !(http.unwrap().start <= port && port <= http.unwrap().end) {
        seq![IssueV::HttpPortOutsideRange { listener_id: id, port }]
    } else {
        Seq::empty()
    }) + (if https is Some && https.unwrap().start <= port && port <= https.unwrap().end {
        seq![IssueV::HttpPortConflictsHttps { listener_id: id, port }]
    } else {
        Seq::empty()
    })
}

/// The per-entity checks of one enabled listener: port bounds, a known
/// protocol, and an existing TLS policy for HTTPS.
pub open spec fn listener_entity_issues(l: Listener, tls: Seq<TlsPolicy>) -> Seq<IssueV> {
    (if !port_in_bounds(l.port) {
        seq![IssueV::ListenerInvalidPort { listener_id: l.id, port: l.port }]
    } else {
        Seq::empty()
    }) + (if eq_ignore_case_spec(l.protocol@, "http"@) || eq_ignore_case_spec(
        l.protocol@,
        "https"@,
    ) {
        Seq::empty()
    } else {
        seq![IssueV::ListenerInvalidProtocol { listener_id: l.id, protocol: l.protocol@ }]
    }) + (if is_https_spec(l.protocol@) {
        match l.tls_policy_id {
            Some(pid) => if has_tls_id(tls, pid) {
                Seq::empty()
            } else {
                seq![IssueV::ListenerTlsPolicyNotFound { listener_id: l.id }]
            },
            None => seq![IssueV::ListenerHttpsRequiresTls { listener_id: l.id }],
        }
    } else {
        Seq::empty()
    })
}

pub open spec fn full_listener_issues_at(
    http: Option<PortRange>,
    https: Option<PortRange>,
    s: &Snapshot,
    i: int,
) -> Seq<IssueV> {
    let ls = s.listeners@;
    let l = ls[i];
    (if full_seen_key(ls, i) {
        seq![IssueV::DuplicateListenerKey { protocol: l.protocol@, port: l.port }]
    } else {
        Seq::empty()
    }) + (if !l.enabled {
        Seq::empty()
    } else {
        (if !port_in_bounds(l.port) {
            seq![IssueV::ListenerInvalidPort { listener_id: l.id, port: l.port }]
        } else {
            (if full_seen_bind(ls, i) {
                seq![IssueV::DuplicateBindPort { port: l.port as u16 }]
            } else {
                Seq::empty()
            }) + (if is_https_spec(l.protocol@) {
                https_range_issues(http, https, l.id, l.port as u16)
            } else {
                http_range_issues(http, https, l.id, l.port as u16)
            })
        }) + listener_entity_issues(l, s.tls_policies@)
    })
}

pub open spec fn full_listener_issues_upto(
    http: Option<PortRange>,
    https: Option<PortRange>,
    s: &Snapshot,
    i: int,
) -> Seq<IssueV>
    decreases i,
{
    if i <= 0 {
        Seq::empty()
    } else {
        full_listener_issues_upto(http, https, s, i - 1) + full_listener_issues_at(
            http,
            https,
            s,
            i - 1,
        )
    }
}

// ---------------------------------------------------------------------
// Pool findings.
// ---------------------------------------------------------------------

/// The kind a health-check object declares: `kind` first, then `type`; a
/// non-string value, like an absent one, falls back to `tcp`.
pub open spec fn hc_declared_kind(entries: Seq<(String, Json)>) -> Seq<char> {
    match crate::json::obj_lookup(entries, "kind"@) {
        Some(Json::Str(k)) => k@,
        Some(_) => "tcp"@,
        None => match crate::json::obj_lookup(entries, "type"@) {
            Some(Json::Str(k)) => k@,
            Some(_) => "tcp"@,
            None => "tcp"@,
        },
    }
}

/// A positive-integer field check: present and not a positive integer is a
/// finding.
pub open spec fn hc_positive_issue(entries: Seq<(String, Json)>, key: Seq<char>, iss: IssueV) -> Seq<
    IssueV,
> {
    match crate::json::obj_lookup(entries, key) {
        None => Seq::empty(),
        Some(Json::UInt(v)) => if v == 0 {
            seq![iss]
        } else {
            Seq::empty()
        },
        Some(_) => seq![iss],
    }
}

pub open spec fn pool_issues_at(p: UpstreamPool) -> Seq<IssueV> {
    (if eq_ignore_case_spec(p.policy@, "round_robin"@) || eq_ignore_case_spec(
        p.policy@,
        "least_conn"@,
    ) || eq_ignore_case_spec(p.policy@, "weighted"@) {
        Seq::empty()
    } else {
        seq![IssueV::PoolInvalidPolicy { pool_id: p.id, policy: p.policy@ }]
    }) + (match p.health_check {
        None => Seq::empty(),
        Some(j) => match j {
            Json::Obj(entries) => {
                (if eq_ignore_case_spec(hc_declared_kind(entries@), "tcp"@) {
                    Seq::empty()
                } else {
                    seq![
                        IssueV::PoolHealthCheckKind {
                            pool_id: p.id,
                            kind: hc_declared_kind(entries@),
                        },
                    ]
                }) + hc_positive_issue(
                    entries@,
                    "interval_secs"@,
                    IssueV::PoolHealthCheckInterval { pool_id: p.id },
                ) + hc_positive_issue(
                    entries@,
                    "timeout_ms"@,
                    IssueV::PoolHealthCheckTimeout { pool_id: p.id },
                )
            },
            _ => seq![IssueV::PoolHealthCheckNotObject { pool_id: p.id }],
        },
    })
}

pub open spec fn pool_issues_upto(s: &Snapshot, i: int) -> Seq<IssueV>
    decreases i,
{
    if i <= 0 {
        Seq::empty()
    } else {
        pool_issues_upto(s, i - 1) + pool_issues_at(s.upstream_pools@[i - 1])
    }
}

// ---------------------------------------------------------------------
// Target findings.
// ---------------------------------------------------------------------

pub open spec fn target_issues_at(s: &Snapshot, t: UpstreamTarget) -> Seq<IssueV> {
    (if has_pool_id(s.upstream_pools@, t.pool_id) {
        Seq::empty()
    } else {
        seq![IssueV::TargetPoolNotFound { target_id: t.id, pool_id: t.pool_id }]
    }) + (if t.weight < 1 {
        seq![IssueV::TargetInvalidWeight { target_id: t.id, weight: t.weight }]
    } else {
        Seq::empty()
    }) + (if parse_host_port_spec(t.address@) is None {
        seq![IssueV::TargetInvalidAddress { target_id: t.id, address: t.address@ }]
    } else {
        Seq::empty()
    })
}

pub open spec fn target_issues_upto(s: &Snapshot, i: int) -> Seq<IssueV>
    decreases i,
{
    if i <= 0 {
        Seq::empty()
    } else {
        target_issues_upto(s, i - 1) + target_issues_at(s, s.upstream_targets@[i - 1])
    }
}

// ---------------------------------------------------------------------
// TLS findings.
// ---------------------------------------------------------------------

pub open spec fn tls_issues_at(p: TlsPolicy) -> Seq<IssueV> {
    (if p.domains@.len() == 0 {
        seq![IssueV::TlsDomainsEmpty { policy_id: p.id }]
    } else {
        Seq::empty()
    }) + (if eq_ignore_case_spec(p.mode@, "auto"@) || eq_ignore_case_spec(p.mode@, "manual"@) {
        Seq::empty()
    } else {
        seq![IssueV::TlsInvalidMode { policy_id: p.id, mode: p.mode@ }]
    }) + (if eq_ignore_case_spec(p.status@, "active"@) || eq_ignore_case_spec(
        p.status@,
        "error"@,
    ) || eq_ignore_case_spec(p.status@, "pending"@) {
        Seq::empty()
    } else {
        seq![IssueV::TlsInvalidStatus { policy_id: p.id, status: p.status@ }]
    })
}

pub open spec fn tls_issues_upto(s: &Snapshot, i: int) -> Seq<IssueV>
    decreases i,
{
    if i <= 0 {
        Seq::empty()
    } else {
        tls_issues_upto(s, i - 1) + tls_issues_at(s.tls_policies@[i - 1])
    }
}

// ---------------------------------------------------------------------
// Route-conflict findings.
// ---------------------------------------------------------------------

/// Whether a route takes part in conflict detection: enabled, a known
/// kind, and — for path and ws routes — a readable match expression.
pub open spec fn route_has_key(r: Route) -> bool {
    r.enabled && match route_kind_of(r.kind@) {
        Some(RouteKind::Port) => true,
        Some(_) => parse_route_match(&r.match_expr) is Some,
        None => false,
    }
}

/// Two keyed routes collide: same listener, same kind, and canonically
/// equal match conditions.
pub open spec fn routes_conflict(a: Route, b: Route) -> bool {
    &&& route_has_key(a)
    &&& route_has_key(b)
    &&& a.listener_id == b.listener_id
    &&& route_kind_of(a.kind@) == route_kind_of(b.kind@)
    &&& match route_kind_of(a.kind@) {
        Some(RouteKind::Port) => true,
        Some(k) => canon_match_eq(
            k is Ws,
            parse_route_match(&a.match_expr).unwrap(),
            parse_route_match(&b.match_expr).unwrap(),
        ),
        None => false,
    }
}

/// The latest earlier route that collides with route `i`, scanning back
/// from `j`.
pub open spec fn conflict_partner(rs: Seq<Route>, i: int, j: int) -> Option<int>
    decreases j,
{
    if j <= 0 {
        None
    } else if routes_conflict(rs[i], rs[j - 1]) {
        Some(j - 1)
    } else {
        conflict_partner(rs, i, j - 1)
    }
}

pub open spec fn conflict_issues_at(rs: Seq<Route>, i: int) -> Seq<IssueV> {
    match conflict_partner(rs, i, i) {
        Some(j) => seq![IssueV::RouteConflict { route_id: rs[i].id, other_id: rs[j].id }],
        None => Seq::empty(),
    }
}

pub open spec fn conflict_issues_upto(s: &Snapshot, i: int) -> Seq<IssueV>
    decreases i,
{
    if i <= 0 {
        Seq::empty()
    } else {
        conflict_issues_upto(s, i - 1) + conflict_issues_at(s.routes@, i - 1)
    }
}

// ---------------------------------------------------------------------
// Route findings.
// ---------------------------------------------------------------------

pub open spec fn no_condition(m: crate::matchexpr::RouteMatchV) -> bool {
    m.host is None && m.path_prefix is None && m.path_regex is None
}

pub open spec fn route_issues_at(s: &Snapshot, r: Route) -> Seq<IssueV> {
    route_ref_issues(s, r) + route_kind_issues(r)
}

/// The reference and priority checks of one route.
pub open spec fn route_ref_issues(s: &Snapshot, r: Route) -> Seq<IssueV> {
    (if has_listener_id(s.listeners@, r.listener_id) {
        Seq::empty()
    } else {
        seq![IssueV::RouteListenerNotFound { route_id: r.id, listener_id: r.listener_id }]
    }) + (if r.enabled && !has_enabled_listener_id(s.listeners@, r.listener_id) {
        seq![IssueV::RouteDisabledListener { route_id: r.id, listener_id: r.listener_id }]
    } else {
        Seq::empty()
    }) + (if has_pool_id(s.upstream_pools@, r.upstream_pool_id) {
        Seq::empty()
    } else {
        seq![IssueV::RoutePoolNotFound { route_id: r.id, pool_id: r.upstream_pool_id }]
    }) + (if r.priority < 0 {
        seq![IssueV::RouteInvalidPriority { route_id: r.id, priority: r.priority }]
    } else {
        Seq::empty()
    })
}

/// The kind- and match-expression checks of one route.
pub open spec fn route_kind_issues(r: Route) -> Seq<IssueV> {
    (match route_kind_of(r.kind@) {
        Some(RouteKind::Port) => Seq::empty(),
        Some(RouteKind::Path) => match parse_route_match(&r.match_expr) {
            Some(m) => if no_condition(m) {
                seq![IssueV::RoutePathRequiresCondition { route_id: r.id }]
            } else {
                Seq::empty()
            },
            None => seq![IssueV::RouteInvalidMatchExpr { route_id: r.id }],
        },
        Some(RouteKind::Ws) => match parse_route_match(&r.match_expr) {
            Some(m) => (if m.ws == Some(false) {
                seq![IssueV::RouteWsRequiresWs { route_id: r.id }]
            } else {
                Seq::empty()
            }) + (if no_condition(m) {
                seq![IssueV::RouteWsRequiresCondition { route_id: r.id }]
            } else {
                Seq::empty()
            }),
            None => seq![IssueV::RouteInvalidMatchExpr { route_id: r.id }],
        },
        None => seq![IssueV::RouteInvalidType { route_id: r.id, kind: r.kind@ }],
    })
}

pub open spec fn route_issues_upto(s: &Snapshot, i: int) -> Seq<IssueV>
    decreases i,
{
    if i <= 0 {
        Seq::empty()
    } else {
        route_issues_upto(s, i - 1) + route_issues_at(s, s.routes@[i - 1])
    }
}

// ---------------------------------------------------------------------
// The whole list.
// ---------------------------------------------------------------------

pub open spec fn overlap_issue(http: Option<PortRange>, https: Option<PortRange>) -> Seq<IssueV> {
    if http is Some && https is Some && ranges_overlap_spec(http.unwrap(), https.unwrap()) {
        seq![
            IssueV::RangeOverlap {
                http_range: http.unwrap(),
                https_range: https.unwrap(),
            },
        ]
    } else {
        Seq::empty()
    }
}

/// The complete publish-time finding list, in its stable order.
pub open spec fn validate_full_spec(
    http: Option<PortRange>,
    https: Option<PortRange>,
    s: &Snapshot,
) -> Seq<IssueV> {
    overlap_issue(http, https) + full_listener_issues_upto(http, https, s, s.listeners@.len() as int)
        + pool_issues_upto(s, s.upstream_pools@.len() as int) + target_issues_upto(
        s,
        s.upstream_targets@.len() as int,
    ) + tls_issues_upto(s, s.tls_policies@.len() as int) + conflict_issues_upto(
        s,
        s.routes@.len() as int,
    ) + route_issues_upto(s, s.routes@.len() as int)
}

/// Runs every check of a snapshot; the findings come back complete and in
/// stable order, and an empty list is what lets a publish proceed.
/// Validation never fails: it reports.
pub fn validate_snapshot(
    snapshot: &Snapshot,
    http_port_range: Option<PortRange>,
    https_port_range: Option<PortRange>,
) -> (r: Vec<Issue>)
    ensures
        issues_view(r@) == validate_full_spec(http_port_range, https_port_range, snapshot),
{
    let mut issues: Vec<Issue> = Vec::new();
    match (http_port_range, https_port_range) {
        (Some(http), Some(https)) => {
            if ranges_overlap(http, https) {
                issues.push(Issue::RangeOverlap { http_range: http, https_range: https });
            }
        },
        _ => {},
    }
    proof {
        assert(issues_view(issues@) =~= overlap_issue(http_port_range, https_port_range));
    }
    check_listeners(snapshot, http_port_range, https_port_range, &mut issues);
    check_pools(snapshot, &mut issues);
    check_targets(snapshot, &mut issues);
    check_tls(snapshot, &mut issues);
    check_conflicts(snapshot, &mut issues);
    check_routes(snapshot, &mut issues);
    issues
}

#[verifier::loop_isolation(false)]
#[verifier::rlimit(80)]
fn check_listeners(
    snapshot: &Snapshot,
    http: Option<PortRange>,
    https: Option<PortRange>,
    issues: &mut Vec<Issue>,
)
    ensures
        issues_view(final(issues)@) == issues_view(old(issues)@) + full_listener_issues_upto(
            http,
            https,
            snapshot,
            snapshot.listeners@.len() as int,
        ),
{
    let ghost ls = snapshot.listeners@;
    let ghost base = issues_view(issues@);
    let n = snapshot.listeners.len();
    let mut i: usize = 0;
    while i < n
        invariant
            i <= n,
            n == snapshot.listeners@.len(),
            issues_view(issues@) == base + full_listener_issues_upto(http, https, snapshot, i as int),
        decreases n - i,
    {
        let ghost before = issues_view(issues@);
        let l = &snapshot.listeners[i];

        if has_earlier_key(snapshot, i) {
            issues.push(
                Issue::DuplicateListenerKey { protocol: l.protocol.clone(), port: l.port },
            );
        }
        if l.enabled {
            if !(1 <= l.port && l.port <= 65535) {
                issues.push(Issue::ListenerInvalidPort { listener_id: l.id, port: l.port });
            } else {
                let port = l.port as u16;
                if has_earlier_bind(snapshot, i) {
                    issues.push(Issue::DuplicateBindPort { port });
                }
                if eq_ignore_ascii_case(l.protocol.as_str(), "https") {
                    match https {
                        Some(range) => {
                            if !range.contains(port) {
                                issues.push(
                                    Issue::HttpsPortOutsideRange { listener_id: l.id, port },
                                );
                            }
                        },
                        None => {},
                    }
                    match http {
                        Some(range) => {
                            if range.contains(port) {
                                issues.push(
                                    Issue::HttpsPortConflictsHttp { listener_id: l.id, port },
                                );
                            }
                        },
                        None => {},
                    }
                } else {
                    match http {
                        Some(range) => {
                            if !range.contains(port) {
                                issues.push(
                                    Issue::HttpPortOutsideRange { listener_id: l.id, port },
                                );
                            }
                        },
                        None => {},
                    }
                    match https {
                        Some(range) => {
                            if range.contains(port) {
                                issues.push(
                                    Issue::HttpPortConflictsHttps { listener_id: l.id, port },
                                );
                            }
                        },
                        None => {},
                    }
                }
            }
            // The per-entity checks run for every enabled listener.
            if !(1 <= l.port && l.port <= 65535) {
                issues.push(Issue::ListenerInvalidPort { listener_id: l.id, port: l.port });
            }
            let is_http = eq_ignore_ascii_case(l.protocol.as_str(), "http");
            let is_https_proto = eq_ignore_ascii_case(l.protocol.as_str(), "https");
            if !(is_http || is_https_proto) {
                issues.push(
                    Issue::ListenerInvalidProtocol {
                        listener_id: l.id,
                        protocol: l.protocol.clone(),
                    },
                );
            }
            if is_https_proto {
                match l.tls_policy_id {
                    Some(pid) => {
                        if !tls_id_exists(snapshot, pid) {
                            issues.push(Issue::ListenerTlsPolicyNotFound { listener_id: l.id });
                        }
                    },
                    None => {
                        issues.push(Issue::ListenerHttpsRequiresTls { listener_id: l.id });
                    },
                }
            }
        }
        proof {
            assert(issues_view(issues@) =~= before + full_listener_issues_at(
                http,
                https,
                snapshot,
                i as int,
            ));
        }
        i = i + 1;
    }
}

#[verifier::loop_isolation(false)]
fn has_earlier_key(snapshot: &Snapshot, i: usize) -> (r: bool)
    requires
        i < snapshot.listeners@.len(),
    ensures
        r == full_seen_key(snapshot.listeners@, i as int),
{
    let ghost ls = snapshot.listeners@;
    let mut j: usize = 0;
    while j < i
        invariant
            j <= i,
            forall|k: int|
                0 <= k < j ==> !(#[trigger] lower_seq(ls[k].protocol@) == lower_seq(
                    ls[i as int].protocol@,
                ) && ls[k].port == ls[i as int].port),
        decreases i - j,
    {
        if snapshot.listeners[j].port == snapshot.listeners[i].port && eq_ignore_ascii_case(
            snapshot.listeners[j].protocol.as_str(),
            snapshot.listeners[i].protocol.as_str(),
        ) {
            return true;
        }
        j = j + 1;
    }
    false
}

#[verifier::loop_isolation(false)]
fn has_earlier_bind(snapshot: &Snapshot, i: usize) -> (r: bool)
    requires
        i < snapshot.listeners@.len(),
    ensures
        r == full_seen_bind(snapshot.listeners@, i as int),
{
    let ghost ls = snapshot.listeners@;
    let mut j: usize = 0;
    while j < i
        invariant
            j <= i,
            forall|k: int|
                0 <= k < j ==> !((#[trigger] ls[k]).enabled && port_in_bounds(ls[k].port)
                    && ls[k].port == ls[i as int].port),
        decreases i - j,
    {
        let l = &snapshot.listeners[j];
        if l.enabled && 1 <= l.port && l.port <= 65535 && l.port == snapshot.listeners[i].port {
            return true;
        }
        j = j + 1;
    }
    false
}

#[verifier::loop_isolation(false)]
fn tls_id_exists(snapshot: &Snapshot, id: Id) -> (r: bool)
    ensures
        r == has_tls_id(snapshot.tls_policies@, id),
{
    let mut j: usize = 0;
    while j < snapshot.tls_policies.len()
        invariant
            j <= snapshot.tls_policies@.len(),
            forall|k: int| 0 <= k < j ==> (#[trigger] snapshot.tls_policies@[k]).id != id,
        decreases snapshot.tls_policies@.len() - j,
    {
        if snapshot.tls_policies[j].id.hi == id.hi && snapshot.tls_policies[j].id.lo == id.lo {
            return true;
        }
        j = j + 1;
    }
    false
}

#[verifier::loop_isolation(false)]
fn pool_id_exists(snapshot: &Snapshot, id: Id) -> (r: bool)
    ensures
        r == has_pool_id(snapshot.upstream_pools@, id),
{
    let mut j: usize = 0;
    while j < snapshot.upstream_pools.len()
        invariant
            j <= snapshot.upstream_pools@.len(),
            forall|k: int| 0 <= k < j ==> (#[trigger] snapshot.upstream_pools@[k]).id != id,
        decreases snapshot.upstream_pools@.len() - j,
    {
        if snapshot.upstream_pools[j].id.hi == id.hi && snapshot.upstream_pools[j].id.lo == id.lo {
            return true;
        }
        j = j + 1;
    }
    false
}

#[verifier::loop_isolation(false)]
fn check_pools(snapshot: &Snapshot, issues: &mut Vec<Issue>)
    ensures
        issues_view(final(issues)@) == issues_view(old(issues)@) + pool_issues_upto(
            snapshot,
            snapshot.upstream_pools@.len() as int,
        ),
{
    let ghost base = issues_view(issues@);
    let n = snapshot.upstream_pools.len();
    let mut i: usize = 0;
    while i < n
        invariant
            i <= n,
            n == snapshot.upstream_pools@.len(),
            issues_view(issues@) == base + pool_issues_upto(snapshot, i as int),
        decreases n - i,
    {
        validate_upstream_pool(&snapshot.upstream_pools[i], issues);
        i = i + 1;
    }
}

/// Appends one pool's findings: a known policy and, when a health check is
/// present, a JSON object of TCP kind with positive integer settings.
#[verifier::loop_isolation(false)]
pub fn validate_upstream_pool(p: &UpstreamPool, issues: &mut Vec<Issue>)
    ensures
        issues_view(final(issues)@) == issues_view(old(issues)@) + pool_issues_at(*p),
{
    let ghost before = issues_view(issues@);
    let policy_ok = eq_ignore_ascii_case(p.policy.as_str(), "round_robin")
        || eq_ignore_ascii_case(p.policy.as_str(), "least_conn") || eq_ignore_ascii_case(
        p.policy.as_str(),
        "weighted",
    );
    if !policy_ok {
        issues.push(Issue::PoolInvalidPolicy { pool_id: p.id, policy: p.policy.clone() });
    }
    match &p.health_check {
        None => {},
        Some(j) => {
            match j.as_object() {
                None => {
                    issues.push(Issue::PoolHealthCheckNotObject { pool_id: p.id });
                },
                Some(entries) => {
                    let kind: Option<&String> = match crate::json::obj_get(entries, "kind") {
                        Some(Json::Str(s)) => Some(s),
                        Some(_) => None,
                        None => match crate::json::obj_get(entries, "type") {
                            Some(Json::Str(s)) => Some(s),
                            Some(_) => None,
                            None => None,
                        },
                    };
                    let tcp_ok = match kind {
                        Some(k) => eq_ignore_ascii_case(k.as_str(), "tcp"),
                        None => true,
                    };
                    if !tcp_ok {
                        let kind_str = match kind {
                            Some(k) => k.clone(),
                            None => String::new(),  // unreachable: a default kind is tcp
                        };
                        issues.push(
                            Issue::PoolHealthCheckKind { pool_id: p.id, kind: kind_str },
                        );
                    }
                    match crate::json::obj_get(entries, "interval_secs") {
                        None => {},
                        Some(Json::UInt(v)) => {
                            if *v == 0 {
                                issues.push(Issue::PoolHealthCheckInterval { pool_id: p.id });
                            }
                        },
                        Some(_) => {
                            issues.push(Issue::PoolHealthCheckInterval { pool_id: p.id });
                        },
                    }
                    match crate::json::obj_get(entries, "timeout_ms") {
                        None => {},
                        Some(Json::UInt(v)) => {
                            if *v == 0 {
                                issues.push(Issue::PoolHealthCheckTimeout { pool_id: p.id });
                            }
                        },
                        Some(_) => {
                            issues.push(Issue::PoolHealthCheckTimeout { pool_id: p.id });
                        },
                    }
                },
            }
        },
    }
    proof {
        assert(issues_view(issues@) =~= before + pool_issues_at(*p));
    }
}

#[verifier::loop_isolation(false)]
fn check_targets(snapshot: &Snapshot, issues: &mut Vec<Issue>)
    ensures
        issues_view(final(issues)@) == issues_view(old(issues)@) + target_issues_upto(
            snapshot,
            snapshot.upstream_targets@.len() as int,
        ),
{
    let ghost base = issues_view(issues@);
    let n = snapshot.upstream_targets.len();
    let mut i: usize = 0;
    while i < n
        invariant
            i <= n,
            n == snapshot.upstream_targets@.len(),
            issues_view(issues@) == base + target_issues_upto(snapshot, i as int),
        decreases n - i,
    {
        let ghost before = issues_view(issues@);
        let t = &snapshot.upstream_targets[i];
        if !pool_id_exists(snapshot, t.pool_id) {
            issues.push(Issue::TargetPoolNotFound { target_id: t.id, pool_id: t.pool_id });
        }
        if t.weight < 1 {
            issues.push(Issue::TargetInvalidWeight { target_id: t.id, weight: t.weight });
        }
        match parse_host_port(t.address.as_str()) {
            Some(_) => {},
            None => {
                issues.push(
                    Issue::TargetInvalidAddress { target_id: t.id, address: t.address.clone() },
                );
            },
        }
        proof {
            assert(issues_view(issues@) =~= before + target_issues_at(
                snapshot,
                snapshot.upstream_targets@[i as int],
            ));
        }
        i = i + 1;
    }
}

#[verifier::loop_isolation(false)]
fn check_tls(snapshot: &Snapshot, issues: &mut Vec<Issue>)
    ensures
        issues_view(final(issues)@) == issues_view(old(issues)@) + tls_issues_upto(
            snapshot,
            snapshot.tls_policies@.len() as int,
        ),
{
    let ghost base = issues_view(issues@);
    let n = snapshot.tls_policies.len();
    let mut i: usize = 0;
    while i < n
        invariant
            i <= n,
            n == snapshot.tls_policies@.len(),
            issues_view(issues@) == base + tls_issues_upto(snapshot, i as int),
        decreases n - i,
    {
        validate_tls_policy(&snapshot.tls_policies[i], issues);
        i = i + 1;
    }
}

/// Appends one TLS policy's findings: nonempty domains, a known mode, and
/// a known status.
#[verifier::loop_isolation(false)]
pub fn validate_tls_policy(p: &TlsPolicy, issues: &mut Vec<Issue>)
    ensures
        issues_view(final(issues)@) == issues_view(old(issues)@) + tls_issues_at(*p),
{
    let ghost before = issues_view(issues@);
    if p.domains.len() == 0 {
        issues.push(Issue::TlsDomainsEmpty { policy_id: p.id });
    }
    if !(eq_ignore_ascii_case(p.mode.as_str(), "auto") || eq_ignore_ascii_case(
        p.mode.as_str(),
        "manual",
    )) {
        issues.push(Issue::TlsInvalidMode { policy_id: p.id, mode: p.mode.clone() });
    }
    if !(eq_ignore_ascii_case(p.status.as_str(), "active") || eq_ignore_ascii_case(
        p.status.as_str(),
        "error",
    ) || eq_ignore_ascii_case(p.status.as_str(), "pending")) {
        issues.push(Issue::TlsInvalidStatus { policy_id: p.id, status: p.status.clone() });
    }
    proof {
        assert(issues_view(issues@) =~= before + tls_issues_at(*p));
    }
}

/// Whether a route takes part in conflict detection.
fn route_key_of(r: &Route) -> (k: Option<RouteKind>)
    ensures
        match k {
            Some(kind) => route_has_key(*r) && route_kind_of(r.kind@) == Some(kind),
            None => !route_has_key(*r),
        },
{
    if !r.enabled {
        return None;
    }
    let kind = match RouteKind::from_str(r.kind.as_str()) {
        Some(k) => k,
        None => {
            return None;
        },
    };
    match kind {
        RouteKind::Port => Some(RouteKind::Port),
        _ => {
            match route_match_from_json(&r.match_expr) {
                Some(_) => Some(kind),
                None => None,
            }
        },
    }
}

/// Whether routes `a` and `b` collide canonically.
fn routes_conflict_exec(a: &Route, b: &Route) -> (r: bool)
    ensures
        r == routes_conflict(*a, *b),
{
    let ka = match route_key_of(a) {
        Some(k) => k,
        None => {
            return false;
        },
    };
    let kb = match route_key_of(b) {
        Some(k) => k,
        None => {
            return false;
        },
    };
    if !(a.listener_id.hi == b.listener_id.hi && a.listener_id.lo == b.listener_id.lo) {
        return false;
    }
    let kinds_equal = match (ka, kb) {
        (RouteKind::Port, RouteKind::Port) => true,
        (RouteKind::Path, RouteKind::Path) => true,
        (RouteKind::Ws, RouteKind::Ws) => true,
        _ => false,
    };
    if !kinds_equal {
        return false;
    }
    match ka {
        RouteKind::Port => true,
        _ => {
            let ma = match route_match_from_json(&a.match_expr) {
                Some(m) => m,
                None => {
                    return false;  // unreachable: the route is keyed
                },
            };
            let mb = match route_match_from_json(&b.match_expr) {
                Some(m) => m,
                None => {
                    return false;  // unreachable: the route is keyed
                },
            };
            let is_ws = matches!(ka, RouteKind::Ws);
            canon_eq(is_ws, &ma, &mb)
        },
    }
}

#[verifier::loop_isolation(false)]
fn check_conflicts(snapshot: &Snapshot, issues: &mut Vec<Issue>)
    ensures
        issues_view(final(issues)@) == issues_view(old(issues)@) + conflict_issues_upto(
            snapshot,
            snapshot.routes@.len() as int,
        ),
{
    let ghost rs = snapshot.routes@;
    let ghost base = issues_view(issues@);
    let n = snapshot.routes.len();
    let mut i: usize = 0;
    while i < n
        invariant
            i <= n,
            n == snapshot.routes@.len(),
            issues_view(issues@) == base + conflict_issues_upto(snapshot, i as int),
        decreases n - i,
    {
        let ghost before = issues_view(issues@);
        // Scan backwards for the latest colliding earlier route.
        let mut j: usize = i;
        let mut partner: Option<usize> = None;
        while j > 0 && matches!(partner, None)
            invariant
                j <= i,
                i < rs.len(),
                match partner {
                    Some(p) => p < i && conflict_partner(rs, i as int, i as int) == Some(
                        p as int,
                    ),
                    None => conflict_partner(rs, i as int, i as int) == conflict_partner(
                        rs,
                        i as int,
                        j as int,
                    ),
                },
            decreases j,
        {
            if routes_conflict_exec(&snapshot.routes[i], &snapshot.routes[j - 1]) {
                partner = Some(j - 1);
            }
            j = j - 1;
        }
        match partner {
            Some(p) => {
                issues.push(
                    Issue::RouteConflict {
                        route_id: snapshot.routes[i].id,
                        other_id: snapshot.routes[p].id,
                    },
                );
            },
            None => {},
        }
        proof {
            assert(issues_view(issues@) =~= before + conflict_issues_at(rs, i as int));
        }
        i = i + 1;
    }
}

#[verifier::loop_isolation(false)]
#[verifier::rlimit(80)]
fn check_routes(snapshot: &Snapshot, issues: &mut Vec<Issue>)
    ensures
        issues_view(final(issues)@) == issues_view(old(issues)@) + route_issues_upto(
            snapshot,
            snapshot.routes@.len() as int,
        ),
{
    let ghost base = issues_view(issues@);
    let n = snapshot.routes.len();
    let mut i: usize = 0;
    while i < n
        invariant
            i <= n,
            n == snapshot.routes@.len(),
            issues_view(issues@) == base + route_issues_upto(snapshot, i as int),
        decreases n - i,
    {
        let ghost before = issues_view(issues@);
        let r = &snapshot.routes[i];
        if !listener_id_exists(snapshot, r.listener_id) {
            issues.push(
                Issue::RouteListenerNotFound { route_id: r.id, listener_id: r.listener_id },
            );
        }
        if r.enabled && !enabled_listener_id_exists(snapshot, r.listener_id) {
            issues.push(
                Issue::RouteDisabledListener { route_id: r.id, listener_id: r.listener_id },
            );
        }
        if !pool_id_exists(snapshot, r.upstream_pool_id) {
            issues.push(
                Issue::RoutePoolNotFound { route_id: r.id, pool_id: r.upstream_pool_id },
            );
        }
        if r.priority < 0 {
            issues.push(Issue::RouteInvalidPriority { route_id: r.id, priority: r.priority });
        }
        proof {
            assert(issues_view(issues@) =~= before + route_ref_issues(
                snapshot,
                snapshot.routes@[i as int],
            ));
        }
        push_kind_issues(r, issues);
        proof {
            assert(issues_view(issues@) =~= before + route_issues_at(
                snapshot,
                snapshot.routes@[i as int],
            ));
        }
        i = i + 1;
    }
}

/// Appends the kind- and match-expression findings of one route.
#[verifier::loop_isolation(false)]
fn push_kind_issues(r: &Route, issues: &mut Vec<Issue>)
    ensures
        issues_view(final(issues)@) == issues_view(old(issues)@) + route_kind_issues(*r),
{
    let ghost before = issues_view(issues@);
    match RouteKind::from_str(r.kind.as_str()) {
        Some(RouteKind::Port) => {},
        Some(RouteKind::Path) => {
            match route_match_from_json(&r.match_expr) {
                Some(m) => {
                    let none = matches!(m.host, None) && matches!(m.path_prefix, None)
                        && matches!(m.path_regex, None);
                    if none {
                        issues.push(Issue::RoutePathRequiresCondition { route_id: r.id });
                    }
                },
                None => {
                    issues.push(Issue::RouteInvalidMatchExpr { route_id: r.id });
                },
            }
        },
        Some(RouteKind::Ws) => {
            match route_match_from_json(&r.match_expr) {
                Some(m) => {
                    if matches!(m.ws, Some(false)) {
                        issues.push(Issue::RouteWsRequiresWs { route_id: r.id });
                    }
                    let none = matches!(m.host, None) && matches!(m.path_prefix, None)
                        && matches!(m.path_regex, None);
                    if none {
                        issues.push(Issue::RouteWsRequiresCondition { route_id: r.id });
                    }
                },
                None => {
                    issues.push(Issue::RouteInvalidMatchExpr { route_id: r.id });
                },
            }
        },
        None => {
            issues.push(Issue::RouteInvalidType { route_id: r.id, kind: r.kind.clone() });
        },
    }
    proof {
        assert(issues_view(issues@) =~= before + route_kind_issues(*r));
    }
}

#[verifier::loop_isolation(false)]
fn listener_id_exists(snapshot: &Snapshot, id: Id) -> (r: bool)
    ensures
        r == has_listener_id(snapshot.listeners@, id),
{
    let mut j: usize = 0;
    while j < snapshot.listeners.len()
        invariant
            j <= snapshot.listeners@.len(),
            forall|k: int| 0 <= k < j ==> (#[trigger] snapshot.listeners@[k]).id != id,
        decreases snapshot.listeners@.len() - j,
    {
        if snapshot.listeners[j].id.hi == id.hi && snapshot.listeners[j].id.lo == id.lo {
            return true;
        }
        j = j + 1;
    }
    false
}

#[verifier::loop_isolation(false)]
fn enabled_listener_id_exists(snapshot: &Snapshot, id: Id) -> (r: bool)
    ensures
        r == has_enabled_listener_id(snapshot.listeners@, id),
{
    let mut j: usize = 0;
    while j < snapshot.listeners.len()
        invariant
            j <= snapshot.listeners@.len(),
            forall|k: int|
                0 <= k < j ==> !((#[trigger] snapshot.listeners@[k]).id == id
                    && snapshot.listeners@[k].enabled),
        decreases snapshot.listeners@.len() - j,
    {
        if snapshot.listeners[j].enabled && snapshot.listeners[j].id.hi == id.hi
            && snapshot.listeners[j].id.lo == id.lo {
            return true;
        }
        j = j + 1;
    }
    false
}


/// The exact text of each finding, with its machine-stable prefix.
pub open spec fn message_spec(e: IssueV) -> Seq<char> {
    match e {
        IssueV::RangeOverlap { http_range, https_range } => "HTTP_PORT_RANGE "@ + crate::text::dec_str(http_range.start as nat) + "-"@ + crate::text::dec_str(http_range.end as nat) + " overlaps HTTPS_PORT_RANGE "@ + crate::text::dec_str(https_range.start as nat) + "-"@ + crate::text::dec_str(https_range.end as nat),
        IssueV::DuplicateListenerKey { protocol, port } => "duplicate listener "@ + protocol + ":"@ + crate::text::dec_str_i64(port as int),
        IssueV::ListenerInvalidPort { listener_id, port } => "listener "@ + crate::ids::id_str_spec(listener_id) + " invalid port "@ + crate::text::dec_str_i64(port as int),
        IssueV::DuplicateBindPort { port } => "duplicate port "@ + crate::text::dec_str(port as nat),
        IssueV::HttpsPortOutsideRange { listener_id, port } => "listener "@ + crate::ids::id_str_spec(listener_id) + " https port "@ + crate::text::dec_str(port as nat) + " outside HTTPS_PORT_RANGE"@,
        IssueV::HttpsPortConflictsHttp { listener_id, port } => "listener "@ + crate::ids::id_str_spec(listener_id) + " https port "@ + crate::text::dec_str(port as nat) + " conflicts with HTTP_PORT_RANGE"@,
        IssueV::HttpPortOutsideRange { listener_id, port } => "listener "@ + crate::ids::id_str_spec(listener_id) + " http port "@ + crate::text::dec_str(port as nat) + " outside HTTP_PORT_RANGE"@,
        IssueV::HttpPortConflictsHttps { listener_id, port } => "listener "@ + crate::ids::id_str_spec(listener_id) + " http port "@ + crate::text::dec_str(port as nat) + " conflicts with HTTPS_PORT_RANGE"@,
        IssueV::ListenerInvalidProtocol { listener_id, protocol } => "listener "@ + crate::ids::id_str_spec(listener_id) + " invalid protocol "@ + protocol,
        IssueV::ListenerTlsPolicyNotFound { listener_id } => "listener "@ + crate::ids::id_str_spec(listener_id) + " tls_policy_id not found"@,
        IssueV::ListenerHttpsRequiresTls { listener_id } => "listener "@ + crate::ids::id_str_spec(listener_id) + " https requires tls_policy_id"@,
        IssueV::PoolInvalidPolicy { pool_id, policy } => "upstream pool "@ + crate::ids::id_str_spec(pool_id) + " invalid policy "@ + policy,
        IssueV::PoolHealthCheckNotObject { pool_id } => "upstream pool "@ + crate::ids::id_str_spec(pool_id) + " health_check must be JSON object"@,
        IssueV::PoolHealthCheckKind { pool_id, kind } => "upstream pool "@ + crate::ids::id_str_spec(pool_id) + " health_check kind "@ + kind + " not supported"@,
        IssueV::PoolHealthCheckInterval { pool_id } => "upstream pool "@ + crate::ids::id_str_spec(pool_id) + " health_check interval_secs must be positive integer"@,
        IssueV::PoolHealthCheckTimeout { pool_id } => "upstream pool "@ + crate::ids::id_str_spec(pool_id) + " health_check timeout_ms must be positive integer"@,
        IssueV::TargetPoolNotFound { target_id, pool_id } => "upstream target "@ + crate::ids::id_str_spec(target_id) + " pool not found "@ + crate::ids::id_str_spec(pool_id),
        IssueV::TargetInvalidWeight { target_id, weight } => "upstream target "@ + crate::ids::id_str_spec(target_id) + " invalid weight "@ + crate::text::dec_str_i64(weight as int),
        IssueV::TargetInvalidAddress { target_id, address } => "upstream target "@ + crate::ids::id_str_spec(target_id) + " invalid address "@ + address,
        IssueV::TlsDomainsEmpty { policy_id } => "tls policy "@ + crate::ids::id_str_spec(policy_id) + " domains empty"@,
        IssueV::TlsInvalidMode { policy_id, mode } => "tls policy "@ + crate::ids::id_str_spec(policy_id) + " invalid mode "@ + mode,
        IssueV::TlsInvalidStatus { policy_id, status } => "tls policy "@ + crate::ids::id_str_spec(policy_id) + " invalid status "@ + status,
        IssueV::RouteConflict { route_id, other_id } => "route "@ + crate::ids::id_str_spec(route_id) + " conflicts with route "@ + crate::ids::id_str_spec(other_id) + " (same match conditions)"@,
        IssueV::RouteListenerNotFound { route_id, listener_id } => "route "@ + crate::ids::id_str_spec(route_id) + " listener not found "@ + crate::ids::id_str_spec(listener_id),
        IssueV::RouteDisabledListener { route_id, listener_id } => "route "@ + crate::ids::id_str_spec(route_id) + " references disabled listener "@ + crate::ids::id_str_spec(listener_id),
        IssueV::RoutePoolNotFound { route_id, pool_id } => "route "@ + crate::ids::id_str_spec(route_id) + " upstream pool not found "@ + crate::ids::id_str_spec(pool_id),
        IssueV::RouteInvalidPriority { route_id, priority } => "route "@ + crate::ids::id_str_spec(route_id) + " invalid priority "@ + crate::text::dec_str_i64(priority as int),
        IssueV::RoutePathRequiresCondition { route_id } => "route "@ + crate::ids::id_str_spec(route_id) + " path requires host/path condition"@,
        IssueV::RouteWsRequiresWs { route_id } => "ws route must require ws for route "@ + crate::ids::id_str_spec(route_id),
        IssueV::RouteWsRequiresCondition { route_id } => "route "@ + crate::ids::id_str_spec(route_id) + " ws requires host/path condition"@,
        IssueV::RouteInvalidMatchExpr { route_id } => "invalid match_expr for route "@ + crate::ids::id_str_spec(route_id),
        IssueV::RouteInvalidType { kind, route_id } => "invalid route type "@ + kind + " for route "@ + crate::ids::id_str_spec(route_id),
    }
}

impl Issue {
    /// The human-readable message of the finding.
    pub fn message(&self) -> (r: String)
        ensures
            r@ == message_spec(self@),
    {
        let mut s = String::new();
        match self {
            Issue::RangeOverlap { http_range, https_range } => {
                s.append("HTTP_PORT_RANGE ");
                let n = crate::text::u64_to_string(http_range.start as u64);
                s.append(n.as_str());
                s.append("-");
                let n = crate::text::u64_to_string(http_range.end as u64);
                s.append(n.as_str());
                s.append(" overlaps HTTPS_PORT_RANGE ");
                let n = crate::text::u64_to_string(https_range.start as u64);
                s.append(n.as_str());
                s.append("-");
                let n = crate::text::u64_to_string(https_range.end as u64);
                s.append(n.as_str());
            },
            Issue::DuplicateListenerKey { protocol, port } => {
                s.append("duplicate listener ");
                s.append(protocol.as_str());
                s.append(":");
                let n = crate::text::i64_to_string(*port as i64);
                s.append(n.as_str());
            },
            Issue::ListenerInvalidPort { listener_id, port } => {
                s.append("listener ");
                let n = crate::ids::id_to_string(listener_id);
                s.append(n.as_str());
                s.append(" invalid port ");
                let n = crate::text::i64_to_string(*port as i64);
                s.append(n.as_str());
            },
            Issue::DuplicateBindPort { port } => {
                s.append("duplicate port ");
                let n = crate::text::u64_to_string(*port as u64);
                s.append(n.as_str());
            },
            Issue::HttpsPortOutsideRange { listener_id, port } => {
                s.append("listener ");
                let n = crate::ids::id_to_string(listener_id);
                s.append(n.as_str());
                s.append(" https port ");
                let n = crate::text::u64_to_string(*port as u64);
                s.append(n.as_str());
                s.append(" outside HTTPS_PORT_RANGE");
            },
            Issue::HttpsPortConflictsHttp { listener_id, port } => {
                s.append("listener ");
                let n = crate::ids::id_to_string(listener_id);
                s.append(n.as_str());
                s.append(" https port ");
                let n = crate::text::u64_to_string(*port as u64);
                s.append(n.as_str());
                s.append(" conflicts with HTTP_PORT_RANGE");
            },
            Issue::HttpPortOutsideRange { listener_id, port } => {
                s.append("listener ");
                let n = crate::ids::id_to_string(listener_id);
                s.append(n.as_str());
                s.append(" http port ");
                let n = crate::text::u64_to_string(*port as u64);
                s.append(n.as_str());
                s.append(" outside HTTP_PORT_RANGE");
            },
            Issue::HttpPortConflictsHttps { listener_id, port } => {
                s.append("listener ");
                let n = crate::ids::id_to_string(listener_id);
                s.append(n.as_str());
                s.append(" http port ");
                let n = crate::text::u64_to_string(*port as u64);
                s.append(n.as_str());
                s.append(" conflicts with HTTPS_PORT_RANGE");
            },
            Issue::ListenerInvalidProtocol { listener_id, protocol } => {
                s.append("listener ");
                let n = crate::ids::id_to_string(listener_id);
                s.append(n.as_str());
                s.append(" invalid protocol ");
                s.append(protocol.as_str());
            },
            Issue::ListenerTlsPolicyNotFound { listener_id } => {
                s.append("listener ");
                let n = crate::ids::id_to_string(listener_id);
                s.append(n.as_str());
                s.append(" tls_policy_id not found");
            },
            Issue::ListenerHttpsRequiresTls { listener_id } => {
                s.append("listener ");
                let n = crate::ids::id_to_string(listener_id);
                s.append(n.as_str());
                s.append(" https requires tls_policy_id");
            },
            Issue::PoolInvalidPolicy { pool_id, policy } => {
                s.append("upstream pool ");
                let n = crate::ids::id_to_string(pool_id);
                s.append(n.as_str());
                s.append(" invalid policy ");
                s.append(policy.as_str());
            },
            Issue::PoolHealthCheckNotObject { pool_id } => {
                s.append("upstream pool ");
                let n = crate::ids::id_to_string(pool_id);
                s.append(n.as_str());
                s.append(" health_check must be JSON object");
            },
            Issue::PoolHealthCheckKind { pool_id, kind } => {
                s.append("upstream pool ");
                let n = crate::ids::id_to_string(pool_id);
                s.append(n.as_str());
                s.append(" health_check kind ");
                s.append(kind.as_str());
                s.append(" not supported");
            },
            Issue::PoolHealthCheckInterval { pool_id } => {
                s.append("upstream pool ");
                let n = crate::ids::id_to_string(pool_id);
                s.append(n.as_str());
                s.append(" health_check interval_secs must be positive integer");
            },
            Issue::PoolHealthCheckTimeout { pool_id } => {
                s.append("upstream pool ");
                let n = crate::ids::id_to_string(pool_id);
                s.append(n.as_str());
                s.append(" health_check timeout_ms must be positive integer");
            },
            Issue::TargetPoolNotFound { target_id, pool_id } => {
                s.append("upstream target ");
                let n = crate::ids::id_to_string(target_id);
                s.append(n.as_str());
                s.append(" pool not found ");
                let n = crate::ids::id_to_string(pool_id);
                s.append(n.as_str());
            },
            Issue::TargetInvalidWeight { target_id, weight } => {
                s.append("upstream target ");
                let n = crate::ids::id_to_string(target_id);
                s.append(n.as_str());
                s.append(" invalid weight ");
                let n = crate::text::i64_to_string(*weight as i64);
                s.append(n.as_str());
            },
            Issue::TargetInvalidAddress { target_id, address } => {
                s.append("upstream target ");
                let n = crate::ids::id_to_string(target_id);
                s.append(n.as_str());
                s.append(" invalid address ");
                s.append(address.as_str());
            },
            Issue::TlsDomainsEmpty { policy_id } => {
                s.append("tls policy ");
                let n = crate::ids::id_to_string(policy_id);
                s.append(n.as_str());
                s.append(" domains empty");
            },
            Issue::TlsInvalidMode { policy_id, mode } => {
                s.append("tls policy ");
                let n = crate::ids::id_to_string(policy_id);
                s.append(n.as_str());
                s.append(" invalid mode ");
                s.append(mode.as_str());
            },
            Issue::TlsInvalidStatus { policy_id, status } => {
                s.append("tls policy ");
                let n = crate::ids::id_to_string(policy_id);
                s.append(n.as_str());
                s.append(" invalid status ");
                s.append(status.as_str());
            },
            Issue::RouteConflict { route_id, other_id } => {
                s.append("route ");
                let n = crate::ids::id_to_string(route_id);
                s.append(n.as_str());
                s.append(" conflicts with route ");
                let n = crate::ids::id_to_string(other_id);
                s.append(n.as_str());
                s.append(" (same match conditions)");
            },
            Issue::RouteListenerNotFound { route_id, listener_id } => {
                s.append("route ");
                let n = crate::ids::id_to_string(route_id);
                s.append(n.as_str());
                s.append(" listener not found ");
                let n = crate::ids::id_to_string(listener_id);
                s.append(n.as_str());
            },
            Issue::RouteDisabledListener { route_id, listener_id } => {
                s.append("route ");
                let n = crate::ids::id_to_string(route_id);
                s.append(n.as_str());
                s.append(" references disabled listener ");
                let n = crate::ids::id_to_string(listener_id);
                s.append(n.as_str());
            },
            Issue::RoutePoolNotFound { route_id, pool_id } => {
                s.append("route ");
                let n = crate::ids::id_to_string(route_id);
                s.append(n.as_str());
                s.append(" upstream pool not found ");
                let n = crate::ids::id_to_string(pool_id);
                s.append(n.as_str());
            },
            Issue::RouteInvalidPriority { route_id, priority } => {
                s.append("route ");
                let n = crate::ids::id_to_string(route_id);
                s.append(n.as_str());
                s.append(" invalid priority ");
                let n = crate::text::i64_to_string(*priority as i64);
                s.append(n.as_str());
            },
            Issue::RoutePathRequiresCondition { route_id } => {
                s.append("route ");
                let n = crate::ids::id_to_string(route_id);
                s.append(n.as_str());
                s.append(" path requires host/path condition");
            },
            Issue::RouteWsRequiresWs { route_id } => {
                s.append("ws route must require ws for route ");
                let n = crate::ids::id_to_string(route_id);
                s.append(n.as_str());
            },
            Issue::RouteWsRequiresCondition { route_id } => {
                s.append("route ");
                let n = crate::ids::id_to_string(route_id);
                s.append(n.as_str());
                s.append(" ws requires host/path condition");
            },
            Issue::RouteInvalidMatchExpr { route_id } => {
                s.append("invalid match_expr for route ");
                let n = crate::ids::id_to_string(route_id);
                s.append(n.as_str());
            },
            Issue::RouteInvalidType { kind, route_id } => {
                s.append("invalid route type ");
                s.append(kind.as_str());
                s.append(" for route ");
                let n = crate::ids::id_to_string(route_id);
                s.append(n.as_str());
            },
        }
        s
    }
}

/// The joined message of a finding list, entries separated by `; `.
pub open spec fn joined_messages(es: Seq<IssueV>) -> Seq<char>
    decreases es.len(),
{
    if es.len() == 0 {
        Seq::empty()
    } else if es.len() == 1 {
        message_spec(es[0])
    } else {
        joined_messages(es.drop_last()) + "; "@ + message_spec(es.last())
    }
}

/// Joins the findings' messages with `; `, as the publish error surfaces
/// them.
pub fn join_messages(issues: &Vec<Issue>) -> (r: String)
    ensures
        r@ == joined_messages(issues_view(issues@)),
{
    let ghost iv = issues_view(issues@);
    let mut s = String::new();
    let mut i: usize = 0;
    proof {
        assert(iv.take(0) =~= Seq::<IssueV>::empty());
    }
    while i < issues.len()
        invariant
            iv == issues_view(issues@),
            i <= issues@.len(),
            iv.len() == issues@.len(),
            s@ == joined_messages(iv.take(i as int)),
        decreases issues@.len() - i,
    {
        proof {
            assert(iv.take(i + 1).drop_last() =~= iv.take(i as int));
            assert(iv.take(i + 1).last() == iv[i as int]);
        }
        if i > 0 {
            s.append("; ");
        }
        let m = issues[i].message();
        s.append(m.as_str());
        i = i + 1;
    }
    proof {
        assert(iv.take(iv.len() as int) =~= iv);
    }
    s
}

/// Running the validator twice on one snapshot yields the same finding
/// list: the list is a function of the snapshot and the ranges alone.
pub proof fn lemma_full_validation_deterministic(
    http: Option<PortRange>,
    https: Option<PortRange>,
    s: &Snapshot,
    e1: Seq<IssueV>,
    e2: Seq<IssueV>,
)
    requires
        e1 == validate_full_spec(http, https, s),
        e2 == validate_full_spec(http, https, s),
    ensures
        e1 == e2,
{
}

} // verus!
