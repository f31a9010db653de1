//! Compiling a snapshot into the runtime configuration the data plane
//! serves from: pool states, per-listener route tables sorted by priority,
//! the port map, and per-port TLS material.

use vstd::prelude::*;
use crate::config::PortRange;
use crate::ids::Id;
use crate::matcher::{RouteMatcher, RouteRule, RouteKind, route_kind_of, regex_valid};
use crate::matchexpr::{RouteMatchV, parse_route_match};
use crate::models::{Listener, Route, Snapshot, UpstreamTarget};
use crate::selector::{
    PoolRuntime, PoolPolicy, PoolHealthCheck, TargetRuntime, policy_of, health_check_of,
};
use crate::tls::{TlsKeyPair, https_port_pem_spec, https_port_pem};
use crate::validation::{ValidationContext, listener_valid_spec, is_https_spec, port_in_bounds};

verus! {

// ---------------------------------------------------------------------
// Views.
// ---------------------------------------------------------------------

/// The mathematical value of a compiled route.
pub struct RuleV {
    pub id: Id,
    pub upstream_pool_id: Id,
    pub priority: i32,
    pub matcher: RouteMatchV,
    pub kind: RouteKind,
}

impl View for RouteRule {
    type V = RuleV;

    open spec fn view(&self) -> RuleV {
        RuleV {
            id: self.id,
            upstream_pool_id: self.upstream_pool_id,
            priority: self.priority,
            matcher: self.matcher@,
            kind: self.kind,
        }
    }
}

/// The mathematical value of a target's runtime state.
pub struct TargetV {
    pub id: Id,
    pub address: Seq<char>,
    pub weight: i32,
    pub healthy: bool,
    pub inflight: u64,
}

impl View for TargetRuntime {
    type V = TargetV;

    open spec fn view(&self) -> TargetV {
        TargetV {
            id: self.id,
            address: self.address@,
            weight: self.weight,
            healthy: self.healthy,
            inflight: self.inflight,
        }
    }
}

pub open spec fn targets_view(ts: Seq<TargetRuntime>) -> Seq<TargetV> {
    ts.map_values(|t: TargetRuntime| t@)
}

/// A listener as the runtime keeps it.
#[derive(Debug, Clone)]
pub struct ListenerRuntime {
    pub id: Id,
    pub port: i32,
    pub protocol: String,
}

/// The mathematical value of a runtime listener.
pub struct ListenerV {
    pub id: Id,
    pub port: i32,
    pub protocol: Seq<char>,
}

impl View for ListenerRuntime {
    type V = ListenerV;

    open spec fn view(&self) -> ListenerV {
        ListenerV { id: self.id, port: self.port, protocol: self.protocol@ }
    }
}

pub open spec fn listener_rt_of(l: Listener) -> ListenerV {
    ListenerV { id: l.id, port: l.port, protocol: l.protocol@ }
}

// ---------------------------------------------------------------------
// Pool compilation.
// ---------------------------------------------------------------------

/// The fresh runtime state of one configured target: healthy, idle.
pub open spec fn target_rt_of(t: UpstreamTarget) -> TargetV {
    TargetV { id: t.id, address: t.address@, weight: t.weight, healthy: true, inflight: 0 }
}

/// The enabled targets of a pool, in configuration order, as fresh runtime
/// state.
pub open spec fn pool_targets_spec(ts: Seq<UpstreamTarget>, pid: Id) -> Seq<TargetV>
    decreases ts.len(),
{
    if ts.len() == 0 {
        Seq::empty()
    } else {
        pool_targets_spec(ts.drop_last(), pid) + if ts.last().pool_id == pid
            && ts.last().enabled {
            seq![target_rt_of(ts.last())]
        } else {
            Seq::empty()
        }
    }
}

/// A pool's effective policy: an unknown name falls back to weighted.
pub open spec fn pool_policy_of(policy: Seq<char>) -> PoolPolicy {
    match policy_of(policy) {
        Some(p) => p,
        None => PoolPolicy::Weighted,
    }
}

/// A pool's effective health-check settings: a missing or malformed
/// descriptor leaves both fields unset.
pub open spec fn pool_health_of(hc: Option<crate::json::Json>) -> PoolHealthCheck {
    match hc {
        Some(j) => match health_check_of(&j) {
            Some(h) => h,
            None => PoolHealthCheck { interval_secs: None, timeout_ms: None },
        },
        None => PoolHealthCheck { interval_secs: None, timeout_ms: None },
    }
}

// ---------------------------------------------------------------------
// Route compilation.
// ---------------------------------------------------------------------

/// The matcher with no conditions.
pub open spec fn empty_match() -> RouteMatchV {
    RouteMatchV {
        host: None,
        path_prefix: None,
        path_regex: None,
        method: None,
        headers: None,
        query: None,
        ws: None,
    }
}

/// The compiled form of one route, or nothing when the route is disabled,
/// its kind unknown, its match expression malformed, or its regex invalid —
/// such routes are dropped at build time.
pub open spec fn compile_route(r: Route) -> Option<RuleV> {
    if !r.enabled {
        None
    } else {
        match route_kind_of(r.kind@) {
            None => None,
            Some(kind) => match kind {
                RouteKind::Port => Some(
                    RuleV {
                        id: r.id,
                        upstream_pool_id: r.upstream_pool_id,
                        priority: r.priority,
                        matcher: empty_match(),
                        kind,
                    },
                ),
                _ => match parse_route_match(&r.match_expr) {
                    None => None,
                    Some(mv) => if mv.path_regex is Some && !regex_valid(
                        mv.path_regex.unwrap(),
                    ) {
                        None
                    } else {
                        Some(
                            RuleV {
                                id: r.id,
                                upstream_pool_id: r.upstream_pool_id,
                                priority: r.priority,
                                matcher: if kind is Ws {
                                    RouteMatchV { ws: Some(true), ..mv }
                                } else {
                                    mv
                                },
                                kind,
                            },
                        )
                    },
                },
            },
        }
    }
}

/// Every compiled route with its listener, in configuration order.
pub open spec fn flat_rules(rs: Seq<Route>) -> Seq<(Id, RuleV)>
    decreases rs.len(),
{
    if rs.len() == 0 {
        Seq::empty()
    } else {
        flat_rules(rs.drop_last()) + match compile_route(rs.last()) {
            Some(v) => seq![(rs.last().listener_id, v)],
            None => Seq::empty(),
        }
    }
}

/// The compiled routes of one listener, in configuration order.
pub open spec fn sel_rules(fl: Seq<(Id, RuleV)>, lid: Id) -> Seq<RuleV>
    decreases fl.len(),
{
    if fl.len() == 0 {
        Seq::empty()
    } else {
        sel_rules(fl.drop_last(), lid) + if fl.last().0 == lid {
            seq![fl.last().1]
        } else {
            Seq::empty()
        }
    }
}

/// Where a stable descending insertion puts priority `p`: before the first
/// strictly smaller priority.
pub open spec fn insert_pos(rs: Seq<RuleV>, p: i32) -> int
    decreases rs.len(),
{
    if rs.len() == 0 {
        0
    } else if rs[0].priority < p {
        0
    } else {
        1 + insert_pos(rs.drop_first(), p)
    }
}

/// Stable sort by priority descending, as a left-to-right insertion: equal
/// priorities keep their configuration order.
pub open spec fn sort_rules(rs: Seq<RuleV>) -> Seq<RuleV>
    decreases rs.len(),
{
    if rs.len() == 0 {
        rs
    } else {
        let sorted = sort_rules(rs.drop_last());
        sorted.insert(insert_pos(sorted, rs.last().priority), rs.last())
    }
}

/// Priorities never rise along the table.
pub open spec fn sorted_desc(rs: Seq<RuleV>) -> bool {
    forall|i: int, j: int| 0 <= i < j < rs.len() ==> rs[i].priority >= rs[j].priority
}

/// Everything before an insertion position outranks the inserted priority;
/// the element at the position, when there is one, ranks strictly below.
proof fn lemma_insert_pos_split(rs: Seq<RuleV>, p: i32)
    ensures
        0 <= insert_pos(rs, p) <= rs.len(),
        forall|k: int| 0 <= k < insert_pos(rs, p) ==> rs[k].priority >= p,
        insert_pos(rs, p) < rs.len() ==> rs[insert_pos(rs, p)].priority < p,
    decreases rs.len(),
{
    if rs.len() > 0 && !(rs[0].priority < p) {
        lemma_insert_pos_split(rs.drop_first(), p);
        assert forall|k: int| 0 <= k < insert_pos(rs, p) implies rs[k].priority >= p by {
            if k > 0 {
                assert(rs.drop_first()[k - 1] == rs[k]);
            }
        }
        if insert_pos(rs, p) < rs.len() {
            assert(rs.drop_first()[insert_pos(rs, p) - 1] == rs[insert_pos(rs, p)]);
        }
    }
}

/// A stable insertion keeps the table sorted.
proof fn lemma_insert_keeps_sorted(rs: Seq<RuleV>, r: RuleV)
    requires
        sorted_desc(rs),
    ensures
        sorted_desc(rs.insert(insert_pos(rs, r.priority), r)),
{
    lemma_insert_pos_split(rs, r.priority);
    let pos = insert_pos(rs, r.priority);
    let new = rs.insert(pos, r);
    assert forall|i: int, j: int|
        0 <= i < j < new.len() implies new[i].priority >= new[j].priority by {
        if i < pos {
            assert(new[i] == rs[i]);
        } else if i == pos {
            assert(new[i] == r);
        } else {
            assert(new[i] == rs[i - 1]);
        }
        if j < pos {
            assert(new[j] == rs[j]);
        } else if j == pos {
            assert(new[j] == r);
        } else {
            assert(new[j] == rs[j - 1]);
        }
    }
}

/// The stable sort sorts: the result is ordered by priority descending.
pub proof fn lemma_sort_rules_sorted(rs: Seq<RuleV>)
    ensures
        sorted_desc(sort_rules(rs)),
    decreases rs.len(),
{
    if rs.len() > 0 {
        lemma_sort_rules_sorted(rs.drop_last());
        lemma_insert_keeps_sorted(sort_rules(rs.drop_last()), rs.last());
    }
}

/// Every listener's route table is ordered by priority descending, and —
/// the table being a function of the snapshot's routes alone — rebuilding
/// the same snapshot yields the identical order.
pub proof fn lemma_route_order(routes: Seq<Route>, lid: Id)
    ensures
        sorted_desc(listener_rules(routes, lid)),
{
    lemma_sort_rules_sorted(sel_rules(flat_rules(routes), lid));
}

/// The route table a listener serves: its compiled routes, sorted stably by
/// priority descending.
pub open spec fn listener_rules(rs: Seq<Route>, lid: Id) -> Seq<RuleV> {
    sort_rules(sel_rules(flat_rules(rs), lid))
}

pub open spec fn rules_view(rs: Seq<RouteRule>) -> Seq<RuleV> {
    rs.map_values(|r: RouteRule| r@)
}

/// The route-table entries as a ghost association list.
pub open spec fn rbl_view(v: Seq<(Id, Vec<RouteRule>)>) -> Seq<(Id, Seq<RuleV>)> {
    v.map_values(|e: (Id, Vec<RouteRule>)| (e.0, rules_view(e.1@)))
}

/// First-match lookup among the route-table entries.
pub open spec fn rbl_lookup(v: Seq<(Id, Seq<RuleV>)>, lid: Id) -> Option<Seq<RuleV>>
    decreases v.len(),
{
    if v.len() == 0 {
        None
    } else if v[0].0 == lid {
        Some(v[0].1)
    } else {
        rbl_lookup(v.drop_first(), lid)
    }
}

/// Pushing an entry with a fresh key changes only that key's lookup.
proof fn lemma_rbl_lookup_push(v: Seq<(Id, Seq<RuleV>)>, key: Id, val: Seq<RuleV>, lid: Id)
    ensures
        rbl_lookup(v.push((key, val)), lid) == if rbl_lookup(v, lid) is Some {
            rbl_lookup(v, lid)
        } else if lid == key {
            Some(val)
        } else {
            None::<Seq<RuleV>>
        },
    decreases v.len(),
{
    if v.len() > 0 {
        assert(v.push((key, val))[0] == v[0]);
        assert(v.push((key, val)).drop_first() =~= v.drop_first().push((key, val)));
        lemma_rbl_lookup_push(v.drop_first(), key, val, lid);
    } else {
        assert(v.push((key, val))[0] == (key, val));
        assert(v.push((key, val)).drop_first() =~= v);
    }
}

// ---------------------------------------------------------------------
// Port maps.
// ---------------------------------------------------------------------

/// The listeners a snapshot keeps at runtime: enabled and passing the
/// port-range rules; the rest are dropped, never fatal.
pub open spec fn kept_listeners(ls: Seq<Listener>, ctx: &ValidationContext) -> Seq<ListenerV>
    decreases ls.len(),
{
    if ls.len() == 0 {
        Seq::empty()
    } else {
        kept_listeners(ls.drop_last(), ctx) + if ls.last().enabled && listener_valid_spec(
            ctx,
            &ls.last(),
        ) {
            seq![listener_rt_of(ls.last())]
        } else {
            Seq::empty()
        }
    }
}

/// Last-match lookup in the port map: a later entry for the same port
/// shadows an earlier one.
pub open spec fn port_lookup(v: Seq<(u16, ListenerV)>, port: u16) -> Option<ListenerV>
    decreases v.len(),
{
    if v.len() == 0 {
        None
    } else if v.last().0 == port {
        Some(v.last().1)
    } else {
        port_lookup(v.drop_last(), port)
    }
}

pub open spec fn lbp_view(v: Seq<(u16, ListenerRuntime)>) -> Seq<(u16, ListenerV)> {
    v.map_values(|e: (u16, ListenerRuntime)| (e.0, e.1@))
}

/// Each kept listener under its port, in order.
pub open spec fn port_entries(lv: Seq<ListenerV>) -> Seq<(u16, ListenerV)>
    decreases lv.len(),
{
    if lv.len() == 0 {
        Seq::empty()
    } else {
        port_entries(lv.drop_last()).push((lv.last().port as u16, lv.last()))
    }
}

pub open spec fn tbp_view(v: Seq<(u16, TlsKeyPair)>) -> Seq<(u16, (Seq<char>, Seq<char>))> {
    v.map_values(|e: (u16, TlsKeyPair)| (e.0, (e.1.cert_pem@, e.1.key_pem@)))
}

/// The PEM pair a port serves: the snapshot's material when it has any,
/// else the default self-signed pair.
pub open spec fn port_pem_or_default(s: &Snapshot, port: u16, dflt: (Seq<char>, Seq<char>)) -> (
    Seq<char>,
    Seq<char>,
) {
    match https_port_pem_spec(s, port) {
        Some(p) => p,
        None => dflt,
    }
}

// ---------------------------------------------------------------------
// The runtime configuration.
// ---------------------------------------------------------------------

/// Everything the data plane serves from, compiled from one snapshot and
/// swapped wholesale on adoption.
#[derive(Debug)]
pub struct RuntimeConfig {
    pub listeners: Vec<ListenerRuntime>,
    pub listeners_by_port: Vec<(u16, ListenerRuntime)>,
    pub tls_by_port: Vec<(u16, TlsKeyPair)>,
    pub routes_by_listener: Vec<(Id, Vec<RouteRule>)>,
    pub pools: Vec<(Id, PoolRuntime)>,
}

/// The relation between a snapshot and its compiled runtime: every part of
/// the runtime is pinned by the snapshot, the default TLS material and the
/// two port ranges.
pub open spec fn runtime_models(
    rt: &RuntimeConfig,
    s: &Snapshot,
    dflt: (Seq<char>, Seq<char>),
    http_port_range: Option<PortRange>,
    https_port_range: Option<PortRange>,
) -> bool {
    let ctx = ValidationContext { http_port_range, https_port_range };
    &&& rt.pools@.len() == s.upstream_pools@.len()
    &&& forall|i: int|
        0 <= i < rt.pools@.len() ==> {
            let p = s.upstream_pools@[i];
            let e = #[trigger] rt.pools@[i];
            &&& e.0 == p.id
            &&& targets_view(e.1.targets@) == pool_targets_spec(s.upstream_targets@, p.id)
            &&& e.1.cursor == 0
            &&& e.1.policy == pool_policy_of(p.policy@)
            &&& e.1.health.interval_secs == pool_health_of(p.health_check).interval_secs
            &&& e.1.health.timeout_ms == pool_health_of(p.health_check).timeout_ms
        }
    &&& forall|lid: Id|
        #[trigger] rbl_lookup(rbl_view(rt.routes_by_listener@), lid) == (if listener_rules(
            s.routes@,
            lid,
        ).len() == 0 {
            None::<Seq<RuleV>>
        } else {
            Some(listener_rules(s.routes@, lid))
        })
    &&& rt.listeners@.map_values(|l: ListenerRuntime| l@) == kept_listeners(s.listeners@, &ctx)
    &&& lbp_view(rt.listeners_by_port@) == port_entries(kept_listeners(s.listeners@, &ctx))
    &&& match https_port_range {
        Some(range) => {
            &&& tbp_view(rt.tls_by_port@).len() == (if range.start <= range.end {
                range.end - range.start + 1
            } else {
                0int
            })
            &&& forall|k: int|
                0 <= k < tbp_view(rt.tls_by_port@).len() ==> #[trigger] tbp_view(
                    rt.tls_by_port@,
                )[k] == (
                (range.start + k) as u16,
                port_pem_or_default(s, (range.start + k) as u16, dflt),
                )
        },
        None => {
            let https = https_listener_ports(s.listeners@);
            &&& tbp_view(rt.tls_by_port@).len() == https.len()
            &&& forall|k: int|
                0 <= k < https.len() ==> #[trigger] tbp_view(rt.tls_by_port@)[k] == (
                #[trigger] https[k],
                port_pem_or_default(s, https[k], dflt),
                )
        },
    }
}

/// The ports of the enabled, in-bounds HTTPS listeners, in configuration
/// order.
pub open spec fn https_listener_ports(ls: Seq<Listener>) -> Seq<u16>
    decreases ls.len(),
{
    if ls.len() == 0 {
        Seq::empty()
    } else {
        https_listener_ports(ls.drop_last()) + if ls.last().enabled && is_https_spec(
            ls.last().protocol@,
        ) && port_in_bounds(ls.last().port) {
            seq![ls.last().port as u16]
        } else {
            Seq::empty()
        }
    }
}

/// Compiles a snapshot into the runtime configuration. Malformed pieces —
/// an unknown policy, an invalid route, an out-of-range listener — degrade
/// or drop; they never fail the build.
pub fn build_runtime(
    snapshot: &Snapshot,
    default_tls: &TlsKeyPair,
    http_port_range: Option<PortRange>,
    https_port_range: Option<PortRange>,
) -> (rt: RuntimeConfig)
    ensures
        runtime_models(
            &rt,
            snapshot,
            (default_tls.cert_pem@, default_tls.key_pem@),
            http_port_range,
            https_port_range,
        ),
{
    let pools = build_pools(snapshot);
    let routes_by_listener = build_routes(snapshot);
    let ctx = ValidationContext::new(http_port_range, https_port_range);
    let listeners = build_listeners(snapshot, &ctx);
    proof {
        lemma_kept_listener_ports(snapshot.listeners@, &ctx);
        assert forall|k: int| 0 <= k < listeners@.len() implies port_in_bounds(
            (#[trigger] listeners@[k]).port,
        ) by {
            assert(listeners@.map_values(|l: ListenerRuntime| l@)[k] == listeners@[k]@);
        }
    }
    let listeners_by_port = build_port_map(&listeners);
    let tls_by_port = build_tls_map(snapshot, default_tls, https_port_range);
    proof {
        assert(listeners@.map_values(|l: ListenerRuntime| l@) =~= kept_listeners(
            snapshot.listeners@,
            &ValidationContext { http_port_range, https_port_range },
        ));
    }
    RuntimeConfig { listeners, listeners_by_port, tls_by_port, routes_by_listener, pools }
}

/// One fresh pool state per configured pool, in order.
#[verifier::loop_isolation(false)]
fn build_pools(snapshot: &Snapshot) -> (pools: Vec<(Id, PoolRuntime)>)
    ensures
        pools@.len() == snapshot.upstream_pools@.len(),
        forall|i: int|
            0 <= i < pools@.len() ==> {
                let p = snapshot.upstream_pools@[i];
                let e = #[trigger] pools@[i];
                &&& e.0 == p.id
                &&& targets_view(e.1.targets@) == pool_targets_spec(
                    snapshot.upstream_targets@,
                    p.id,
                )
                &&& e.1.cursor == 0
                &&& e.1.policy == pool_policy_of(p.policy@)
                &&& e.1.health.interval_secs == pool_health_of(p.health_check).interval_secs
                &&& e.1.health.timeout_ms == pool_health_of(p.health_check).timeout_ms
            },
{
    let mut pools: Vec<(Id, PoolRuntime)> = Vec::new();
    let mut i: usize = 0;
    while i < snapshot.upstream_pools.len()
        invariant
            i <= snapshot.upstream_pools@.len(),
            pools@.len() == i,
            forall|k: int|
                0 <= k < i ==> {
                    let p = snapshot.upstream_pools@[k];
                    let e = #[trigger] pools@[k];
                    &&& e.0 == p.id
                    &&& targets_view(e.1.targets@) == pool_targets_spec(
                        snapshot.upstream_targets@,
                        p.id,
                    )
                    &&& e.1.cursor == 0
                    &&& e.1.policy == pool_policy_of(p.policy@)
                    &&& e.1.health.interval_secs == pool_health_of(p.health_check).interval_secs
                    &&& e.1.health.timeout_ms == pool_health_of(p.health_check).timeout_ms
                },
        decreases snapshot.upstream_pools@.len() - i,
    {
        let pool = &snapshot.upstream_pools[i];
        let targets = build_pool_targets(snapshot, pool.id);
        let policy = match PoolPolicy::from_str(pool.policy.as_str()) {
            Some(p) => p,
            None => PoolPolicy::Weighted,
        };
        let health = match &pool.health_check {
            Some(j) => match PoolHealthCheck::from_json(j) {
                Some(h) => h,
                None => PoolHealthCheck { interval_secs: None, timeout_ms: None },
            },
            None => PoolHealthCheck { interval_secs: None, timeout_ms: None },
        };
        pools.push((pool.id, PoolRuntime { targets, cursor: 0, policy, health }));
        i = i + 1;
    }
    pools
}

/// The fresh runtime targets of one pool: its enabled targets, healthy and
/// idle.
#[verifier::loop_isolation(false)]
fn build_pool_targets(snapshot: &Snapshot, pid: Id) -> (ts: Vec<TargetRuntime>)
    ensures
        targets_view(ts@) == pool_targets_spec(snapshot.upstream_targets@, pid),
{
    let ghost all = snapshot.upstream_targets@;
    let mut ts: Vec<TargetRuntime> = Vec::new();
    let mut i: usize = 0;
    while i < snapshot.upstream_targets.len()
        invariant
            i <= all.len(),
            targets_view(ts@) =~~= pool_targets_spec(all.take(i as int), pid),
        decreases all.len() - i,
    {
        proof {
            assert(all.take(i + 1).drop_last() =~= all.take(i as int));
            assert(all.take(i + 1).last() == all[i as int]);
        }
        let t = &snapshot.upstream_targets[i];
        if t.pool_id.hi == pid.hi && t.pool_id.lo == pid.lo && t.enabled {
            ts.push(TargetRuntime::new(t.id, t.address.clone(), t.weight, true));
            proof {
                assert(targets_view(ts@) =~~= pool_targets_spec(all.take(i + 1), pid));
            }
        } else {
            proof {
                assert(targets_view(ts@) =~~= pool_targets_spec(all.take(i + 1), pid));
            }
        }
        i = i + 1;
    }
    proof {
        assert(all.take(all.len() as int) =~= all);
    }
    ts
}

/// Compiles one route, as the build keeps it.
fn compile_route_exec(r: &Route) -> (c: Option<RouteRule>)
    ensures
        match c {
            Some(rule) => compile_route(*r) == Some(rule@) && crate::matcher::rule_wf(&rule),
            None => compile_route(*r) is None,
        },
{
    if !r.enabled {
        return None;
    }
    let kind = match RouteKind::from_str(r.kind.as_str()) {
        Some(k) => k,
        None => {
            return None;
        },
    };
    let matcher = match kind {
        RouteKind::Port => RouteMatcher::any(),
        _ => {
            match RouteMatcher::from_json(&r.match_expr) {
                Some(m) => m,
                None => {
                    return None;
                },
            }
        },
    };
    let mut matcher = matcher;
    if matches!(kind, RouteKind::Ws) {
        matcher.enforce_ws();
    }
    Some(
        RouteRule {
            id: r.id,
            upstream_pool_id: r.upstream_pool_id,
            priority: r.priority,
            matcher,
            kind,
        },
    )
}

/// Groups the snapshot's compiled routes by listener and sorts each group
/// stably by priority descending.
#[verifier::loop_isolation(false)]
fn build_routes(snapshot: &Snapshot) -> (rbl: Vec<(Id, Vec<RouteRule>)>)
    ensures
        forall|lid: Id|
            #[trigger] rbl_lookup(rbl_view(rbl@), lid) == (if listener_rules(
                snapshot.routes@,
                lid,
            ).len() == 0 {
                None::<Seq<RuleV>>
            } else {
                Some(listener_rules(snapshot.routes@, lid))
            }),
{
    // First pass: compile every route, keeping its listener.
    let ghost all = snapshot.routes@;
    let mut flat: Vec<(Id, RouteRule)> = Vec::new();
    let mut i: usize = 0;
    while i < snapshot.routes.len()
        invariant
            i <= all.len(),
            flat_view(flat@) =~~= flat_rules(all.take(i as int)),
            forall|k: int| 0 <= k < flat@.len() ==> crate::matcher::rule_wf(&(#[trigger] flat@[k]).1),
        decreases all.len() - i,
    {
        proof {
            assert(all.take(i + 1).drop_last() =~= all.take(i as int));
            assert(all.take(i + 1).last() == all[i as int]);
        }
        match compile_route_exec(&snapshot.routes[i]) {
            Some(rule) => {
                flat.push((snapshot.routes[i].listener_id, rule));
            },
            None => {},
        }
        proof {
            assert(flat_view(flat@) =~~= flat_rules(all.take(i + 1)));
        }
        i = i + 1;
    }
    proof {
        assert(all.take(all.len() as int) =~= all);
    }

    // Second pass: one entry per listener, its rules insertion-sorted.
    let ghost fl = flat_view(flat@);
    let mut rbl: Vec<(Id, Vec<RouteRule>)> = Vec::new();
    let mut j: usize = 0;
    while j < flat.len()
        invariant
            j <= flat@.len(),
            fl == flat_view(flat@),
            fl.len() == flat@.len(),
            forall|lid: Id|
                #[trigger] rbl_lookup(rbl_view(rbl@), lid) == (if has_key(fl.take(j as int), lid) {
                    Some(sort_rules(sel_rules(fl, lid)))
                } else {
                    None::<Seq<RuleV>>
                }),
            forall|k: int|
                0 <= k < rbl@.len() ==> forall|m: int|
                    0 <= m < (#[trigger] rbl@[k]).1@.len() ==> crate::matcher::rule_wf(
                        &(#[trigger] rbl@[k].1@[m]),
                    ),
        decreases flat@.len() - j,
    {
        let lid = flat[j].0;
        proof {
            assert(fl[j as int].0 == lid);
            assert(fl.take(j + 1).drop_last() =~= fl.take(j as int));
            assert(fl.take(j + 1).last() == fl[j as int]);
        }
        if find_key(&rbl, lid) {
            // Already grouped when its first route went in.
        } else {
            let rules = gather_sorted(&flat, lid);
            let ghost before = rbl_view(rbl@);
            rbl.push((lid, rules));
            proof {
                assert(rbl_view(rbl@) =~~= before.push((lid, rules_view(rules@))));
                assert forall|l2: Id|
                    #[trigger] rbl_lookup(rbl_view(rbl@), l2) == (if has_key(
                        fl.take(j + 1),
                        l2,
                    ) {
                        Some(sort_rules(sel_rules(fl, l2)))
                    } else {
                        None::<Seq<RuleV>>
                    }) by {
                    lemma_rbl_lookup_push(before, lid, rules_view(rules@), l2);
                }
            }
        }
        proof {
            assert forall|l2: Id|
                #[trigger] rbl_lookup(rbl_view(rbl@), l2) == (if has_key(fl.take(j + 1), l2) {
                    Some(sort_rules(sel_rules(fl, l2)))
                } else {
                    None::<Seq<RuleV>>
                }) by {}
        }
        j = j + 1;
    }
    proof {
        assert(fl.take(fl.len() as int) =~= fl);
        assert forall|lid: Id|
            #[trigger] rbl_lookup(rbl_view(rbl@), lid) == (if listener_rules(all, lid).len()
                == 0 {
                None::<Seq<RuleV>>
            } else {
                Some(listener_rules(all, lid))
            }) by {
            lemma_sel_nonempty_iff_key(fl, lid);
            lemma_sort_len(sel_rules(fl, lid));
        }
    }
    rbl
}

pub open spec fn flat_view(v: Seq<(Id, RouteRule)>) -> Seq<(Id, RuleV)> {
    v.map_values(|e: (Id, RouteRule)| (e.0, e.1@))
}

/// Whether any pair carries this key.
pub open spec fn has_key(fl: Seq<(Id, RuleV)>, lid: Id) -> bool {
    exists|k: int| 0 <= k < fl.len() && (#[trigger] fl[k]).0 == lid
}

/// A listener has compiled routes exactly when it appears among the pairs.
proof fn lemma_sel_nonempty_iff_key(fl: Seq<(Id, RuleV)>, lid: Id)
    ensures
        (sel_rules(fl, lid).len() > 0) == has_key(fl, lid),
    decreases fl.len(),
{
    if fl.len() > 0 {
        lemma_sel_nonempty_iff_key(fl.drop_last(), lid);
        if fl.last().0 == lid {
            assert(fl[fl.len() - 1].0 == lid);
        } else {
            assert forall|k: int| 0 <= k < fl.len() && (#[trigger] fl[k]).0 == lid implies has_key(
                fl.drop_last(),
                lid,
            ) by {
                if k < fl.len() - 1 {
                    assert(fl.drop_last()[k].0 == lid);
                }
            }
        }
    }
}

/// Sorting keeps the number of rules.
proof fn lemma_sort_len(rs: Seq<RuleV>)
    ensures
        sort_rules(rs).len() == rs.len(),
    decreases rs.len(),
{
    if rs.len() > 0 {
        lemma_sort_len(rs.drop_last());
        lemma_insert_pos_bounds(sort_rules(rs.drop_last()), rs.last().priority);
    }
}

/// An insertion position lies inside the sequence.
proof fn lemma_insert_pos_bounds(rs: Seq<RuleV>, p: i32)
    ensures
        0 <= insert_pos(rs, p) <= rs.len(),
    decreases rs.len(),
{
    if rs.len() > 0 && !(rs[0].priority < p) {
        lemma_insert_pos_bounds(rs.drop_first(), p);
    }
}

/// Whether the table already has an entry for this listener.
fn find_key(rbl: &Vec<(Id, Vec<RouteRule>)>, lid: Id) -> (r: bool)
    ensures
        r == (rbl_lookup(rbl_view(rbl@), lid) is Some),
{
    let ghost v = rbl_view(rbl@);
    proof {
        assert(v.skip(0) =~= v);
    }
    let mut i: usize = 0;
    while i < rbl.len()
        invariant
            v == rbl_view(rbl@),
            i <= rbl@.len(),
            v.len() == rbl@.len(),
            rbl_lookup(v, lid) == rbl_lookup(v.skip(i as int), lid),
        decreases rbl@.len() - i,
    {
        proof {
            assert(v.skip(i as int)[0] == v[i as int]);
            assert(v.skip(i as int).drop_first() =~= v.skip(i + 1));
        }
        if rbl[i].0.hi == lid.hi && rbl[i].0.lo == lid.lo {
            return true;
        }
        i = i + 1;
    }
    proof {
        assert(v.skip(v.len() as int) =~= Seq::<(Id, Seq<RuleV>)>::empty());
    }
    false
}

/// Collects one listener's rules from the compiled pairs, insertion-sorted
/// by priority descending; insertion order breaks ties.
#[verifier::loop_isolation(false)]
fn gather_sorted(flat: &Vec<(Id, RouteRule)>, lid: Id) -> (rules: Vec<RouteRule>)
    ensures
        rules_view(rules@) == sort_rules(sel_rules(flat_view(flat@), lid)),
        (forall|k: int|
            0 <= k < flat@.len() ==> crate::matcher::rule_wf(&(#[trigger] flat@[k]).1)) ==> (
        forall|m: int|
            0 <= m < rules@.len() ==> crate::matcher::rule_wf(&(#[trigger] rules@[m]))),
{
    let ghost fl = flat_view(flat@);
    let mut rules: Vec<RouteRule> = Vec::new();
    let mut i: usize = 0;
    while i < flat.len()
        invariant
            fl == flat_view(flat@),
            i <= flat@.len(),
            fl.len() == flat@.len(),
            rules_view(rules@) =~~= sort_rules(sel_rules(fl.take(i as int), lid)),
            (forall|k: int|
                0 <= k < flat@.len() ==> crate::matcher::rule_wf(&(#[trigger] flat@[k]).1))
                ==> forall|m: int|
                0 <= m < rules@.len() ==> crate::matcher::rule_wf(&(#[trigger] rules@[m])),
        decreases flat@.len() - i,
    {
        proof {
            assert(fl.take(i + 1).drop_last() =~= fl.take(i as int));
            assert(fl.take(i + 1).last() == fl[i as int]);
        }
        if flat[i].0.hi == lid.hi && flat[i].0.lo == lid.lo {
            proof {
                assert(sel_rules(fl.take(i + 1), lid) =~= sel_rules(fl.take(i as int), lid).push(
                    fl[i as int].1,
                ));
                lemma_sort_push(sel_rules(fl.take(i as int), lid), fl[i as int].1);
            }
            let rule = clone_rule(&flat[i].1);
            insert_sorted(&mut rules, rule);
        } else {
            proof {
                assert(sel_rules(fl.take(i + 1), lid) =~= sel_rules(fl.take(i as int), lid));
            }
        }
        i = i + 1;
    }
    proof {
        assert(fl.take(fl.len() as int) =~= fl);
    }
    rules
}

/// Sorting a sequence extended by one element inserts that element into the
/// sorted rest.
proof fn lemma_sort_push(rs: Seq<RuleV>, r: RuleV)
    ensures
        sort_rules(rs.push(r)) == sort_rules(rs).insert(
            insert_pos(sort_rules(rs), r.priority),
            r,
        ),
{
    assert(rs.push(r).drop_last() =~= rs);
    assert(rs.push(r).last() == r);
}

/// Inserts a rule before the first strictly lower priority.
#[verifier::loop_isolation(false)]
fn insert_sorted(rules: &mut Vec<RouteRule>, rule: RouteRule)
    ensures
        rules_view(final(rules)@) == rules_view(old(rules)@).insert(
            insert_pos(rules_view(old(rules)@), rule.priority),
            rule@,
        ),
        (forall|m: int|
            0 <= m < old(rules)@.len() ==> crate::matcher::rule_wf(&(#[trigger] old(rules)@[m])))
            && crate::matcher::rule_wf(&rule) ==> forall|m: int|
            0 <= m < final(rules)@.len() ==> crate::matcher::rule_wf(
                &(#[trigger] final(rules)@[m]),
            ),
{
    let ghost rv = rules_view(rules@);
    proof {
        assert(rv.skip(0) =~= rv);
    }
    let mut pos: usize = 0;
    while pos < rules.len() && rules[pos].priority >= rule.priority
        invariant
            rv == rules_view(rules@),
            pos <= rules@.len(),
            rv.len() == rules@.len(),
            insert_pos(rv, rule.priority) == pos + insert_pos(rv.skip(pos as int), rule.priority),
        decreases rules@.len() - pos,
    {
        proof {
            assert(rv.skip(pos as int)[0] == rv[pos as int]);
            assert(rv.skip(pos as int).drop_first() =~= rv.skip(pos + 1));
        }
        pos = pos + 1;
    }
    proof {
        if pos < rules@.len() {
            assert(rv.skip(pos as int)[0] == rv[pos as int]);
            assert(insert_pos(rv.skip(pos as int), rule.priority) == 0);
        } else {
            assert(rv.skip(pos as int) =~= Seq::<RuleV>::empty());
        }
        assert(insert_pos(rv, rule.priority) == pos as int);
    }
    rules.insert(pos, rule);
    proof {
        assert(rules_view(rules@) =~~= rv.insert(pos as int, rule@));
    }
}

/// Clones a compiled rule; every field keeps its value.
fn clone_rule(r: &RouteRule) -> (c: RouteRule)
    ensures
        c@ == r@,
        crate::matcher::rule_wf(r) ==> crate::matcher::rule_wf(&c),
{
    RouteRule {
        id: r.id,
        upstream_pool_id: r.upstream_pool_id,
        priority: r.priority,
        matcher: clone_matcher(&r.matcher),
        kind: r.kind,
    }
}

/// Clones a compiled matcher; the view is unchanged.
fn clone_matcher(m: &RouteMatcher) -> (c: RouteMatcher)
    ensures
        c@ == m@,
{
    RouteMatcher {
        host: clone_opt_string(&m.host),
        path_prefix: clone_opt_string(&m.path_prefix),
        path_regex: clone_opt_string(&m.path_regex),
        methods: clone_opt_strings(&m.methods),
        headers: clone_opt_pairs(&m.headers),
        query: clone_opt_pairs(&m.query),
        ws: m.ws,
    }
}

fn clone_opt_string(v: &Option<String>) -> (c: Option<String>)
    ensures
        match c {
            Some(s) => v is Some && s@ == v.unwrap()@,
            None => v is None,
        },
{
    match v {
        Some(s) => Some(s.clone()),
        None => None,
    }
}

fn clone_opt_strings(v: &Option<Vec<String>>) -> (c: Option<Vec<String>>)
    ensures
        match c {
            Some(s) => v is Some && crate::matchexpr::strings_view(s@)
                == crate::matchexpr::strings_view(v.unwrap()@),
            None => v is None,
        },
{
    match v {
        Some(vs) => {
            let mut out: Vec<String> = Vec::new();
            let mut i: usize = 0;
            while i < vs.len()
                invariant
                    i <= vs@.len(),
                    out@.len() == i,
                    crate::matchexpr::strings_view(out@) =~~= crate::matchexpr::strings_view(
                        vs@.take(i as int),
                    ),
                decreases vs@.len() - i,
            {
                let ghost prev = out@;
                out.push(vs[i].clone());
                proof {
                    assert forall|k: int|
                        0 <= k < i + 1 implies crate::matchexpr::strings_view(out@)[k]
                        == crate::matchexpr::strings_view(vs@.take(i + 1))[k] by {
                        assert(vs@.take(i + 1)[k] == vs@[k]);
                        if k < i {
                            assert(out@[k] == prev[k]);
                            assert(crate::matchexpr::strings_view(prev)[k]
                                == crate::matchexpr::strings_view(vs@.take(i as int))[k]);
                            assert(vs@.take(i as int)[k] == vs@[k]);
                        }
                    }
                    assert(crate::matchexpr::strings_view(out@)
                        =~~= crate::matchexpr::strings_view(vs@.take(i + 1)));
                }
                i = i + 1;
            }
            proof {
                assert(vs@.take(vs@.len() as int) =~= vs@);
                assert(crate::matchexpr::strings_view(out@) =~~= crate::matchexpr::strings_view(
                    vs@,
                ));
            }
            Some(out)
        },
        None => None,
    }
}

fn clone_opt_pairs(v: &Option<Vec<(String, String)>>) -> (c: Option<Vec<(String, String)>>)
    ensures
        match c {
            Some(s) => v is Some && crate::matchexpr::pairs_view(s@) == crate::matchexpr::pairs_view(
                v.unwrap()@,
            ),
            None => v is None,
        },
{
    match v {
        Some(vs) => {
            let mut out: Vec<(String, String)> = Vec::new();
            let mut i: usize = 0;
            while i < vs.len()
                invariant
                    i <= vs@.len(),
                    out@.len() == i,
                    crate::matchexpr::pairs_view(out@) =~~= crate::matchexpr::pairs_view(
                        vs@.take(i as int),
                    ),
                decreases vs@.len() - i,
            {
                let ghost prev = out@;
                out.push((vs[i].0.clone(), vs[i].1.clone()));
                proof {
                    assert forall|k: int|
                        0 <= k < i + 1 implies crate::matchexpr::pairs_view(out@)[k]
                        == crate::matchexpr::pairs_view(vs@.take(i + 1))[k] by {
                        assert(vs@.take(i + 1)[k] == vs@[k]);
                        if k < i {
                            assert(out@[k] == prev[k]);
                            assert(crate::matchexpr::pairs_view(prev)[k]
                                == crate::matchexpr::pairs_view(vs@.take(i as int))[k]);
                            assert(vs@.take(i as int)[k] == vs@[k]);
                        }
                    }
                    assert(crate::matchexpr::pairs_view(out@) =~~= crate::matchexpr::pairs_view(
                        vs@.take(i + 1),
                    ));
                }
                i = i + 1;
            }
            proof {
                assert(vs@.take(vs@.len() as int) =~= vs@);
                assert(crate::matchexpr::pairs_view(out@) =~~= crate::matchexpr::pairs_view(vs@));
            }
            Some(out)
        },
        None => None,
    }
}

/// The listeners kept at runtime, in configuration order.
#[verifier::loop_isolation(false)]
fn build_listeners(snapshot: &Snapshot, ctx: &ValidationContext) -> (ls: Vec<ListenerRuntime>)
    ensures
        ls@.map_values(|l: ListenerRuntime| l@) == kept_listeners(snapshot.listeners@, ctx),
{
    let ghost all = snapshot.listeners@;
    let mut ls: Vec<ListenerRuntime> = Vec::new();
    let mut i: usize = 0;
    while i < snapshot.listeners.len()
        invariant
            i <= all.len(),
            ls@.map_values(|l: ListenerRuntime| l@) =~~= kept_listeners(all.take(i as int), ctx),
        decreases all.len() - i,
    {
        proof {
            assert(all.take(i + 1).drop_last() =~= all.take(i as int));
            assert(all.take(i + 1).last() == all[i as int]);
        }
        let l = &snapshot.listeners[i];
        if l.enabled && ctx.is_listener_valid(l) {
            ls.push(ListenerRuntime { id: l.id, port: l.port, protocol: l.protocol.clone() });
        }
        proof {
            assert(ls@.map_values(|l2: ListenerRuntime| l2@) =~~= kept_listeners(
                all.take(i + 1),
                ctx,
            ));
        }
        i = i + 1;
    }
    proof {
        assert(all.take(all.len() as int) =~= all);
    }
    ls
}

/// Every kept listener's port lies in bounds.
pub proof fn lemma_kept_listener_ports(ls: Seq<Listener>, ctx: &ValidationContext)
    ensures
        forall|k: int|
            0 <= k < kept_listeners(ls, ctx).len() ==> port_in_bounds(
                (#[trigger] kept_listeners(ls, ctx)[k]).port,
            ),
    decreases ls.len(),
{
    if ls.len() > 0 {
        lemma_kept_listener_ports(ls.drop_last(), ctx);
        let prev = kept_listeners(ls.drop_last(), ctx);
        assert forall|k: int|
            0 <= k < kept_listeners(ls, ctx).len() implies port_in_bounds(
            (#[trigger] kept_listeners(ls, ctx)[k]).port,
        ) by {
            if k < prev.len() {
                assert(kept_listeners(ls, ctx)[k] == prev[k]);
            }
        }
    }
}

/// Every listener the runtime keeps is reachable through the port map:
/// looking its port up finds a listener bound there.
pub proof fn lemma_kept_listener_reachable(lv: Seq<ListenerV>, k: int)
    requires
        0 <= k < lv.len(),
    ensures
        port_lookup(port_entries(lv), (lv[k].port as u16)) is Some,
    decreases lv.len(),
{
    let entries = port_entries(lv);
    if k == lv.len() - 1 {
        assert(entries.last() == ((lv.last().port as u16), lv.last()));
    } else {
        if entries.last().0 == (lv[k].port as u16) {
        } else {
            lemma_kept_listener_reachable(lv.drop_last(), k);
            assert(entries.drop_last() =~= port_entries(lv.drop_last()));
            assert(lv.drop_last()[k] == lv[k]);
        }
    }
}

/// The port map: every kept listener under its port; later entries shadow
/// earlier ones on lookup.
#[verifier::loop_isolation(false)]
fn build_port_map(ls: &Vec<ListenerRuntime>) -> (lbp: Vec<(u16, ListenerRuntime)>)
    requires
        forall|k: int| 0 <= k < ls@.len() ==> port_in_bounds((#[trigger] ls@[k]).port),
    ensures
        lbp_view(lbp@) == port_entries(ls@.map_values(|l: ListenerRuntime| l@)),
{
    let ghost lv = ls@.map_values(|l: ListenerRuntime| l@);
    let mut lbp: Vec<(u16, ListenerRuntime)> = Vec::new();
    let mut i: usize = 0;
    while i < ls.len()
        invariant
            lv == ls@.map_values(|l: ListenerRuntime| l@),
            i <= ls@.len(),
            lv.len() == ls@.len(),
            lbp_view(lbp@) =~~= port_entries(lv.take(i as int)),
        decreases ls@.len() - i,
    {
        proof {
            assert(lv.take(i + 1).drop_last() =~= lv.take(i as int));
            assert(lv.take(i + 1).last() == lv[i as int]);
            assert(lv[i as int] == ls@[i as int]@);
        }
        let l = &ls[i];
        lbp.push(
            (l.port as u16, ListenerRuntime { id: l.id, port: l.port, protocol: l.protocol.clone() }),
        );
        proof {
            assert(lbp_view(lbp@) =~~= port_entries(lv.take(i + 1)));
        }
        i = i + 1;
    }
    proof {
        assert(lv.take(lv.len() as int) =~= lv);
    }
    lbp
}

/// The per-port TLS material: with a configured HTTPS range, one entry per
/// port of the range; otherwise one per enabled HTTPS listener. Ports
/// without usable snapshot material serve the default pair.
#[verifier::loop_isolation(false)]
fn build_tls_map(snapshot: &Snapshot, default_tls: &TlsKeyPair, https_port_range: Option<
    PortRange,
>) -> (tbp: Vec<(u16, TlsKeyPair)>)
    ensures
        match https_port_range {
            Some(range) => {
                &&& tbp_view(tbp@).len() == (if range.start <= range.end {
                    range.end - range.start + 1
                } else {
                    0int
                })
                &&& forall|k: int|
                    0 <= k < tbp_view(tbp@).len() ==> #[trigger] tbp_view(tbp@)[k] == (
                    (range.start + k) as u16,
                    port_pem_or_default(
                        snapshot,
                        (range.start + k) as u16,
                        (default_tls.cert_pem@, default_tls.key_pem@),
                    ),
                    )
            },
            None => {
                let https = https_listener_ports(snapshot.listeners@);
                &&& tbp_view(tbp@).len() == https.len()
                &&& forall|k: int|
                    0 <= k < https.len() ==> #[trigger] tbp_view(tbp@)[k] == (
                    #[trigger] https[k],
                    port_pem_or_default(
                        snapshot,
                        https[k],
                        (default_tls.cert_pem@, default_tls.key_pem@),
                    ),
                    )
            },
        },
{
    let ghost dflt = (default_tls.cert_pem@, default_tls.key_pem@);
    let mut tbp: Vec<(u16, TlsKeyPair)> = Vec::new();
    match https_port_range {
        Some(range) => {
            let ports = range.iter();
            let mut k: usize = 0;
            while k < ports.len()
                invariant
                    ports@.len() == (if range.start <= range.end {
                        range.end - range.start + 1
                    } else {
                        0int
                    }),
                    forall|m: int| 0 <= m < ports@.len() ==> ports@[m] == range.start + m,
                    k <= ports@.len(),
                    tbp_view(tbp@).len() == k,
                    forall|m: int|
                        0 <= m < k ==> #[trigger] tbp_view(tbp@)[m] == (
                        (range.start + m) as u16,
                        port_pem_or_default(snapshot, (range.start + m) as u16, dflt),
                        ),
                decreases ports@.len() - k,
            {
                let port = ports[k];
                let pair = port_pair(snapshot, port, default_tls);
                let ghost prev = tbp@;
                tbp.push((port, pair));
                proof {
                    assert forall|m: int|
                        0 <= m < k + 1 implies #[trigger] tbp_view(tbp@)[m] == (
                        (range.start + m) as u16,
                        port_pem_or_default(snapshot, (range.start + m) as u16, dflt),
                        ) by {
                        if m < k as int {
                            assert(tbp@[m] == prev[m]);
                            assert(tbp_view(prev)[m] == (
                                (range.start + m) as u16,
                                port_pem_or_default(snapshot, (range.start + m) as u16, dflt),
                            ));
                        }
                    }
                }
                k = k + 1;
            }
        },
        None => {
            let ghost all = snapshot.listeners@;
            let mut i: usize = 0;
            while i < snapshot.listeners.len()
                invariant
                    i <= all.len(),
                    all == snapshot.listeners@,
                    tbp_view(tbp@).len() == https_listener_ports(all.take(i as int)).len(),
                    forall|m: int|
                        0 <= m < tbp_view(tbp@).len() ==> #[trigger] tbp_view(tbp@)[m] == (
                        #[trigger] https_listener_ports(all.take(i as int))[m],
                        port_pem_or_default(
                            snapshot,
                            https_listener_ports(all.take(i as int))[m],
                            dflt,
                        ),
                        ),
                decreases all.len() - i,
            {
                proof {
                    assert(all.take(i + 1).drop_last() =~= all.take(i as int));
                    assert(all.take(i + 1).last() == all[i as int]);
                }
                let l = &snapshot.listeners[i];
                let ghost prev = tbp@;
                let ghost hp = https_listener_ports(all.take(i as int));
                if l.enabled && crate::text::eq_ignore_ascii_case(l.protocol.as_str(), "https")
                    && 1 <= l.port && l.port <= 65535 {
                    let port = l.port as u16;
                    let pair = port_pair(snapshot, port, default_tls);
                    tbp.push((port, pair));
                }
                proof {
                    let hp2 = https_listener_ports(all.take(i + 1));
                    assert forall|m: int|
                        0 <= m < tbp_view(tbp@).len() implies #[trigger] tbp_view(tbp@)[m] == (
                        hp2[m],
                        port_pem_or_default(snapshot, hp2[m], dflt),
                        ) by {
                        if m < prev.len() {
                            assert(tbp@[m] == prev[m]);
                            assert(tbp_view(prev)[m] == (
                                hp[m],
                                port_pem_or_default(snapshot, hp[m], dflt),
                            ));
                            assert(hp2[m] == hp[m]);
                        }
                    }
                }
                i = i + 1;
            }
            proof {
                assert(all.take(all.len() as int) =~= all);
            }
        },
    }
    tbp
}

/// The material one port serves: the snapshot's, or the default pair.
fn port_pair(snapshot: &Snapshot, port: u16, default_tls: &TlsKeyPair) -> (pair: TlsKeyPair)
    ensures
        (pair.cert_pem@, pair.key_pem@) == port_pem_or_default(
            snapshot,
            port,
            (default_tls.cert_pem@, default_tls.key_pem@),
        ),
{
    match https_port_pem(snapshot, port) {
        Some(pair) => pair,
        None => TlsKeyPair {
            cert_pem: default_tls.cert_pem.clone(),
            key_pem: default_tls.key_pem.clone(),
        },
    }
}

} // verus!
