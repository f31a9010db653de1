//! The per-request decisions of the proxy: ACME challenge interception,
//! port-to-listener dispatch, route selection, upstream pick, and the
//! paired release when the request completes.

use vstd::prelude::*;
use crate::ids::Id;
use crate::matcher::{HttpRequest, HttpRequestV, RouteRule};
use crate::runtime::{RuntimeConfig, RuleV, rbl_view, rbl_lookup, lbp_view, port_lookup, ListenerV, rules_view};
use crate::selector::{PoolRuntime, pick_spec, picked_state, sat_inc, TargetRuntime};
use crate::text::{starts_with_spec, str_starts_with, str_chars, chars_range_to_string};
use vstd::string::StrSliceExecFns;

verus! {

// ---------------------------------------------------------------------
// ACME challenge interception.
// ---------------------------------------------------------------------

/// The token of an ACME HTTP-01 challenge URL, when the path carries one.
pub open spec fn acme_token_spec(path: Seq<char>) -> Option<Seq<char>> {
    if starts_with_spec(path, "/.well-known/acme-challenge/"@) {
        Some(path.skip("/.well-known/acme-challenge/"@.len() as int))
    } else {
        None
    }
}

/// Extracts the challenge token from a request path.
pub fn acme_token_from_path(path: &str) -> (r: Option<String>)
    ensures
        match r {
            Some(t) => acme_token_spec(path@) == Some(t@),
            None => acme_token_spec(path@) is None,
        },
{
    let prefix = "/.well-known/acme-challenge/";
    if !str_starts_with(path, prefix) {
        return None;
    }
    let cs = str_chars(path);
    let plen = prefix.unicode_len();
    let token = chars_range_to_string(&cs, plen, cs.len());
    proof {
        assert(token@ =~= path@.skip(prefix@.len() as int));
    }
    Some(token)
}

/// What the challenge endpoint answers: the key authorization as plain
/// text on a hit, 404 on a miss.
pub enum ChallengeReply {
    KeyAuth(String),
    NotFound,
}

/// Turns a challenge-store lookup into the response the filter writes.
pub fn challenge_reply(lookup: Option<String>) -> (r: ChallengeReply)
    ensures
        match lookup {
            Some(k) => r is KeyAuth && r->KeyAuth_0 == k,
            None => r is NotFound,
        },
{
    match lookup {
        Some(key_auth) => ChallengeReply::KeyAuth(key_auth),
        None => ChallengeReply::NotFound,
    }
}

// ---------------------------------------------------------------------
// Upstream dispatch.
// ---------------------------------------------------------------------

/// A rule's gate at the view level: port rules always pass, path rules go
/// by the matcher, ws rules demand an upgrade besides.
pub open spec fn rule_v_matches(v: RuleV, req: HttpRequestV) -> bool {
    match v.kind {
        crate::matcher::RouteKind::Port => true,
        crate::matcher::RouteKind::Path => crate::matcher::matcher_matches(v.matcher, req),
        crate::matcher::RouteKind::Ws => crate::matcher::is_ws_spec(req)
            && crate::matcher::matcher_matches(v.matcher, req),
    }
}

/// The first pool entry with this id.
pub open spec fn pools_lookup(ps: Seq<(Id, PoolRuntime)>, pid: Id) -> Option<int>
    decreases ps.len(),
{
    if ps.len() == 0 {
        None
    } else if ps[0].0 == pid {
        Some(0)
    } else {
        match pools_lookup(ps.drop_first(), pid) {
            Some(j) => Some(j + 1),
            None => None,
        }
    }
}

/// The first route at or after `k` that matches the request and whose pool
/// exists and has at least one target: (route index, pool entry index).
pub open spec fn serving_from(
    rules: Seq<RuleV>,
    req: HttpRequestV,
    ps: Seq<(Id, PoolRuntime)>,
    k: int,
) -> Option<(int, int)>
    decreases rules.len() - k,
{
    if k < 0 || k >= rules.len() {
        None
    } else {
        let pi = pools_lookup(ps, rules[k].upstream_pool_id);
        if rule_v_matches(rules[k], req) && pi is Some && ps[pi.unwrap()].1.targets@.len() > 0 {
            Some((k, pi.unwrap()))
        } else {
            serving_from(rules, req, ps, k + 1)
        }
    }
}

/// What dispatch decided for a request.
pub enum RouteOutcome {
    /// No listener is bound to the arriving port: 404.
    NoListener,
    /// The listener has no routes: 404.
    NoRoutes,
    /// No route matched with a serviceable pool: 502, "no upstream matched".
    NoUpstream,
    /// A target was chosen; its address is where the request goes.
    Upstream { address: String, pool_index: usize, target_index: usize },
}

/// The target a request holds while in flight: the pool entry and target
/// position whose inflight count it owns.
pub struct RequestCtx {
    pub current: Option<(usize, usize)>,
}

/// A context's held target points at a live inflight count.
pub open spec fn ctx_wf(ctx: &RequestCtx, rt: &RuntimeConfig) -> bool {
    match ctx.current {
        Some((pi, ti)) => {
            &&& pi < rt.pools@.len()
            &&& ti < rt.pools@[pi as int].1.targets@.len()
            &&& rt.pools@[pi as int].1.targets@[ti as int].inflight > 0
        },
        None => true,
    }
}

impl RequestCtx {
    /// A fresh request context: no target held.
    pub fn new() -> (r: RequestCtx)
        ensures
            r.current is None,
    {
        RequestCtx { current: None }
    }
}

impl RuntimeConfig {
    /// The listener bound to a port; a later entry shadows an earlier one.
    pub fn listener_by_port(&self, port: u16) -> (r: Option<&crate::runtime::ListenerRuntime>)
        ensures
            match r {
                Some(l) => port_lookup(lbp_view(self.listeners_by_port@), port) == Some(l@),
                None => port_lookup(lbp_view(self.listeners_by_port@), port) is None,
            },
    {
        let ghost v = lbp_view(self.listeners_by_port@);
        let mut i: usize = self.listeners_by_port.len();
        proof {
            assert(v.take(v.len() as int) =~= v);
        }
        while i > 0
            invariant
                v == lbp_view(self.listeners_by_port@),
                i <= self.listeners_by_port@.len(),
                v.len() == self.listeners_by_port@.len(),
                port_lookup(v, port) == port_lookup(v.take(i as int), port),
            decreases i,
        {
            proof {
                assert(v.take(i as int).last() == v[i - 1]);
                assert(v.take(i as int).drop_last() =~= v.take(i - 1));
            }
            if self.listeners_by_port[i - 1].0 == port {
                return Some(&self.listeners_by_port[i - 1].1);
            }
            i = i - 1;
        }
        proof {
            assert(v.take(0) =~= Seq::<(u16, ListenerV)>::empty());
        }
        None
    }

    /// The route table of a listener, if it has one.
    pub fn routes_for(&self, lid: Id) -> (r: Option<&Vec<RouteRule>>)
        ensures
            match r {
                Some(rules) => rbl_lookup(rbl_view(self.routes_by_listener@), lid) == Some(
                    rules_view(rules@),
                ) && exists|e: int|
                    0 <= e < self.routes_by_listener@.len() && (
                    #[trigger] self.routes_by_listener@[e]).1 == *rules,
                None => rbl_lookup(rbl_view(self.routes_by_listener@), lid) is None,
            },
    {
        let ghost v = rbl_view(self.routes_by_listener@);
        proof {
            assert(v.skip(0) =~= v);
        }
        let mut i: usize = 0;
        while i < self.routes_by_listener.len()
            invariant
                v == rbl_view(self.routes_by_listener@),
                i <= self.routes_by_listener@.len(),
                v.len() == self.routes_by_listener@.len(),
                rbl_lookup(v, lid) == rbl_lookup(v.skip(i as int), lid),
            decreases self.routes_by_listener@.len() - i,
        {
            proof {
                assert(v.skip(i as int)[0] == v[i as int]);
                assert(v.skip(i as int).drop_first() =~= v.skip(i + 1));
            }
            if self.routes_by_listener[i].0.hi == lid.hi && self.routes_by_listener[i].0.lo
                == lid.lo {
                proof {
                    assert(self.routes_by_listener@[i as int].1
                        == self.routes_by_listener@[i as int].1);
                }
                return Some(&self.routes_by_listener[i].1);
            }
            i = i + 1;
        }
        proof {
            assert(v.skip(v.len() as int) =~= Seq::<(Id, Seq<RuleV>)>::empty());
        }
        None
    }

    /// The index of a pool's entry.
    fn pool_index(&self, pid: Id) -> (r: Option<usize>)
        ensures
            match r {
                Some(i) => pools_lookup(self.pools@, pid) == Some(i as int) && i
                    < self.pools@.len(),
                None => pools_lookup(self.pools@, pid) is None,
            },
    {
        let ghost v = self.pools@;
        proof {
            assert(v.skip(0) =~= v);
        }
        let mut i: usize = 0;
        while i < self.pools.len()
            invariant
                v == self.pools@,
                i <= v.len(),
                pools_lookup(v, pid) == match pools_lookup(v.skip(i as int), pid) {
                    Some(j) => Some(j + i),
                    None => None::<int>,
                },
            decreases v.len() - i,
        {
            proof {
                assert(v.skip(i as int)[0] == v[i as int]);
                assert(v.skip(i as int).drop_first() =~= v.skip(i + 1));
            }
            if self.pools[i].0.hi == pid.hi && self.pools[i].0.lo == pid.lo {
                return Some(i);
            }
            i = i + 1;
        }
        proof {
            assert(v.skip(v.len() as int) =~= Seq::<(Id, PoolRuntime)>::empty());
        }
        None
    }

    /// Draws a target from the pool a route names: the chosen target's
    /// address and position, or nothing when the pool is missing or empty.
    pub fn pick_peer(&mut self, pool_id: Id) -> (r: Option<(String, usize, usize)>)
        ensures
            match r {
                Some((address, pi, ti)) => {
                    &&& pools_lookup(old(self).pools@, pool_id) == Some(pi as int)
                    &&& pi < old(self).pools@.len()
                    &&& pick_spec(
                        old(self).pools@[pi as int].1.policy,
                        old(self).pools@[pi as int].1.targets@,
                        old(self).pools@[pi as int].1.cursor,
                    ) == Some(ti as int)
                    &&& ti < old(self).pools@[pi as int].1.targets@.len()
                    &&& address@ == old(self).pools@[pi as int].1.targets@[ti as int].address@
                    &&& final(self).pools@.len() == old(self).pools@.len()
                    &&& final(self).pools@[pi as int].0 == old(self).pools@[pi as int].0
                    &&& picked_state(
                        old(self).pools@[pi as int].1,
                        final(self).pools@[pi as int].1,
                        Some(ti),
                    )
                    &&& forall|k: int|
                        0 <= k < old(self).pools@.len() && k != pi ==> #[trigger] final(self).pools@[k] == old(self).pools@[k]
                    &&& final(self).listeners == old(self).listeners
                    &&& final(self).listeners_by_port == old(self).listeners_by_port
                    &&& final(self).tls_by_port == old(self).tls_by_port
                    &&& final(self).routes_by_listener == old(self).routes_by_listener
                },
                None => {
                    &&& *final(self) == *old(self)
                    &&& (pools_lookup(old(self).pools@, pool_id) is None || old(self).pools@[pools_lookup(old(self).pools@, pool_id).unwrap()].1.targets@.len()
                        == 0)
                },
            },
    {
        let pi = match self.pool_index(pool_id) {
            Some(pi) => pi,
            None => {
                return None;
            },
        };
        if self.pools[pi].1.targets.len() == 0 {
            return None;
        }
        let ghost before = self.pools@;
        let mut entry = self.pools.remove(pi);
        let picked = entry.1.pick();
        let ti = match picked {
            Some(ti) => ti,
            None => 0,  // unreachable: the pool is nonempty
        };
        let address = entry.1.targets[ti].address();
        let address = address.to_owned();
        self.pools.insert(pi, entry);
        proof {
            assert(self.pools@ =~= before.update(pi as int, self.pools@[pi as int]));
        }
        Some((address, pi, ti))
    }

    /// Lowers a held target's inflight count by one.
    fn release_target(&mut self, pi: usize, ti: usize)
        requires
            pi < old(self).pools@.len(),
            ti < old(self).pools@[pi as int].1.targets@.len(),
            old(self).pools@[pi as int].1.targets@[ti as int].inflight > 0,
        ensures
            final(self).pools@.len() == old(self).pools@.len(),
            final(self).pools@[pi as int].0 == old(self).pools@[pi as int].0,
            final(self).pools@[pi as int].1.policy == old(self).pools@[pi as int].1.policy,
            final(self).pools@[pi as int].1.health == old(self).pools@[pi as int].1.health,
            final(self).pools@[pi as int].1.cursor == old(self).pools@[pi as int].1.cursor,
            final(self).pools@[pi as int].1.targets@ == old(self).pools@[pi as int].1.targets@.update(
                ti as int,
                TargetRuntime {
                    inflight: (old(self).pools@[pi as int].1.targets@[ti as int].inflight
                        - 1) as u64,
                    ..old(self).pools@[pi as int].1.targets@[ti as int]
                },
            ),
            forall|k: int|
                0 <= k < old(self).pools@.len() && k != pi ==> #[trigger] final(self).pools@[k]
                    == old(self).pools@[k],
            final(self).listeners == old(self).listeners,
            final(self).listeners_by_port == old(self).listeners_by_port,
            final(self).tls_by_port == old(self).tls_by_port,
            final(self).routes_by_listener == old(self).routes_by_listener,
    {
        let ghost before = self.pools@;
        let mut entry = self.pools.remove(pi);
        entry.1.release(ti);
        self.pools.insert(pi, entry);
        proof {
            assert(self.pools@ =~= before.update(pi as int, self.pools@[pi as int]));
        }
    }

    /// Dispatches one request: find the listener at the arriving port, walk
    /// its routes in priority order, and draw a target from the first
    /// matching route's pool. A successful draw replaces any target the
    /// request already held, releasing the old one.
    #[verifier::loop_isolation(false)]
    pub fn upstream_peer(&mut self, port: u16, req: &HttpRequest, ctx: &mut RequestCtx) -> (r:
        RouteOutcome)
        requires
            ctx_wf(old(ctx), old(self)),
            forall|e: int|
                0 <= e < old(self).routes_by_listener@.len() ==> forall|m: int|
                    0 <= m < (#[trigger] old(self).routes_by_listener@[e]).1@.len()
                        ==> crate::matcher::rule_wf(
                        &(#[trigger] old(self).routes_by_listener@[e].1@[m]),
                    ),
        ensures
            ctx_wf(final(ctx), final(self)),
            match r {
                RouteOutcome::NoListener => {
                    &&& *final(self) == *old(self)
                    &&& *final(ctx) == *old(ctx)
                    &&& port_lookup(lbp_view(old(self).listeners_by_port@), port) is None
                },
                RouteOutcome::NoRoutes => {
                    &&& *final(self) == *old(self)
                    &&& *final(ctx) == *old(ctx)
                    &&& port_lookup(lbp_view(old(self).listeners_by_port@), port) is Some
                    &&& rbl_lookup(
                        rbl_view(old(self).routes_by_listener@),
                        port_lookup(lbp_view(old(self).listeners_by_port@), port).unwrap().id,
                    ) is None
                },
                RouteOutcome::NoUpstream => {
                    &&& *final(self) == *old(self)
                    &&& *final(ctx) == *old(ctx)
                    &&& port_lookup(lbp_view(old(self).listeners_by_port@), port) is Some
                    &&& {
                        let rules = rbl_lookup(
                            rbl_view(old(self).routes_by_listener@),
                            port_lookup(
                                lbp_view(old(self).listeners_by_port@),
                                port,
                            ).unwrap().id,
                        );
                        rules is Some && serving_from(
                            rules.unwrap(),
                            req@,
                            old(self).pools@,
                            0,
                        ) is None
                    }
                },
                RouteOutcome::Upstream { address, pool_index, target_index } => {
                    let rules = rbl_lookup(
                        rbl_view(old(self).routes_by_listener@),
                        port_lookup(lbp_view(old(self).listeners_by_port@), port).unwrap().id,
                    );
                    let chosen = serving_from(rules.unwrap(), req@, old(self).pools@, 0);
                    &&& port_lookup(lbp_view(old(self).listeners_by_port@), port) is Some
                    &&& rules is Some
                    &&& chosen is Some
                    &&& chosen.unwrap().1 == pool_index as int
                    &&& pick_spec(
                        old(self).pools@[pool_index as int].1.policy,
                        old(self).pools@[pool_index as int].1.targets@,
                        old(self).pools@[pool_index as int].1.cursor,
                    ) == Some(target_index as int)
                    &&& address@ == old(self).pools@[pool_index as int].1.targets@[target_index as int].address@
                    &&& final(ctx).current == Some((pool_index, target_index))
                },
            },
    {
        let ghost rt0 = *self;
        let lid = match self.listener_by_port(port) {
            Some(l) => l.id,
            None => {
                return RouteOutcome::NoListener;
            },
        };
        let nrules = match self.routes_for(lid) {
            Some(rules) => rules.len(),
            None => {
                return RouteOutcome::NoRoutes;
            },
        };
        let ghost rules_v = rbl_lookup(rbl_view(self.routes_by_listener@), lid).unwrap();
        let mut k: usize = 0;
        while k < nrules
            invariant
                *self == rt0,
                ctx_wf(ctx, self),
                *ctx == *old(ctx),
                rbl_lookup(rbl_view(self.routes_by_listener@), lid) == Some(rules_v),
                nrules == rules_v.len(),
                k <= nrules,
                serving_from(rules_v, req@, self.pools@, 0) == serving_from(
                    rules_v,
                    req@,
                    self.pools@,
                    k as int,
                ),
                forall|e: int|
                    0 <= e < self.routes_by_listener@.len() ==> forall|m: int|
                        0 <= m < (#[trigger] self.routes_by_listener@[e]).1@.len()
                            ==> crate::matcher::rule_wf(
                            &(#[trigger] self.routes_by_listener@[e].1@[m]),
                        ),
            decreases nrules - k,
        {
            let rules = match self.routes_for(lid) {
                Some(rules) => rules,
                None => {
                    // Unreachable: the table was present above and is unchanged.
                    return RouteOutcome::NoRoutes;
                },
            };
            proof {
                let e = choose|e: int|
                    0 <= e < self.routes_by_listener@.len() && (
                    #[trigger] self.routes_by_listener@[e]).1 == *rules;
                assert(crate::matcher::rule_wf(&self.routes_by_listener@[e].1@[k as int]));
            }
            let rule_matches = rules[k].matches(req);
            let ghost rv = rules_v[k as int];
            let pool_id = rules[k].upstream_pool_id;
            proof {
                assert(rules_view(rules@)[k as int] == rules@[k as int]@);
                assert(rv == rules@[k as int]@);
                assert(rule_matches == rule_v_matches(rv, req@));
                assert(rv.upstream_pool_id == pool_id);
            }
            if rule_matches {
                match self.pick_peer(pool_id) {
                    Some((address, pi, ti)) => {
                        // Release a previously held target before taking
                        // the new one.
                        let prev = ctx.current;
                        ctx.current = Some((pi, ti));
                        match prev {
                            Some((ppi, pti)) => {
                                proof {
                                    if ppi == pi && pti == ti {
                                        assert(self.pools@[pi as int].1.targets@[ti as int].inflight
                                            == sat_inc(
                                            rt0.pools@[pi as int].1.targets@[ti as int].inflight,
                                        ));
                                    }
                                }
                                self.release_target(ppi, pti);
                            },
                            None => {},
                        }
                        return RouteOutcome::Upstream {
                            address,
                            pool_index: pi,
                            target_index: ti,
                        };
                    },
                    None => {},
                }
            }
            proof {
                assert(serving_from(rules_v, req@, self.pools@, k as int) == serving_from(
                    rules_v,
                    req@,
                    self.pools@,
                    k + 1,
                ));
            }
            k = k + 1;
        }
        RouteOutcome::NoUpstream
    }

    /// Completes a request: the held target's inflight count drops by one,
    /// exactly once, and the context lets it go.
    pub fn logging(&mut self, ctx: &mut RequestCtx)
        requires
            ctx_wf(old(ctx), old(self)),
        ensures
            final(ctx).current is None,
            match old(ctx).current {
                Some((pi, ti)) => {
                    &&& final(self).pools@.len() == old(self).pools@.len()
                    &&& final(self).pools@[pi as int].1.targets@ == old(self).pools@[pi as int].1.targets@.update(
                        ti as int,
                        TargetRuntime {
                            inflight: (old(self).pools@[pi as int].1.targets@[ti as int].inflight - 1) as u64,
                            ..old(self).pools@[pi as int].1.targets@[ti as int]
                        },
                    )
                    &&& forall|j: int|
                        0 <= j < old(self).pools@.len() && j != pi ==> #[trigger] final(self).pools@[j] == old(self).pools@[j]
                },
                None => *final(self) == *old(self),
            },
    {
        match ctx.current {
            Some((pi, ti)) => {
                self.release_target(pi, ti);
            },
            None => {},
        }
        ctx.current = None;
    }
}

/// A pick followed by its release leaves every inflight count where it
/// began: the one increment and the one decrement cancel.
pub proof fn lemma_pick_release_balanced(
    before: Seq<TargetRuntime>,
    after_pick: Seq<TargetRuntime>,
    after_release: Seq<TargetRuntime>,
    i: int,
)
    requires
        0 <= i < before.len(),
        before[i].inflight < u64::MAX,
        after_pick == before.update(
            i,
            TargetRuntime { inflight: sat_inc(before[i].inflight), ..before[i] },
        ),
        after_release == after_pick.update(
            i,
            TargetRuntime { inflight: (after_pick[i].inflight - 1) as u64, ..after_pick[i] },
        ),
    ensures
        after_release == before,
{
    assert(after_release =~= before);
}

} // verus!
