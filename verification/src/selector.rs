//! Upstream pools at runtime: per-target health and inflight state, and the
//! three load-balancing policies.

use vstd::prelude::*;
use crate::ids::Id;
use crate::json::Json;
use crate::text::{eq_ignore_case_spec, eq_ignore_ascii_case};

verus! {

/// The runtime state of one upstream target. Health and inflight counters
/// start fresh on every rebuild.
#[derive(Debug)]
pub struct TargetRuntime {
    pub id: Id,
    pub address: String,
    pub weight: i32,
    pub healthy: bool,
    pub inflight: u64,
}

/// A target's effective weight: at least one.
pub open spec fn weight_of(t: TargetRuntime) -> nat {
    if t.weight < 1 {
        1
    } else {
        t.weight as nat
    }
}

impl TargetRuntime {
    /// A fresh target runtime: the given health flag, no inflight requests.
    pub fn new(id: Id, address: String, weight: i32, healthy: bool) -> (r: TargetRuntime)
        ensures
            r.id == id,
            r.address == address,
            r.weight == weight,
            r.healthy == healthy,
            r.inflight == 0,
    {
        TargetRuntime { id, address, weight, healthy, inflight: 0 }
    }

    /// The effective weight, floored at one.
    pub fn weight(&self) -> (r: usize)
        ensures
            r as nat == weight_of(*self),
    {
        if self.weight < 1 {
            1
        } else {
            self.weight as usize
        }
    }

    pub fn address(&self) -> (r: &str)
        ensures
            r@ == self.address@,
    {
        self.address.as_str()
    }

    /// Flips the health flag; everything else stays.
    pub fn set_healthy(&mut self, healthy: bool)
        ensures
            *final(self) == (TargetRuntime { healthy, ..*old(self) }),
    {
        self.healthy = healthy;
    }
}

/// A pool's load-balancing policy.
#[derive(Debug, Clone, Copy, PartialEq, Eq, Structural)]
pub enum PoolPolicy {
    RoundRobin,
    Weighted,
    LeastConn,
}

/// The policy a string names, compared case-insensitively.
pub open spec fn policy_of(s: Seq<char>) -> Option<PoolPolicy> {
    if eq_ignore_case_spec(s, "round_robin"@) {
        Some(PoolPolicy::RoundRobin)
    } else if eq_ignore_case_spec(s, "weighted"@) {
        Some(PoolPolicy::Weighted)
    } else if eq_ignore_case_spec(s, "least_conn"@) {
        Some(PoolPolicy::LeastConn)
    } else {
        None
    }
}

impl PoolPolicy {
    /// Reads a policy from its name.
    pub fn from_str(value: &str) -> (r: Option<PoolPolicy>)
        ensures
            r == policy_of(value@),
    {
        if eq_ignore_ascii_case(value, "round_robin") {
            Some(PoolPolicy::RoundRobin)
        } else if eq_ignore_ascii_case(value, "weighted") {
            Some(PoolPolicy::Weighted)
        } else if eq_ignore_ascii_case(value, "least_conn") {
            Some(PoolPolicy::LeastConn)
        } else {
            None
        }
    }
}

/// A pool's health-check settings; unset fields fall back to the
/// application defaults.
#[derive(Debug, Clone)]
pub struct PoolHealthCheck {
    pub interval_secs: Option<u64>,
    pub timeout_ms: Option<u64>,
}

/// Reads an optional string field of a health-check object.
pub open spec fn hc_opt_string(j: Option<Json>) -> Option<Option<Seq<char>>> {
    crate::matchexpr::parse_opt_string(j)
}

/// Reads an optional unsigned field: absent or `null` is none, an unsigned
/// number is taken, anything else rejects.
pub open spec fn hc_opt_u64(j: Option<Json>) -> Option<Option<u64>> {
    match j {
        None => Some(None),
        Some(Json::Null) => Some(None),
        Some(Json::UInt(v)) => Some(Some(v)),
        Some(_) => None,
    }
}

/// The reading of a health-check descriptor: it must be an object whose
/// `kind` (or `type`) is `tcp` — case-insensitively, defaulting to `tcp` —
/// with optional unsigned `interval_secs` and `timeout_ms`.
pub open spec fn health_check_of(j: &Json) -> Option<PoolHealthCheck> {
    match j {
        Json::Obj(entries) => {
            let kind = hc_opt_string(crate::json::obj_lookup(entries@, "kind"@));
            let kind2 = hc_opt_string(crate::json::obj_lookup(entries@, "type"@));
            let interval = hc_opt_u64(crate::json::obj_lookup(entries@, "interval_secs"@));
            let timeout = hc_opt_u64(crate::json::obj_lookup(entries@, "timeout_ms"@));
            if kind is Some && kind2 is Some && interval is Some && timeout is Some {
                let kind_eff = if kind.unwrap() is Some {
                    kind.unwrap().unwrap()
                } else if kind2.unwrap() is Some {
                    kind2.unwrap().unwrap()
                } else {
                    "tcp"@
                };
                if eq_ignore_case_spec(kind_eff, "tcp"@) {
                    Some(
                        PoolHealthCheck {
                            interval_secs: interval.unwrap(),
                            timeout_ms: timeout.unwrap(),
                        },
                    )
                } else {
                    None
                }
            } else {
                None
            }
        },
        _ => None,
    }
}

impl PoolHealthCheck {
    /// Reads a health-check descriptor; `None` when it is malformed or not
    /// of TCP kind.
    pub fn from_json(value: &Json) -> (r: Option<PoolHealthCheck>)
        ensures
            match r {
                Some(h) => health_check_of(value) == Some(h),
                None => health_check_of(value) is None,
            },
    {
        let entries = match value.as_object() {
            Some(e) => e,
            None => {
                return None;
            },
        };
        let kind: Option<&String> = match crate::json::obj_get(entries, "kind") {
            Some(Json::Str(s)) => Some(s),
            Some(Json::Null) => None,
            Some(_) => {
                return None;
            },
            None => None,
        };
        let kind2: Option<&String> = match crate::json::obj_get(entries, "type") {
            Some(Json::Str(s)) => Some(s),
            Some(Json::Null) => None,
            Some(_) => {
                return None;
            },
            None => None,
        };
        let interval_secs: Option<u64> = match crate::json::obj_get(entries, "interval_secs") {
            Some(Json::UInt(v)) => Some(*v),
            Some(Json::Null) => None,
            Some(_) => {
                return None;
            },
            None => None,
        };
        let timeout_ms: Option<u64> = match crate::json::obj_get(entries, "timeout_ms") {
            Some(Json::UInt(v)) => Some(*v),
            Some(Json::Null) => None,
            Some(_) => {
                return None;
            },
            None => None,
        };
        let tcp_ok = match (kind, kind2) {
            (Some(k), _) => eq_ignore_ascii_case(k.as_str(), "tcp"),
            (None, Some(k)) => eq_ignore_ascii_case(k.as_str(), "tcp"),
            (None, None) => true,
        };
        if !tcp_ok {
            return None;
        }
        Some(PoolHealthCheck { interval_secs, timeout_ms })
    }
}

// ---------------------------------------------------------------------
// Selection specifications.
// ---------------------------------------------------------------------

/// The sum of all effective weights.
pub open spec fn sum_weights(ts: Seq<TargetRuntime>) -> nat
    decreases ts.len(),
{
    if ts.len() == 0 {
        0
    } else {
        sum_weights(ts.drop_last()) + weight_of(ts.last())
    }
}

/// The sum of the healthy targets' effective weights.
pub open spec fn sum_healthy_weights(ts: Seq<TargetRuntime>) -> nat
    decreases ts.len(),
{
    if ts.len() == 0 {
        0
    } else {
        sum_healthy_weights(ts.drop_last()) + if ts.last().healthy {
            weight_of(ts.last())
        } else {
            0
        }
    }
}

/// The weighted walk: starting at index `i` with `c` budget, the first
/// eligible target whose weight slice contains `c`.
pub open spec fn weighted_walk(ts: Seq<TargetRuntime>, use_all: bool, c: nat, i: nat) -> Option<
    int,
>
    decreases ts.len() - i,
{
    if i >= ts.len() {
        None
    } else {
        let elig = ts[i as int].healthy || use_all;
        if elig && c < weight_of(ts[i as int]) {
            Some(i as int)
        } else if elig {
            weighted_walk(ts, use_all, (c - weight_of(ts[i as int])) as nat, i + 1)
        } else {
            weighted_walk(ts, use_all, c, i + 1)
        }
    }
}

/// The weighted policy: draw the cursor modulo the healthy weight (all
/// weights when none is healthy — fail-open) and walk the weight slices;
/// an exhausted walk falls back to the first target.
pub open spec fn weighted_pick_spec(ts: Seq<TargetRuntime>, cursor: u64) -> Option<int> {
    if ts.len() == 0 || sum_weights(ts) == 0 {
        None
    } else {
        let th = sum_healthy_weights(ts);
        let use_all = th == 0;
        let total = if use_all {
            sum_weights(ts)
        } else {
            th
        };
        let c = (cursor as nat) % total;
        match weighted_walk(ts, use_all, c, 0) {
            Some(i) => Some(i),
            None => Some(0),
        }
    }
}

/// The round-robin walk: the first healthy target at or after `start`,
/// scanning cyclically.
pub open spec fn rr_walk(ts: Seq<TargetRuntime>, start: nat, o: nat) -> Option<int>
    decreases ts.len() - o,
{
    if o >= ts.len() {
        None
    } else if ts[((start + o) % ts.len()) as int].healthy {
        Some(((start + o) % ts.len()) as int)
    } else {
        rr_walk(ts, start, o + 1)
    }
}

/// The round-robin policy: the first healthy target from the cursor on,
/// falling back to the cursor position itself when none is healthy.
pub open spec fn rr_pick_spec(ts: Seq<TargetRuntime>, cursor: u64) -> Option<int> {
    if ts.len() == 0 {
        None
    } else {
        let start = (cursor as nat) % ts.len();
        match rr_walk(ts, start, 0) {
            Some(i) => Some(i),
            None => Some(start as int),
        }
    }
}

/// The least inflight count among healthy targets, if any is healthy.
pub open spec fn min_inflight_healthy(ts: Seq<TargetRuntime>) -> Option<nat>
    decreases ts.len(),
{
    if ts.len() == 0 {
        None
    } else {
        let rest = min_inflight_healthy(ts.drop_last());
        if ts.last().healthy {
            match rest {
                Some(m) => if ts.last().inflight < m {
                    Some(ts.last().inflight as nat)
                } else {
                    Some(m)
                },
                None => Some(ts.last().inflight as nat),
            }
        } else {
            rest
        }
    }
}

/// The least inflight count among all targets.
pub open spec fn min_inflight_all(ts: Seq<TargetRuntime>) -> Option<nat>
    decreases ts.len(),
{
    if ts.len() == 0 {
        None
    } else {
        let rest = min_inflight_all(ts.drop_last());
        match rest {
            Some(m) => if ts.last().inflight < m {
                Some(ts.last().inflight as nat)
            } else {
                Some(m)
            },
            None => Some(ts.last().inflight as nat),
        }
    }
}

/// The least-connections walk: the first eligible target from `start` on
/// whose inflight count equals the minimum.
pub open spec fn lc_walk(
    ts: Seq<TargetRuntime>,
    use_all: bool,
    min: nat,
    start: nat,
    o: nat,
) -> Option<int>
    decreases ts.len() - o,
{
    if o >= ts.len() {
        None
    } else {
        let idx = ((start + o) % ts.len()) as int;
        if (use_all || ts[idx].healthy) && ts[idx].inflight == min {
            Some(idx)
        } else {
            lc_walk(ts, use_all, min, start, o + 1)
        }
    }
}

/// The least-connections policy: the minimum inflight among healthy targets
/// (among all, when none is healthy — fail-open), scanned from the cursor;
/// an exhausted scan falls back to the cursor position.
pub open spec fn lc_pick_spec(ts: Seq<TargetRuntime>, cursor: u64) -> Option<int> {
    if ts.len() == 0 {
        None
    } else {
        let mh = min_inflight_healthy(ts);
        let use_all = mh is None;
        let min = if use_all {
            min_inflight_all(ts).unwrap()
        } else {
            mh.unwrap()
        };
        let start = (cursor as nat) % ts.len();
        match lc_walk(ts, use_all, min, start, 0) {
            Some(i) => Some(i),
            None => Some(start as int),
        }
    }
}

/// What one policy selects from the pool's state.
pub open spec fn pick_spec(policy: PoolPolicy, ts: Seq<TargetRuntime>, cursor: u64) -> Option<
    int,
> {
    match policy {
        PoolPolicy::RoundRobin => rr_pick_spec(ts, cursor),
        PoolPolicy::Weighted => weighted_pick_spec(ts, cursor),
        PoolPolicy::LeastConn => lc_pick_spec(ts, cursor),
    }
}

/// The cursor after a draw: one more, wrapping at the top.
pub open spec fn wrap_inc(c: u64) -> u64 {
    if c == u64::MAX {
        0
    } else {
        (c + 1) as u64
    }
}

/// An inflight counter after one more request: one more, saturating at the
/// top.
pub open spec fn sat_inc(c: u64) -> u64 {
    if c == u64::MAX {
        c
    } else {
        (c + 1) as u64
    }
}

/// One upstream pool at runtime.
#[derive(Debug)]
pub struct PoolRuntime {
    pub targets: Vec<TargetRuntime>,
    pub cursor: u64,
    pub policy: PoolPolicy,
    pub health: PoolHealthCheck,
}

/// The pool's state after a successful pick of index `i`: the cursor
/// advanced, the picked target's inflight one higher.
pub open spec fn picked_state(old_p: PoolRuntime, new_p: PoolRuntime, r: Option<usize>) -> bool {
    &&& new_p.policy == old_p.policy
    &&& new_p.health == old_p.health
    &&& new_p.cursor == wrap_inc(old_p.cursor)
    &&& match r {
        Some(i) => {
            &&& 0 <= i < old_p.targets@.len()
            &&& new_p.targets@ == old_p.targets@.update(
                i as int,
                TargetRuntime {
                    inflight: sat_inc(old_p.targets@[i as int].inflight),
                    ..old_p.targets@[i as int]
                },
            )
        },
        None => new_p.targets@ == old_p.targets@,
    }
}

impl PoolRuntime {
    /// Draws a target under the pool's policy, advancing the cursor and
    /// counting the pick on the target's inflight gauge. A nonempty pool
    /// always yields a target: every policy fails open.
    pub fn pick(&mut self) -> (r: Option<usize>)
        ensures
            match r {
                Some(i) => pick_spec(old(self).policy, old(self).targets@, old(self).cursor)
                    == Some(i as int),
                None => pick_spec(old(self).policy, old(self).targets@, old(self).cursor)
                    is None,
            },
            picked_state(*old(self), *final(self), r),
            old(self).targets@.len() > 0 ==> r is Some,
    {
        let r = match self.policy {
            PoolPolicy::RoundRobin => self.choose_round_robin(),
            PoolPolicy::Weighted => self.choose_weighted(),
            PoolPolicy::LeastConn => self.choose_least_conn(),
        };
        self.cursor = if self.cursor == u64::MAX {
            0
        } else {
            self.cursor + 1
        };
        match r {
            Some(i) => {
                let ghost before = self.targets@;
                let mut t = self.targets.remove(i);
                t.inflight = if t.inflight == u64::MAX {
                    t.inflight
                } else {
                    t.inflight + 1
                };
                self.targets.insert(i, t);
                proof {
                    assert(self.targets@ =~= before.update(
                        i as int,
                        TargetRuntime {
                            inflight: sat_inc(before[i as int].inflight),
                            ..before[i as int]
                        },
                    ));
                }
                Some(i)
            },
            None => None,
        }
    }

    /// Round-robin: the first healthy target from the cursor position on;
    /// when none is healthy, the cursor position itself.
    fn choose_round_robin(&self) -> (r: Option<usize>)
        ensures
            match r {
                Some(i) => rr_pick_spec(self.targets@, self.cursor) == Some(i as int),
                None => rr_pick_spec(self.targets@, self.cursor) is None,
            },
            r is Some ==> r.unwrap() < self.targets@.len(),
            self.targets@.len() > 0 ==> r is Some,
    {
        let n = self.targets.len();
        if n == 0 {
            return None;
        }
        let start: usize = (self.cursor % (n as u64)) as usize;
        proof {
            assert(start == (self.cursor as nat) % (n as nat));
        }
        let mut o: usize = 0;
        while o < n
            invariant
                n == self.targets@.len(),
                0 < n,
                start == (self.cursor as nat) % (n as nat),
                start < n,
                o <= n,
                rr_walk(self.targets@, start as nat, 0) == rr_walk(
                    self.targets@,
                    start as nat,
                    o as nat,
                ),
            decreases n - o,
        {
            let idx = if o >= n - start {
                o - (n - start)
            } else {
                start + o
            };
            proof {
                lemma_cyclic_index(start as nat, o as nat, n as nat);
                assert(idx as int == ((start + o) as int) % (n as int));
            }
            if self.targets[idx].healthy {
                return Some(idx);
            }
            o = o + 1;
        }
        Some(start)
    }

    /// Weighted: walk the weight slices under the drawn cursor; healthy
    /// targets only, all targets when none is healthy.
    #[verifier::loop_isolation(false)]
    fn choose_weighted(&self) -> (r: Option<usize>)
        ensures
            match r {
                Some(i) => weighted_pick_spec(self.targets@, self.cursor) == Some(i as int),
                None => weighted_pick_spec(self.targets@, self.cursor) is None,
            },
            r is Some ==> r.unwrap() < self.targets@.len(),
            self.targets@.len() > 0 ==> r is Some,
    {
        let ghost ts = self.targets@;
        let n = self.targets.len();
        if n == 0 {
            return None;
        }
        let total_all: u128 = self.sum_all_weights();
        proof {
            lemma_sum_weights_positive(ts);
        }
        let total_healthy: u128 = self.sum_healthy();
        let use_all = total_healthy == 0;
        let total: u128 = if use_all {
            total_all
        } else {
            total_healthy
        };
        let mut c: u128 = (self.cursor as u128) % total;
        let mut i: usize = 0;
        while i < n
            invariant
                weighted_walk(ts, use_all, (self.cursor as nat % (if use_all {
                    sum_weights(ts)
                } else {
                    sum_healthy_weights(ts)
                })), 0) == weighted_walk(ts, use_all, c as nat, i as nat),
            decreases n - i,
        {
            let w: u128 = self.targets[i].weight() as u128;
            proof {
                assert(w == weight_of(ts[i as int]));
            }
            let elig = self.targets[i].healthy || use_all;
            if elig {
                if c < w {
                    return Some(i);
                }
                c = c - w;
            }
            i = i + 1;
        }
        Some(0)
    }

    /// The sum of all effective weights, as a wide integer.
    fn sum_all_weights(&self) -> (r: u128)
        ensures
            r == sum_weights(self.targets@),
    {
        let ghost ts = self.targets@;
        let mut acc: u128 = 0;
        let mut i: usize = 0;
        while i < self.targets.len()
            invariant
                ts == self.targets@,
                i <= ts.len(),
                acc == sum_weights(ts.take(i as int)),
                acc <= i * 0x8000_0000,
            decreases ts.len() - i,
        {
            proof {
                assert(ts.take(i + 1).drop_last() =~= ts.take(i as int));
                assert(ts.take(i + 1).last() == ts[i as int]);
            }
            acc = acc + self.targets[i].weight() as u128;
            i = i + 1;
        }
        proof {
            assert(ts.take(ts.len() as int) =~= ts);
        }
        acc
    }

    /// The sum of the healthy targets' effective weights.
    fn sum_healthy(&self) -> (r: u128)
        ensures
            r == sum_healthy_weights(self.targets@),
    {
        let ghost ts = self.targets@;
        let mut acc: u128 = 0;
        let mut i: usize = 0;
        while i < self.targets.len()
            invariant
                ts == self.targets@,
                i <= ts.len(),
                acc == sum_healthy_weights(ts.take(i as int)),
                acc <= i * 0x8000_0000,
            decreases ts.len() - i,
        {
            proof {
                assert(ts.take(i + 1).drop_last() =~= ts.take(i as int));
                assert(ts.take(i + 1).last() == ts[i as int]);
            }
            if self.targets[i].healthy {
                acc = acc + self.targets[i].weight() as u128;
            }
            i = i + 1;
        }
        proof {
            assert(ts.take(ts.len() as int) =~= ts);
        }
        acc
    }

    /// Least-connections: the first target from the cursor on whose
    /// inflight count is minimal; healthy targets only, all when none is.
    #[verifier::loop_isolation(false)]
    fn choose_least_conn(&self) -> (r: Option<usize>)
        ensures
            match r {
                Some(i) => lc_pick_spec(self.targets@, self.cursor) == Some(i as int),
                None => lc_pick_spec(self.targets@, self.cursor) is None,
            },
            r is Some ==> r.unwrap() < self.targets@.len(),
            self.targets@.len() > 0 ==> r is Some,
    {
        let ghost ts = self.targets@;
        let n = self.targets.len();
        if n == 0 {
            return None;
        }
        let min_healthy = self.min_healthy_inflight();
        let (use_all, min) = match min_healthy {
            Some(m) => (false, m),
            None => (true, self.min_all_inflight()),
        };
        let start: usize = (self.cursor % (n as u64)) as usize;
        proof {
            assert(start == (self.cursor as nat) % (n as nat));
        }
        let mut o: usize = 0;
        while o < n
            invariant
                o <= n,
                start < n,
                lc_walk(ts, use_all, min as nat, start as nat, 0) == lc_walk(
                    ts,
                    use_all,
                    min as nat,
                    start as nat,
                    o as nat,
                ),
            decreases n - o,
        {
            let idx = if o >= n - start {
                o - (n - start)
            } else {
                start + o
            };
            proof {
                lemma_cyclic_index(start as nat, o as nat, n as nat);
                assert(idx as int == ((start + o) as int) % (n as int));
            }
            let t = &self.targets[idx];
            if (use_all || t.healthy) && t.inflight == min {
                return Some(idx);
            }
            o = o + 1;
        }
        Some(start)
    }

    /// The least inflight count among healthy targets.
    fn min_healthy_inflight(&self) -> (r: Option<u64>)
        ensures
            match r {
                Some(m) => min_inflight_healthy(self.targets@) == Some(m as nat),
                None => min_inflight_healthy(self.targets@) is None,
            },
    {
        let ghost ts = self.targets@;
        let mut best: Option<u64> = None;
        let mut i: usize = 0;
        while i < self.targets.len()
            invariant
                ts == self.targets@,
                i <= ts.len(),
                match best {
                    Some(m) => min_inflight_healthy(ts.take(i as int)) == Some(m as nat),
                    None => min_inflight_healthy(ts.take(i as int)) is None,
                },
            decreases ts.len() - i,
        {
            proof {
                assert(ts.take(i + 1).drop_last() =~= ts.take(i as int));
                assert(ts.take(i + 1).last() == ts[i as int]);
            }
            let t = &self.targets[i];
            if t.healthy {
                best = match best {
                    Some(m) => if t.inflight < m {
                        Some(t.inflight)
                    } else {
                        Some(m)
                    },
                    None => Some(t.inflight),
                };
            }
            i = i + 1;
        }
        proof {
            assert(ts.take(ts.len() as int) =~= ts);
        }
        best
    }

    /// The least inflight count among all targets.
    fn min_all_inflight(&self) -> (r: u64)
        requires
            self.targets@.len() > 0,
        ensures
            min_inflight_all(self.targets@) == Some(r as nat),
    {
        let ghost ts = self.targets@;
        let mut best: u64 = self.targets[0].inflight;
        proof {
            assert(ts.take(1).drop_last() =~= Seq::<TargetRuntime>::empty());
            assert(min_inflight_all(ts.take(1).drop_last()) is None);
            assert(ts.take(1).last() == ts[0]);
        }
        let mut i: usize = 1;
        while i < self.targets.len()
            invariant
                ts == self.targets@,
                1 <= i <= ts.len(),
                min_inflight_all(ts.take(i as int)) == Some(best as nat),
            decreases ts.len() - i,
        {
            proof {
                assert(ts.take(i + 1).drop_last() =~= ts.take(i as int));
                assert(ts.take(i + 1).last() == ts[i as int]);
            }
            let t = &self.targets[i];
            if t.inflight < best {
                best = t.inflight;
            }
            i = i + 1;
        }
        proof {
            assert(ts.take(ts.len() as int) =~= ts);
        }
        best
    }

    /// Releases one pick of target `i`: its inflight count drops by one.
    pub fn release(&mut self, i: usize)
        requires
            i < old(self).targets@.len(),
            old(self).targets@[i as int].inflight > 0,
        ensures
            final(self).policy == old(self).policy,
            final(self).health == old(self).health,
            final(self).cursor == old(self).cursor,
            final(self).targets@ == old(self).targets@.update(
                i as int,
                TargetRuntime {
                    inflight: (old(self).targets@[i as int].inflight - 1) as u64,
                    ..old(self).targets@[i as int]
                },
            ),
    {
        let ghost before = self.targets@;
        let mut t = self.targets.remove(i);
        t.inflight = t.inflight - 1;
        self.targets.insert(i, t);
        proof {
            assert(self.targets@ =~= before.update(
                i as int,
                TargetRuntime {
                    inflight: (before[i as int].inflight - 1) as u64,
                    ..before[i as int]
                },
            ));
        }
    }
}

/// A pool's weight sum dominates its healthy weight sum and is positive
/// whenever the pool is nonempty.
pub proof fn lemma_sum_weights_positive(ts: Seq<TargetRuntime>)
    ensures
        ts.len() > 0 ==> sum_weights(ts) >= 1,
        sum_weights(ts) >= sum_healthy_weights(ts),
    decreases ts.len(),
{
    if ts.len() > 0 {
        lemma_sum_weights_positive(ts.drop_last());
    }
}

/// In an all-healthy pool, the round-robin draw for cursor `c` is exactly
/// position `c % n`.
pub proof fn lemma_rr_all_healthy(ts: Seq<TargetRuntime>, cursor: u64)
    requires
        ts.len() > 0,
        forall|k: int| 0 <= k < ts.len() ==> (#[trigger] ts[k]).healthy,
    ensures
        rr_pick_spec(ts, cursor) == Some(((cursor as nat) % ts.len()) as int),
{
    let start = (cursor as nat) % ts.len();
    vstd::arithmetic::div_mod::lemma_mod_bound(cursor as int, ts.len() as int);
    vstd::arithmetic::div_mod::lemma_small_mod(start, ts.len());
    assert(((start + 0) % ts.len()) as int == start as int);
    assert(ts[start as int].healthy);
    assert(rr_walk(ts, start, 0) == Some(start as int));
}

/// How many of the first `total` cursors land on position `i`.
pub open spec fn rr_hits(n: nat, total: nat, i: nat) -> nat
    decreases total,
{
    if total == 0 {
        0
    } else {
        rr_hits(n, (total - 1) as nat, i) + if (total - 1) as nat % n == i {
            1nat
        } else {
            0
        }
    }
}

/// Over `total` consecutive cursors, position `i` of `n` is drawn
/// `total / n` times, plus once more exactly when `i < total % n`.
pub proof fn lemma_rr_hits_formula(n: nat, total: nat, i: nat)
    requires
        0 < n,
        i < n,
    ensures
        rr_hits(n, total, i) == total / n + if i < total % n {
            1nat
        } else {
            0
        },
    decreases total,
{
    if total == 0 {
        vstd::arithmetic::div_mod::lemma_small_mod(0, n);
        vstd::arithmetic::div_mod::lemma_small_div_converse(0, n as int);
    } else {
        lemma_rr_hits_formula(n, (total - 1) as nat, i);
        let q = (total - 1) as nat / n;
        let r = (total - 1) as nat % n;
        vstd::arithmetic::div_mod::lemma_fundamental_div_mod((total - 1) as int, n as int);
        if r + 1 < n {
            assert(total as int == q as int * n as int + (r + 1) as int) by (nonlinear_arith)
                requires
                    total as int == n as int * q as int + r as int + 1,
            ;
            vstd::arithmetic::div_mod::lemma_fundamental_div_mod_converse(
                total as int,
                n as int,
                q as int,
                (r + 1) as int,
            );
        } else {
            assert(total as int == (q + 1) as int * n as int) by (nonlinear_arith)
                requires
                    total as int == n as int * q as int + r as int + 1,
                    r as int == n as int - 1,
            ;
            vstd::arithmetic::div_mod::lemma_fundamental_div_mod_converse(
                total as int,
                n as int,
                (q + 1) as int,
                0,
            );
        }
    }
}

/// Round-robin fairness: over `total` consecutive draws from an all-healthy
/// pool of `n` targets, every position is drawn either `total / n` or
/// `total / n + 1` times — the floor or the ceiling of the average.
pub proof fn lemma_round_robin_fair(n: nat, total: nat, i: nat)
    requires
        0 < n,
        i < n,
    ensures
        rr_hits(n, total, i) == total / n || rr_hits(n, total, i) == total / n + 1,
{
    lemma_rr_hits_formula(n, total, i);
}

/// A cyclic scan index: `(start + o) % n` written without division.
pub proof fn lemma_cyclic_index(start: nat, o: nat, n: nat)
    requires
        0 < n,
        start < n,
        o < n,
    ensures
        (start + o) % n == if start + o < n {
            (start + o) as int
        } else {
            (start + o - n) as int
        },
{
    if start + o < n {
        vstd::arithmetic::div_mod::lemma_small_mod(start + o, n);
    } else {
        let b = (start + o - n) as int;
        vstd::arithmetic::div_mod::lemma_mod_add_multiples_vanish(b, n as int);
        vstd::arithmetic::div_mod::lemma_small_mod((start + o - n) as nat, n);
    }
}

} // verus!
