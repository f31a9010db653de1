//! The health checker's decisions: per-pool pacing and the application of
//! probe results. The TCP probe itself runs outside the core and hands its
//! verdict back.

use vstd::prelude::*;
use crate::ids::Id;
use crate::runtime::RuntimeConfig;
use crate::selector::{PoolHealthCheck, TargetRuntime};
use vstd::string::StringExecFns;

verus! {

/// A pool's effective probe interval in seconds: its own setting, else the
/// application default, floored at one.
pub fn effective_interval_secs(h: &PoolHealthCheck, default_secs: u64) -> (r: u64)
    ensures
        r == max_u64(
            match h.interval_secs {
                Some(v) => v,
                None => default_secs,
            },
            1,
        ),
{
    let v = match h.interval_secs {
        Some(v) => v,
        None => default_secs,
    };
    if v < 1 {
        1
    } else {
        v
    }
}

/// A pool's effective probe timeout in milliseconds: its own setting, else
/// the application default, floored at fifty.
pub fn effective_timeout_ms(h: &PoolHealthCheck, default_ms: u64) -> (r: u64)
    ensures
        r == max_u64(
            match h.timeout_ms {
                Some(v) => v,
                None => default_ms,
            },
            50,
        ),
{
    let v = match h.timeout_ms {
        Some(v) => v,
        None => default_ms,
    };
    if v < 50 {
        50
    } else {
        v
    }
}

pub open spec fn max_u64(a: u64, b: u64) -> u64 {
    if a >= b {
        a
    } else {
        b
    }
}

/// Whether a pool is due for probing: never probed, or last probed at
/// least one interval ago.
pub fn probe_due(last_check: Option<u64>, now: u64, interval_secs: u64) -> (r: bool)
    ensures
        r == match last_check {
            None => true,
            Some(t) => now >= t && now - t >= interval_secs,
        },
{
    match last_check {
        None => true,
        Some(t) => now >= t && now - t >= interval_secs,
    }
}

impl RuntimeConfig {
    /// What the checker probes: each pool's id, health settings, and its
    /// targets' addresses, in pool order.
    pub fn health_pools(&self) -> (r: Vec<(Id, PoolHealthCheck, Vec<String>)>)
        ensures
            r@.len() == self.pools@.len(),
            forall|i: int|
                0 <= i < r@.len() ==> {
                    let e = #[trigger] r@[i];
                    &&& e.0 == self.pools@[i].0
                    &&& e.1.interval_secs == self.pools@[i].1.health.interval_secs
                    &&& e.1.timeout_ms == self.pools@[i].1.health.timeout_ms
                    &&& e.2@.len() == self.pools@[i].1.targets@.len()
                    &&& forall|j: int|
                        0 <= j < e.2@.len() ==> (#[trigger] e.2@[j])@
                            == self.pools@[i].1.targets@[j].address@
                },
    {
        let mut out: Vec<(Id, PoolHealthCheck, Vec<String>)> = Vec::new();
        let mut i: usize = 0;
        while i < self.pools.len()
            invariant
                i <= self.pools@.len(),
                out@.len() == i,
                forall|k: int|
                    0 <= k < i ==> {
                        let e = #[trigger] out@[k];
                        &&& e.0 == self.pools@[k].0
                        &&& e.1.interval_secs == self.pools@[k].1.health.interval_secs
                        &&& e.1.timeout_ms == self.pools@[k].1.health.timeout_ms
                        &&& e.2@.len() == self.pools@[k].1.targets@.len()
                        &&& forall|j: int|
                            0 <= j < e.2@.len() ==> (#[trigger] e.2@[j])@
                                == self.pools@[k].1.targets@[j].address@
                    },
            decreases self.pools@.len() - i,
        {
            let entry = &self.pools[i];
            let mut addresses: Vec<String> = Vec::new();
            let mut j: usize = 0;
            while j < entry.1.targets.len()
                invariant
                    entry == &self.pools@[i as int],
                    i < self.pools@.len(),
                    j <= entry.1.targets@.len(),
                    addresses@.len() == j,
                    forall|m: int|
                        0 <= m < j ==> (#[trigger] addresses@[m])@
                            == entry.1.targets@[m].address@,
                decreases entry.1.targets@.len() - j,
            {
                addresses.push(entry.1.targets[j].address.clone());
                j = j + 1;
            }
            let health = PoolHealthCheck {
                interval_secs: entry.1.health.interval_secs,
                timeout_ms: entry.1.health.timeout_ms,
            };
            out.push((entry.0, health, addresses));
            i = i + 1;
        }
        out
    }

    /// Records one probe's verdict on a target's health flag; nothing else
    /// of the runtime changes, and a flag write never rebuilds state.
    pub fn set_target_health(&mut self, pool_index: usize, target_index: usize, healthy: bool)
        requires
            pool_index < old(self).pools@.len(),
            target_index < old(self).pools@[pool_index as int].1.targets@.len(),
        ensures
            final(self).pools@.len() == old(self).pools@.len(),
            final(self).pools@[pool_index as int].0 == old(self).pools@[pool_index as int].0,
            final(self).pools@[pool_index as int].1.cursor == old(self).pools@[pool_index as int].1.cursor,
            final(self).pools@[pool_index as int].1.policy == old(self).pools@[pool_index as int].1.policy,
            final(self).pools@[pool_index as int].1.health == old(self).pools@[pool_index as int].1.health,
            final(self).pools@[pool_index as int].1.targets@ == old(self).pools@[pool_index as int].1.targets@.update(
                target_index as int,
                TargetRuntime {
                    healthy,
                    ..old(self).pools@[pool_index as int].1.targets@[target_index as int]
                },
            ),
            forall|k: int|
                0 <= k < old(self).pools@.len() && k != pool_index ==> #[trigger] final(self).pools@[k] == old(self).pools@[k],
            final(self).listeners == old(self).listeners,
            final(self).listeners_by_port == old(self).listeners_by_port,
            final(self).tls_by_port == old(self).tls_by_port,
            final(self).routes_by_listener == old(self).routes_by_listener,
    {
        let ghost before = self.pools@;
        let mut entry = self.pools.remove(pool_index);
        let ghost ts_before = entry.1.targets@;
        let mut t = entry.1.targets.remove(target_index);
        t.healthy = healthy;
        entry.1.targets.insert(target_index, t);
        proof {
            assert(entry.1.targets@ =~= ts_before.update(
                target_index as int,
                TargetRuntime { healthy, ..ts_before[target_index as int] },
            ));
        }
        self.pools.insert(pool_index, entry);
        proof {
            assert(self.pools@ =~= before.update(
                pool_index as int,
                self.pools@[pool_index as int],
            ));
        }
    }
}

} // verus!
