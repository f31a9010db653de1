//! The gateway's metrics, modelled as plain counters: the inflight request
//! gauge, request counts by method and status, upstream error counts, the
//! audit-write failure count, and per-target health gauges.

use vstd::prelude::*;

verus! {

/// The counters the gateway maintains. Exposition is the embedding
/// application's concern; the core only counts.
pub struct MetricsState {
    pub inflight_requests: u64,
    pub requests_total: Vec<((String, u64), u64)>,
    pub upstream_errors_total: Vec<(String, u64)>,
    pub audit_write_failures_total: u64,
    pub target_health: Vec<((String, String), bool)>,
}

impl MetricsState {
    /// All counters at zero.
    pub fn new() -> (r: MetricsState)
        ensures
            r.inflight_requests == 0,
            r.requests_total@.len() == 0,
            r.upstream_errors_total@.len() == 0,
            r.audit_write_failures_total == 0,
            r.target_health@.len() == 0,
    {
        MetricsState {
            inflight_requests: 0,
            requests_total: Vec::new(),
            upstream_errors_total: Vec::new(),
            audit_write_failures_total: 0,
            target_health: Vec::new(),
        }
    }
}

/// Counts a request in: the inflight gauge rises by one.
pub fn inflight_inc(m: &mut MetricsState)
    requires
        old(m).inflight_requests < u64::MAX,
    ensures
        final(m).inflight_requests == old(m).inflight_requests + 1,
        final(m).requests_total == old(m).requests_total,
        final(m).upstream_errors_total == old(m).upstream_errors_total,
        final(m).audit_write_failures_total == old(m).audit_write_failures_total,
        final(m).target_health == old(m).target_health,
{
    m.inflight_requests = m.inflight_requests + 1;
}

/// Counts a request out: the inflight gauge drops by one.
pub fn inflight_dec(m: &mut MetricsState)
    requires
        old(m).inflight_requests > 0,
    ensures
        final(m).inflight_requests == old(m).inflight_requests - 1,
        final(m).requests_total == old(m).requests_total,
        final(m).upstream_errors_total == old(m).upstream_errors_total,
        final(m).audit_write_failures_total == old(m).audit_write_failures_total,
        final(m).target_health == old(m).target_health,
{
    m.inflight_requests = m.inflight_requests - 1;
}

/// The count recorded under a (method, status) label pair.
pub open spec fn request_count(
    rs: Seq<((Seq<char>, u64), u64)>,
    method: Seq<char>,
    status: u64,
) -> u64
    decreases rs.len(),
{
    if rs.len() == 0 {
        0
    } else if rs[0].0.0 == method && rs[0].0.1 == status {
        rs[0].1
    } else {
        request_count(rs.drop_first(), method, status)
    }
}

pub open spec fn requests_view(rs: Seq<((String, u64), u64)>) -> Seq<((Seq<char>, u64), u64)> {
    rs.map_values(|e: ((String, u64), u64)| ((e.0.0@, e.0.1), e.1))
}

/// Counts one finished request under its method and status; the count for
/// that label pair rises by one (saturating) and every other label keeps
/// its count.
pub fn observe_request(m: &mut MetricsState, method: &str, status: u16)
    ensures
        request_count(requests_view(final(m).requests_total@), method@, status as u64)
            == crate::selector::sat_inc(
            request_count(requests_view(old(m).requests_total@), method@, status as u64),
        ),
        final(m).inflight_requests == old(m).inflight_requests,
        final(m).upstream_errors_total == old(m).upstream_errors_total,
        final(m).audit_write_failures_total == old(m).audit_write_failures_total,
        final(m).target_health == old(m).target_health,
{
    let ghost rs = requests_view(m.requests_total@);
    let mut i: usize = 0;
    proof {
        assert(rs.skip(0) =~= rs);
    }
    while i < m.requests_total.len()
        invariant
            *m == *old(m),
            rs == requests_view(m.requests_total@),
            i <= m.requests_total@.len(),
            rs.len() == m.requests_total@.len(),
            request_count(rs, method@, status as u64) == request_count(
                rs.skip(i as int),
                method@,
                status as u64,
            ),
            forall|k: int|
                0 <= k < i ==> !((#[trigger] rs[k]).0.0 == method@ && rs[k].0.1 == status as u64),
        decreases m.requests_total@.len() - i,
    {
        proof {
            assert(rs.skip(i as int)[0] == rs[i as int]);
            assert(rs.skip(i as int).drop_first() =~= rs.skip(i + 1));
        }
        if m.requests_total[i].0.1 == status as u64 && crate::text::str_eq(
            m.requests_total[i].0.0.as_str(),
            method,
        ) {
            let ghost before = m.requests_total@;
            let mut entry = m.requests_total.remove(i);
            entry.1 = if entry.1 == u64::MAX {
                entry.1
            } else {
                entry.1 + 1
            };
            m.requests_total.insert(i, entry);
            proof {
                assert(requests_view(m.requests_total@) =~~= requests_view(before).update(
                    i as int,
                    (
                        requests_view(before)[i as int].0,
                        crate::selector::sat_inc(requests_view(before)[i as int].1),
                    ),
                ));
                lemma_request_count_update(
                    requests_view(before),
                    requests_view(m.requests_total@),
                    i as int,
                    method@,
                    status as u64,
                );
            }
            return ;
        }
        i = i + 1;
    }
    proof {
        assert(rs.skip(rs.len() as int) =~= Seq::<((Seq<char>, u64), u64)>::empty());
    }
    let ghost before = m.requests_total@;
    m.requests_total.push(((method.to_owned(), status as u64), 1));
    proof {
        lemma_request_count_push(requests_view(before), method@, status as u64);
        assert(requests_view(m.requests_total@) =~~= requests_view(before).push(
            ((method@, status as u64), 1u64),
        ));
    }
}

/// Updating one entry's count changes only its own label's count.
proof fn lemma_request_count_update(
    old_rs: Seq<((Seq<char>, u64), u64)>,
    new_rs: Seq<((Seq<char>, u64), u64)>,
    i: int,
    method: Seq<char>,
    status: u64,
)
    requires
        0 <= i < old_rs.len(),
        new_rs == old_rs.update(i, (old_rs[i].0, crate::selector::sat_inc(old_rs[i].1))),
        old_rs[i].0.0 == method && old_rs[i].0.1 == status,
        forall|k: int| 0 <= k < i ==> !((#[trigger] old_rs[k]).0.0 == method && old_rs[k].0.1
            == status),
    ensures
        request_count(new_rs, method, status) == crate::selector::sat_inc(
            request_count(old_rs, method, status),
        ),
    decreases i,
{
    if i == 0 {
        assert(new_rs[0] == (old_rs[0].0, crate::selector::sat_inc(old_rs[0].1)));
    } else {
        assert(new_rs[0] == old_rs[0]);
        assert(new_rs.drop_first() =~= old_rs.drop_first().update(
            i - 1,
            (old_rs[i].0, crate::selector::sat_inc(old_rs[i].1)),
        ));
        assert forall|k: int|
            0 <= k < i - 1 implies !((#[trigger] old_rs.drop_first()[k]).0.0 == method
            && old_rs.drop_first()[k].0.1 == status) by {
            assert(old_rs.drop_first()[k] == old_rs[k + 1]);
        }
        lemma_request_count_update(
            old_rs.drop_first(),
            new_rs.drop_first(),
            i - 1,
            method,
            status,
        );
    }
}

/// A label absent from every entry counts zero; pushing it starts it at one.
proof fn lemma_request_count_push(rs: Seq<((Seq<char>, u64), u64)>, method: Seq<char>, status: u64)
    requires
        forall|k: int| 0 <= k < rs.len() ==> !((#[trigger] rs[k]).0.0 == method && rs[k].0.1
            == status),
    ensures
        request_count(rs.push(((method, status), 1u64)), method, status) == 1,
        request_count(rs, method, status) == 0,
    decreases rs.len(),
{
    if rs.len() == 0 {
        assert(rs.push(((method, status), 1u64))[0] == ((method, status), 1u64));
    } else {
        assert(rs.push(((method, status), 1u64))[0] == rs[0]);
        assert(rs.push(((method, status), 1u64)).drop_first() =~= rs.drop_first().push(
            ((method, status), 1u64),
        ));
        assert forall|k: int|
            0 <= k < rs.drop_first().len() implies !((#[trigger] rs.drop_first()[k]).0.0 == method
            && rs.drop_first()[k].0.1 == status) by {
            assert(rs.drop_first()[k] == rs[k + 1]);
        }
        lemma_request_count_push(rs.drop_first(), method, status);
    }
}

/// Counts one upstream error under its reason.
pub fn inc_upstream_error(m: &mut MetricsState, reason: &str)
    ensures
        final(m).inflight_requests == old(m).inflight_requests,
        final(m).requests_total == old(m).requests_total,
        final(m).audit_write_failures_total == old(m).audit_write_failures_total,
        final(m).target_health == old(m).target_health,
        error_count(errors_view(final(m).upstream_errors_total@), reason@)
            == crate::selector::sat_inc(
            error_count(errors_view(old(m).upstream_errors_total@), reason@),
        ),
{
    let ghost rs = errors_view(m.upstream_errors_total@);
    let mut i: usize = 0;
    proof {
        assert(rs.skip(0) =~= rs);
    }
    while i < m.upstream_errors_total.len()
        invariant
            *m == *old(m),
            rs == errors_view(m.upstream_errors_total@),
            i <= m.upstream_errors_total@.len(),
            rs.len() == m.upstream_errors_total@.len(),
            error_count(rs, reason@) == error_count(rs.skip(i as int), reason@),
            forall|k: int| 0 <= k < i ==> (#[trigger] rs[k]).0 != reason@,
        decreases m.upstream_errors_total@.len() - i,
    {
        proof {
            assert(rs.skip(i as int)[0] == rs[i as int]);
            assert(rs.skip(i as int).drop_first() =~= rs.skip(i + 1));
        }
        if crate::text::str_eq(m.upstream_errors_total[i].0.as_str(), reason) {
            let ghost before = m.upstream_errors_total@;
            let mut entry = m.upstream_errors_total.remove(i);
            entry.1 = if entry.1 == u64::MAX {
                entry.1
            } else {
                entry.1 + 1
            };
            m.upstream_errors_total.insert(i, entry);
            proof {
                assert(errors_view(m.upstream_errors_total@) =~~= errors_view(before).update(
                    i as int,
                    (
                        errors_view(before)[i as int].0,
                        crate::selector::sat_inc(errors_view(before)[i as int].1),
                    ),
                ));
                lemma_error_count_update(
                    errors_view(before),
                    errors_view(m.upstream_errors_total@),
                    i as int,
                    reason@,
                );
            }
            return ;
        }
        i = i + 1;
    }
    proof {
        assert(rs.skip(rs.len() as int) =~= Seq::<(Seq<char>, u64)>::empty());
    }
    let ghost before = m.upstream_errors_total@;
    m.upstream_errors_total.push((reason.to_owned(), 1));
    proof {
        lemma_error_count_push(errors_view(before), reason@);
        assert(errors_view(m.upstream_errors_total@) =~~= errors_view(before).push(
            (reason@, 1u64),
        ));
    }
}

pub open spec fn errors_view(rs: Seq<(String, u64)>) -> Seq<(Seq<char>, u64)> {
    rs.map_values(|e: (String, u64)| (e.0@, e.1))
}

/// The count recorded under one reason.
pub open spec fn error_count(rs: Seq<(Seq<char>, u64)>, reason: Seq<char>) -> u64
    decreases rs.len(),
{
    if rs.len() == 0 {
        0
    } else if rs[0].0 == reason {
        rs[0].1
    } else {
        error_count(rs.drop_first(), reason)
    }
}

proof fn lemma_error_count_update(
    old_rs: Seq<(Seq<char>, u64)>,
    new_rs: Seq<(Seq<char>, u64)>,
    i: int,
    reason: Seq<char>,
)
    requires
        0 <= i < old_rs.len(),
        new_rs == old_rs.update(i, (old_rs[i].0, crate::selector::sat_inc(old_rs[i].1))),
        old_rs[i].0 == reason,
        forall|k: int| 0 <= k < i ==> (#[trigger] old_rs[k]).0 != reason,
    ensures
        error_count(new_rs, reason) == crate::selector::sat_inc(error_count(old_rs, reason)),
    decreases i,
{
    if i == 0 {
        assert(new_rs[0] == (old_rs[0].0, crate::selector::sat_inc(old_rs[0].1)));
    } else {
        assert(new_rs[0] == old_rs[0]);
        assert(new_rs.drop_first() =~= old_rs.drop_first().update(
            i - 1,
            (old_rs[i].0, crate::selector::sat_inc(old_rs[i].1)),
        ));
        assert forall|k: int|
            0 <= k < i - 1 implies (#[trigger] old_rs.drop_first()[k]).0 != reason by {
            assert(old_rs.drop_first()[k] == old_rs[k + 1]);
        }
        lemma_error_count_update(old_rs.drop_first(), new_rs.drop_first(), i - 1, reason);
    }
}

proof fn lemma_error_count_push(rs: Seq<(Seq<char>, u64)>, reason: Seq<char>)
    requires
        forall|k: int| 0 <= k < rs.len() ==> (#[trigger] rs[k]).0 != reason,
    ensures
        error_count(rs.push((reason, 1u64)), reason) == 1,
        error_count(rs, reason) == 0,
    decreases rs.len(),
{
    if rs.len() == 0 {
        assert(rs.push((reason, 1u64))[0] == (reason, 1u64));
    } else {
        assert(rs.push((reason, 1u64))[0] == rs[0]);
        assert(rs.push((reason, 1u64)).drop_first() =~= rs.drop_first().push((reason, 1u64)));
        assert forall|k: int|
            0 <= k < rs.drop_first().len() implies (#[trigger] rs.drop_first()[k]).0 != reason by {
            assert(rs.drop_first()[k] == rs[k + 1]);
        }
        lemma_error_count_push(rs.drop_first(), reason);
    }
}

/// Counts one audit-log write failure; the failure never fails the
/// operation it describes.
pub fn inc_audit_write_failure(m: &mut MetricsState)
    ensures
        final(m).audit_write_failures_total == crate::selector::sat_inc(
            old(m).audit_write_failures_total,
        ),
        final(m).inflight_requests == old(m).inflight_requests,
        final(m).requests_total == old(m).requests_total,
        final(m).upstream_errors_total == old(m).upstream_errors_total,
        final(m).target_health == old(m).target_health,
{
    m.audit_write_failures_total = if m.audit_write_failures_total == u64::MAX {
        m.audit_write_failures_total
    } else {
        m.audit_write_failures_total + 1
    };
}

pub open spec fn health_view(rs: Seq<((String, String), bool)>) -> Seq<(
    (Seq<char>, Seq<char>),
    bool,
)> {
    rs.map_values(|e: ((String, String), bool)| ((e.0.0@, e.0.1@), e.1))
}

/// The recorded health of one (pool, address) label pair.
pub open spec fn health_of(
    rs: Seq<((Seq<char>, Seq<char>), bool)>,
    pool: Seq<char>,
    address: Seq<char>,
) -> Option<bool>
    decreases rs.len(),
{
    if rs.len() == 0 {
        None
    } else if rs[0].0.0 == pool && rs[0].0.1 == address {
        Some(rs[0].1)
    } else {
        health_of(rs.drop_first(), pool, address)
    }
}

/// Records a target's health under its (pool, address) label.
pub fn set_target_health(m: &mut MetricsState, pool_id: &str, address: &str, healthy: bool)
    ensures
        health_of(health_view(final(m).target_health@), pool_id@, address@) == Some(healthy),
        final(m).inflight_requests == old(m).inflight_requests,
        final(m).requests_total == old(m).requests_total,
        final(m).upstream_errors_total == old(m).upstream_errors_total,
        final(m).audit_write_failures_total == old(m).audit_write_failures_total,
{
    let ghost rs = health_view(m.target_health@);
    let mut i: usize = 0;
    proof {
        assert(rs.skip(0) =~= rs);
    }
    while i < m.target_health.len()
        invariant
            *m == *old(m),
            rs == health_view(m.target_health@),
            i <= m.target_health@.len(),
            rs.len() == m.target_health@.len(),
            forall|k: int|
                0 <= k < i ==> !((#[trigger] rs[k]).0.0 == pool_id@ && rs[k].0.1 == address@),
        decreases m.target_health@.len() - i,
    {
        proof {
            assert(rs.skip(i as int)[0] == rs[i as int]);
            assert(rs.skip(i as int).drop_first() =~= rs.skip(i + 1));
        }
        if crate::text::str_eq(m.target_health[i].0.0.as_str(), pool_id) && crate::text::str_eq(
            m.target_health[i].0.1.as_str(),
            address,
        ) {
            let ghost before = m.target_health@;
            let mut entry = m.target_health.remove(i);
            entry.1 = healthy;
            m.target_health.insert(i, entry);
            proof {
                assert(health_view(m.target_health@) =~~= health_view(before).update(
                    i as int,
                    (health_view(before)[i as int].0, healthy),
                ));
                lemma_health_of_update(
                    health_view(before),
                    health_view(m.target_health@),
                    i as int,
                    pool_id@,
                    address@,
                    healthy,
                );
            }
            return ;
        }
        i = i + 1;
    }
    let ghost before = m.target_health@;
    m.target_health.push(((pool_id.to_owned(), address.to_owned()), healthy));
    proof {
        lemma_health_of_push(health_view(before), pool_id@, address@, healthy);
        assert(health_view(m.target_health@) =~~= health_view(before).push(
            ((pool_id@, address@), healthy),
        ));
    }
}

proof fn lemma_health_of_update(
    old_rs: Seq<((Seq<char>, Seq<char>), bool)>,
    new_rs: Seq<((Seq<char>, Seq<char>), bool)>,
    i: int,
    pool: Seq<char>,
    address: Seq<char>,
    healthy: bool,
)
    requires
        0 <= i < old_rs.len(),
        new_rs == old_rs.update(i, (old_rs[i].0, healthy)),
        old_rs[i].0.0 == pool && old_rs[i].0.1 == address,
        forall|k: int| 0 <= k < i ==> !((#[trigger] old_rs[k]).0.0 == pool && old_rs[k].0.1
            == address),
    ensures
        health_of(new_rs, pool, address) == Some(healthy),
    decreases i,
{
    if i == 0 {
        assert(new_rs[0] == (old_rs[0].0, healthy));
    } else {
        assert(new_rs[0] == old_rs[0]);
        assert(new_rs.drop_first() =~= old_rs.drop_first().update(i - 1, (old_rs[i].0, healthy)));
        assert forall|k: int|
            0 <= k < i - 1 implies !((#[trigger] old_rs.drop_first()[k]).0.0 == pool
            && old_rs.drop_first()[k].0.1 == address) by {
            assert(old_rs.drop_first()[k] == old_rs[k + 1]);
        }
        lemma_health_of_update(
            old_rs.drop_first(),
            new_rs.drop_first(),
            i - 1,
            pool,
            address,
            healthy,
        );
    }
}

proof fn lemma_health_of_push(
    rs: Seq<((Seq<char>, Seq<char>), bool)>,
    pool: Seq<char>,
    address: Seq<char>,
    healthy: bool,
)
    requires
        forall|k: int| 0 <= k < rs.len() ==> !((#[trigger] rs[k]).0.0 == pool && rs[k].0.1
            == address),
    ensures
        health_of(rs.push(((pool, address), healthy)), pool, address) == Some(healthy),
    decreases rs.len(),
{
    if rs.len() == 0 {
        assert(rs.push(((pool, address), healthy))[0] == ((pool, address), healthy));
    } else {
        assert(rs.push(((pool, address), healthy))[0] == rs[0]);
        assert(rs.push(((pool, address), healthy)).drop_first() =~= rs.drop_first().push(
            ((pool, address), healthy),
        ));
        assert forall|k: int|
            0 <= k < rs.drop_first().len() implies !((#[trigger] rs.drop_first()[k]).0.0 == pool
            && rs.drop_first()[k].0.1 == address) by {
            assert(rs.drop_first()[k] == rs[k + 1]);
        }
        lemma_health_of_push(rs.drop_first(), pool, address, healthy);
    }
}

/// Over one request, the inflight gauge returns to where it started: the
/// one increment at admission and the one decrement at completion cancel.
pub proof fn lemma_inflight_balanced(before: u64, admitted: u64, completed: u64)
    requires
        before < u64::MAX,
        admitted == before + 1,
        completed == admitted - 1,
    ensures
        completed == before,
{
}

} // verus!
