use gateway_core::checks::{validate_snapshot, Issue};
use gateway_core::errors::GatewayError;
use gateway_core::ids::Id;
use gateway_core::models::{Listener, Snapshot, UpstreamTarget, UpstreamPool};
use gateway_core::publication::{VersionLog, VersionStatus};
use gateway_core::store::{AcmeChallengeStore, SnapshotStore};
use gateway_core::health::{effective_interval_secs, effective_timeout_ms, probe_due};
use gateway_core::metrics::{
    inc_audit_write_failure, inc_upstream_error, inflight_dec, inflight_inc, observe_request,
    set_target_health, MetricsState,
};
use gateway_core::node::{effective_interval, NodeRuntime, PollAction, PollResponse};
use gateway_core::selector::PoolHealthCheck;

fn empty_snapshot() -> Snapshot {
    Snapshot {
        listeners: vec![],
        routes: vec![],
        upstream_pools: vec![],
        upstream_targets: vec![],
        tls_policies: vec![],
        certificates: vec![],
    }
}

fn bad_snapshot() -> Snapshot {
    Snapshot {
        listeners: vec![Listener {
            id: Id::new(1, 1),
            name: "bad".to_string(),
            port: 0,
            protocol: "http".to_string(),
            tls_policy_id: None,
            enabled: true,
            created_at: 0,
            updated_at: 0,
        }],
        ..empty_snapshot()
    }
}

fn count_published(log: &VersionLog) -> usize {
    log.rows
        .iter()
        .filter(|r| matches!(r.status, VersionStatus::Published))
        .count()
}

#[test]
fn publish_accepts_only_clean_snapshots() {
    // A snapshot with findings is refused with a joined validation
    // message; the log stays untouched.
    let mut log = VersionLog::new();
    let r = log.publish(bad_snapshot(), None, None, "ops".to_string(), Id::new(9, 1), 10);
    match r {
        Err(GatewayError::Validation(msg)) => {
            assert!(msg.contains("invalid port 0"));
        }
        _ => panic!("expected a validation refusal"),
    }
    assert_eq!(log.rows.len(), 0);
}

#[test]
fn published_snapshot_validates_to_the_empty_list() {
    // Whatever is published came through validation clean.
    let mut log = VersionLog::new();
    log.publish(empty_snapshot(), None, None, "ops".to_string(), Id::new(9, 1), 10)
        .expect("clean snapshot publishes");
    let row = log.published().expect("one published version");
    assert!(validate_snapshot(&row.snapshot, None, None).is_empty());
}

#[test]
fn exactly_one_version_is_published_after_each_publish() {
    let mut log = VersionLog::new();
    log.publish(empty_snapshot(), None, None, "ops".to_string(), Id::new(9, 1), 10)
        .unwrap();
    assert_eq!(count_published(&log), 1);
    log.publish(empty_snapshot(), None, None, "ops".to_string(), Id::new(9, 2), 20)
        .unwrap();
    assert_eq!(count_published(&log), 1);
    assert_eq!(log.published().unwrap().id, Id::new(9, 2));
}

#[test]
fn rollback_reinstates_a_prior_version() {
    let mut log = VersionLog::new();
    log.publish(empty_snapshot(), None, None, "ops".to_string(), Id::new(9, 1), 10)
        .unwrap();
    log.publish(empty_snapshot(), None, None, "ops".to_string(), Id::new(9, 2), 20)
        .unwrap();
    log.rollback(Id::new(9, 1)).expect("known version");
    assert_eq!(count_published(&log), 1);
    assert_eq!(log.published().unwrap().id, Id::new(9, 1));

    assert!(matches!(
        log.rollback(Id::new(9, 99)),
        Err(GatewayError::NotFound(_))
    ));
}

#[test]
fn rollback_to_current_version_changes_nothing() {
    // Rolling back to the already-published version leaves the published
    // id (and every row) as it was.
    let mut log = VersionLog::new();
    log.publish(empty_snapshot(), None, None, "ops".to_string(), Id::new(9, 1), 10)
        .unwrap();
    log.publish(empty_snapshot(), None, None, "ops".to_string(), Id::new(9, 2), 20)
        .unwrap();
    let before: Vec<(Id, bool)> = log
        .rows
        .iter()
        .map(|r| (r.id, matches!(r.status, VersionStatus::Published)))
        .collect();
    log.rollback(Id::new(9, 2)).unwrap();
    let after: Vec<(Id, bool)> = log
        .rows
        .iter()
        .map(|r| (r.id, matches!(r.status, VersionStatus::Published)))
        .collect();
    assert_eq!(before, after);
    assert_eq!(log.published().unwrap().id, Id::new(9, 2));
}

#[test]
fn validating_twice_yields_the_same_list() {
    let snapshot = bad_snapshot();
    let first: Vec<String> = validate_snapshot(&snapshot, None, None)
        .iter()
        .map(Issue::message)
        .collect();
    let second: Vec<String> = validate_snapshot(&snapshot, None, None)
        .iter()
        .map(Issue::message)
        .collect();
    assert_eq!(first, second);
    assert!(!first.is_empty());
}

#[test]
fn boundary_ports_zero_and_beyond_fail_validation() {
    // 0 and 65536 are refused; 1 and 65535 pass.
    for (port, ok) in [(0, false), (65536, false), (1, true), (65535, true)] {
        let snapshot = Snapshot {
            listeners: vec![Listener {
                id: Id::new(1, 1),
                name: "edge".to_string(),
                port,
                protocol: "http".to_string(),
                tls_policy_id: None,
                enabled: true,
                created_at: 0,
                updated_at: 0,
            }],
            ..empty_snapshot()
        };
        let issues = validate_snapshot(&snapshot, None, None);
        assert_eq!(issues.is_empty(), ok, "port {}", port);
    }
}

#[test]
fn target_validation_reports_each_failure() {
    let snapshot = Snapshot {
        upstream_pools: vec![UpstreamPool {
            id: Id::new(2, 1),
            name: "p".to_string(),
            policy: "mystery".to_string(),
            health_check: None,
            created_at: 0,
            updated_at: 0,
        }],
        upstream_targets: vec![UpstreamTarget {
            id: Id::new(3, 1),
            pool_id: Id::new(2, 7),
            address: "no-port".to_string(),
            weight: 0,
            enabled: true,
            created_at: 0,
            updated_at: 0,
        }],
        ..empty_snapshot()
    };
    let msgs: Vec<String> = validate_snapshot(&snapshot, None, None)
        .iter()
        .map(Issue::message)
        .collect();
    assert!(msgs.iter().any(|m| m.contains("invalid policy mystery")));
    assert!(msgs.iter().any(|m| m.contains("pool not found")));
    assert!(msgs.iter().any(|m| m.contains("invalid weight 0")));
    assert!(msgs.iter().any(|m| m.contains("invalid address no-port")));
}

#[test]
fn snapshot_store_apply_replaces_wholesale() {
    let mut store = SnapshotStore::new(empty_snapshot());
    assert_eq!(store.current.listeners.len(), 0);
    let next = bad_snapshot();
    store.apply(next).unwrap();
    assert_eq!(store.current.listeners.len(), 1);
}

#[test]
fn challenge_store_set_get_clear() {
    let mut store = AcmeChallengeStore::new();
    assert!(store.get("tok").is_none());
    store.set("tok".to_string(), "auth-1".to_string());
    assert_eq!(store.get("tok").as_deref(), Some("auth-1"));
    store.set("tok".to_string(), "auth-2".to_string());
    assert_eq!(store.get("tok").as_deref(), Some("auth-2"));
    store.set("other".to_string(), "auth-3".to_string());
    assert_eq!(store.get("tok").as_deref(), Some("auth-2"));
    store.clear();
    assert!(store.get("tok").is_none());
    assert!(store.get("other").is_none());
}

#[test]
fn node_poll_applies_only_new_versions() {
    let mut node = NodeRuntime::new();
    let act = node.poll_step(PollResponse::Published {
        version_id: Some(Id::new(9, 1)),
        snapshot: empty_snapshot(),
    });
    match act {
        PollAction::Apply { version_id, .. } => {
            node.on_applied(version_id);
        }
        PollAction::Ignore => panic!("a new version must be applied"),
    }
    assert_eq!(node.current_version, Some(Id::new(9, 1)));

    let act = node.poll_step(PollResponse::Published {
        version_id: Some(Id::new(9, 1)),
        snapshot: empty_snapshot(),
    });
    assert!(matches!(act, PollAction::Ignore));
    assert!(matches!(
        node.poll_step(PollResponse::NotFound),
        PollAction::Ignore
    ));
    assert!(matches!(
        node.poll_step(PollResponse::Failure),
        PollAction::Ignore
    ));
}

#[test]
fn loop_intervals_are_floored_at_two_seconds() {
    assert_eq!(effective_interval(0), 2);
    assert_eq!(effective_interval(1), 2);
    assert_eq!(effective_interval(2), 2);
    assert_eq!(effective_interval(30), 30);
}

#[test]
fn metrics_inflight_balances_over_a_request() {
    let mut m = MetricsState::new();
    inflight_inc(&mut m);
    assert_eq!(m.inflight_requests, 1);
    inflight_dec(&mut m);
    assert_eq!(m.inflight_requests, 0);
}

#[test]
fn metrics_counters_accumulate() {
    let mut m = MetricsState::new();
    observe_request(&mut m, "GET", 200);
    observe_request(&mut m, "GET", 200);
    observe_request(&mut m, "POST", 502);
    assert_eq!(m.requests_total.len(), 2);
    inc_upstream_error(&mut m, "proxy_error");
    inc_upstream_error(&mut m, "proxy_error");
    assert_eq!(m.upstream_errors_total[0].1, 2);
    inc_audit_write_failure(&mut m);
    assert_eq!(m.audit_write_failures_total, 1);
    set_target_health(&mut m, "pool-1", "127.0.0.1:9", false);
    set_target_health(&mut m, "pool-1", "127.0.0.1:9", true);
    assert_eq!(m.target_health.len(), 1);
    assert!(m.target_health[0].1);
}

#[test]
fn health_pacing_floors_and_due_logic() {
    let unset = PoolHealthCheck {
        interval_secs: None,
        timeout_ms: None,
    };
    assert_eq!(effective_interval_secs(&unset, 5), 5);
    assert_eq!(effective_timeout_ms(&unset, 800), 800);
    let tiny = PoolHealthCheck {
        interval_secs: Some(0),
        timeout_ms: Some(1),
    };
    assert_eq!(effective_interval_secs(&tiny, 5), 1);
    assert_eq!(effective_timeout_ms(&tiny, 800), 50);
    assert!(probe_due(None, 100, 5));
    assert!(probe_due(Some(95), 100, 5));
    assert!(!probe_due(Some(96), 100, 5));
}
