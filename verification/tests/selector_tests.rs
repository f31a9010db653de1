use gateway_core::ids::Id;
use gateway_core::json::Json;
use gateway_core::selector::{PoolHealthCheck, PoolPolicy, PoolRuntime, TargetRuntime};

fn target(n: u64, weight: i32, healthy: bool) -> TargetRuntime {
    TargetRuntime {
        id: Id::new(0, n),
        address: format!("127.0.0.1:{}", 9000 + n),
        weight,
        healthy,
        inflight: 0,
    }
}

fn pool(policy: PoolPolicy, targets: Vec<TargetRuntime>) -> PoolRuntime {
    PoolRuntime {
        targets,
        cursor: 0,
        policy,
        health: PoolHealthCheck {
            interval_secs: None,
            timeout_ms: None,
        },
    }
}

#[test]
fn weighted_single_target_weight_seven_always_picked() {
    // A pool with exactly one target of weight seven serves it every time.
    let mut p = pool(PoolPolicy::Weighted, vec![target(1, 7, true)]);
    for _ in 0..50 {
        assert_eq!(p.pick(), Some(0));
    }
}

#[test]
fn round_robin_three_healthy_fair_counts() {
    // Over N calls each of three healthy targets is drawn N/3 rounded
    // down or up.
    let mut p = pool(
        PoolPolicy::RoundRobin,
        vec![target(1, 1, true), target(2, 1, true), target(3, 1, true)],
    );
    let n_calls = 100usize;
    let mut counts = [0usize; 3];
    for _ in 0..n_calls {
        let i = p.pick().expect("nonempty pool must yield a target");
        counts[i] += 1;
    }
    for &c in counts.iter() {
        assert!(c == n_calls / 3 || c == n_calls / 3 + 1, "unfair count {}", c);
    }
}

#[test]
fn weighted_fail_open_distributes_one_to_two() {
    // Both targets unhealthy: the selector still serves, at the 1:2
    // weight ratio.
    let mut p = pool(
        PoolPolicy::Weighted,
        vec![target(1, 1, false), target(2, 2, false)],
    );
    let mut counts = [0usize; 2];
    for _ in 0..300 {
        let i = p.pick().expect("fail-open must still serve");
        counts[i] += 1;
    }
    assert_eq!(counts[0], 100);
    assert_eq!(counts[1], 200);
}

#[test]
fn least_conn_tiebreak_by_cursor() {
    // A and B idle, C busy: sequential picks alternate A, B and never C
    // until its inflight matches the minimum.
    let mut a = target(1, 1, true);
    let b = target(2, 1, true);
    let mut c = target(3, 1, true);
    a.inflight = 0;
    c.inflight = 1;
    let mut p = pool(PoolPolicy::LeastConn, vec![a, b, c]);
    let first = p.pick().unwrap();
    assert_eq!(first, 0);
    // Release A so the counters return to the scenario's state.
    p.release(0);
    let second = p.pick().unwrap();
    assert_eq!(second, 1);
    p.release(1);
    let third = p.pick().unwrap();
    assert_eq!(third, 0);
}

#[test]
fn nonempty_pool_never_returns_none() {
    // One healthy target of positive weight: the selector always serves.
    for policy in [
        PoolPolicy::RoundRobin,
        PoolPolicy::Weighted,
        PoolPolicy::LeastConn,
    ] {
        let mut p = pool(policy, vec![target(1, 3, true), target(2, 1, false)]);
        for _ in 0..20 {
            assert!(p.pick().is_some());
        }
    }
}

#[test]
fn pick_then_release_restores_inflight() {
    // One pick and one release cancel on the target's inflight gauge.
    let mut p = pool(PoolPolicy::RoundRobin, vec![target(1, 1, true)]);
    assert_eq!(p.targets[0].inflight, 0);
    let i = p.pick().unwrap();
    assert_eq!(p.targets[i].inflight, 1);
    p.release(i);
    assert_eq!(p.targets[i].inflight, 0);
}

#[test]
fn round_robin_falls_back_to_cursor_position_when_all_unhealthy() {
    let mut p = pool(
        PoolPolicy::RoundRobin,
        vec![target(1, 1, false), target(2, 1, false)],
    );
    assert_eq!(p.pick(), Some(0));
    assert_eq!(p.pick(), Some(1));
    assert_eq!(p.pick(), Some(0));
}

#[test]
fn policy_names_parse_case_insensitively() {
    assert_eq!(
        PoolPolicy::from_str("round_robin"),
        Some(PoolPolicy::RoundRobin)
    );
    assert_eq!(PoolPolicy::from_str("WEIGHTED"), Some(PoolPolicy::Weighted));
    assert_eq!(
        PoolPolicy::from_str("Least_Conn"),
        Some(PoolPolicy::LeastConn)
    );
    assert_eq!(PoolPolicy::from_str("random"), None);
}

#[test]
fn health_check_descriptor_parses_tcp_only() {
    let ok = Json::Obj(vec![
        ("kind".to_string(), Json::Str("tcp".to_string())),
        ("interval_secs".to_string(), Json::UInt(5)),
        ("timeout_ms".to_string(), Json::UInt(800)),
    ]);
    let parsed = PoolHealthCheck::from_json(&ok).expect("tcp descriptor parses");
    assert_eq!(parsed.interval_secs, Some(5));
    assert_eq!(parsed.timeout_ms, Some(800));

    let bad_kind = Json::Obj(vec![(
        "kind".to_string(),
        Json::Str("http".to_string()),
    )]);
    assert!(PoolHealthCheck::from_json(&bad_kind).is_none());

    let not_object = Json::Str("tcp".to_string());
    assert!(PoolHealthCheck::from_json(&not_object).is_none());

    let defaulted = Json::Obj(vec![]);
    let parsed = PoolHealthCheck::from_json(&defaulted).expect("kind defaults to tcp");
    assert_eq!(parsed.interval_secs, None);
    assert_eq!(parsed.timeout_ms, None);
}
