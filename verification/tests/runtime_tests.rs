use gateway_core::ids::Id;
use gateway_core::json::Json;
use gateway_core::matcher::HttpRequest;
use gateway_core::models::{
    Certificate, Listener, Route, Snapshot, TlsPolicy, UpstreamPool, UpstreamTarget,
};
use gateway_core::proxy::{RequestCtx, RouteOutcome};
use gateway_core::runtime::build_runtime;
use gateway_core::tls::{select_cert, TlsKeyPair};
use gateway_core::config::PortRange;

fn lid(n: u64) -> Id {
    Id::new(1, n)
}

fn listener(n: u64, protocol: &str, port: i32) -> Listener {
    Listener {
        id: lid(n),
        name: format!("l{}", n),
        port,
        protocol: protocol.to_string(),
        tls_policy_id: None,
        enabled: true,
        created_at: 0,
        updated_at: 0,
    }
}

fn pool(n: u64, policy: &str) -> UpstreamPool {
    UpstreamPool {
        id: Id::new(2, n),
        name: format!("p{}", n),
        policy: policy.to_string(),
        health_check: None,
        created_at: 0,
        updated_at: 0,
    }
}

fn upstream(n: u64, pool: u64, address: &str) -> UpstreamTarget {
    UpstreamTarget {
        id: Id::new(3, n),
        pool_id: Id::new(2, pool),
        address: address.to_string(),
        weight: 1,
        enabled: true,
        created_at: 0,
        updated_at: 0,
    }
}

fn path_route(n: u64, listener: u64, pool: u64, priority: i32, prefix: &str) -> Route {
    Route {
        id: Id::new(4, n),
        listener_id: lid(listener),
        kind: "path".to_string(),
        match_expr: Json::Obj(vec![(
            "path_prefix".to_string(),
            Json::Str(prefix.to_string()),
        )]),
        priority,
        upstream_pool_id: Id::new(2, pool),
        enabled: true,
        created_at: 0,
        updated_at: 0,
    }
}

fn default_tls() -> TlsKeyPair {
    TlsKeyPair {
        cert_pem: "default-cert".to_string(),
        key_pem: "default-key".to_string(),
    }
}

fn get_request(path: &str) -> HttpRequest {
    HttpRequest {
        method: "GET".to_string(),
        path: path.to_string(),
        query: String::new(),
        headers: Vec::new(),
    }
}

#[test]
fn enabled_valid_listeners_appear_in_port_map() {
    // Every enabled listener that passes the port-range rules is
    // reachable through the port map after adoption.
    let snapshot = Snapshot {
        listeners: vec![
            listener(1, "http", 8080),
            listener(2, "http", 8081),
            Listener {
                enabled: false,
                ..listener(3, "http", 8082)
            },
            listener(4, "http", 70000), // out of bounds: dropped, not fatal
        ],
        routes: vec![],
        upstream_pools: vec![],
        upstream_targets: vec![],
        tls_policies: vec![],
        certificates: vec![],
    };
    let rt = build_runtime(&snapshot, &default_tls(), None, None);
    assert!(rt.listener_by_port(8080).is_some());
    assert!(rt.listener_by_port(8081).is_some());
    assert!(rt.listener_by_port(8082).is_none());
    assert_eq!(rt.listeners.len(), 2);
}

#[test]
fn route_order_is_priority_descending_and_rebuild_identical() {
    // Routes sort by priority descending, ties keep insertion order, and
    // rebuilding the same snapshot gives the identical order.
    let make = || Snapshot {
        listeners: vec![listener(1, "http", 8080)],
        routes: vec![
            path_route(1, 1, 1, 5, "/low"),
            path_route(2, 1, 1, 10, "/a"),
            path_route(3, 1, 1, 10, "/b"),
        ],
        upstream_pools: vec![pool(1, "round_robin")],
        upstream_targets: vec![upstream(1, 1, "127.0.0.1:9001")],
        tls_policies: vec![],
        certificates: vec![],
    };
    let rt1 = build_runtime(&make(), &default_tls(), None, None);
    let rt2 = build_runtime(&make(), &default_tls(), None, None);
    let rules1 = rt1.routes_for(lid(1)).expect("routes exist");
    let rules2 = rt2.routes_for(lid(1)).expect("routes exist");
    let order1: Vec<(i32, Id)> = rules1.iter().map(|r| (r.priority, r.id)).collect();
    let order2: Vec<(i32, Id)> = rules2.iter().map(|r| (r.priority, r.id)).collect();
    assert_eq!(order1, order2);
    assert_eq!(order1[0], (10, Id::new(4, 2)));
    assert_eq!(order1[1], (10, Id::new(4, 3)));
    assert_eq!(order1[2], (5, Id::new(4, 1)));
}

#[test]
fn priority_tiebreak_first_inserted_wins() {
    // Two routes of equal priority: /a wins for /a/x, the catch-all
    // prefix wins for /b.
    let snapshot = Snapshot {
        listeners: vec![listener(1, "http", 8080)],
        routes: vec![
            path_route(1, 1, 1, 10, "/a"),
            path_route(2, 1, 2, 10, "/"),
        ],
        upstream_pools: vec![pool(1, "round_robin"), pool(2, "round_robin")],
        upstream_targets: vec![
            upstream(1, 1, "127.0.0.1:9001"),
            upstream(2, 2, "127.0.0.1:9002"),
        ],
        tls_policies: vec![],
        certificates: vec![],
    };
    let mut rt = build_runtime(&snapshot, &default_tls(), None, None);

    let mut ctx = RequestCtx::new();
    match rt.upstream_peer(8080, &get_request("/a/x"), &mut ctx) {
        RouteOutcome::Upstream { address, .. } => assert_eq!(address, "127.0.0.1:9001"),
        _ => panic!("expected an upstream for /a/x"),
    }
    rt.logging(&mut ctx);

    let mut ctx = RequestCtx::new();
    match rt.upstream_peer(8080, &get_request("/b"), &mut ctx) {
        RouteOutcome::Upstream { address, .. } => assert_eq!(address, "127.0.0.1:9002"),
        _ => panic!("expected an upstream for /b"),
    }
    rt.logging(&mut ctx);
}

#[test]
fn websocket_route_requires_upgrade_headers() {
    // A ws route matches only an upgrade request; the same URL without
    // the upgrade headers finds no upstream.
    let ws_route = Route {
        id: Id::new(4, 1),
        listener_id: lid(1),
        kind: "ws".to_string(),
        match_expr: Json::Obj(vec![(
            "host".to_string(),
            Json::Str("x.example".to_string()),
        )]),
        priority: 0,
        upstream_pool_id: Id::new(2, 1),
        enabled: true,
        created_at: 0,
        updated_at: 0,
    };
    let snapshot = Snapshot {
        listeners: vec![listener(1, "http", 8080)],
        routes: vec![ws_route],
        upstream_pools: vec![pool(1, "round_robin")],
        upstream_targets: vec![upstream(1, 1, "127.0.0.1:9001")],
        tls_policies: vec![],
        certificates: vec![],
    };
    let mut rt = build_runtime(&snapshot, &default_tls(), None, None);

    let upgraded = HttpRequest {
        method: "GET".to_string(),
        path: "/".to_string(),
        query: String::new(),
        headers: vec![
            ("Host".to_string(), "x.example".to_string()),
            ("Upgrade".to_string(), "websocket".to_string()),
            ("Connection".to_string(), "Upgrade".to_string()),
        ],
    };
    let mut ctx = RequestCtx::new();
    assert!(matches!(
        rt.upstream_peer(8080, &upgraded, &mut ctx),
        RouteOutcome::Upstream { .. }
    ));
    rt.logging(&mut ctx);

    let plain = HttpRequest {
        method: "GET".to_string(),
        path: "/".to_string(),
        query: String::new(),
        headers: vec![("Host".to_string(), "x.example".to_string())],
    };
    let mut ctx = RequestCtx::new();
    assert!(matches!(
        rt.upstream_peer(8080, &plain, &mut ctx),
        RouteOutcome::NoUpstream
    ));
}

#[test]
fn unknown_port_and_missing_routes_are_not_found() {
    let snapshot = Snapshot {
        listeners: vec![listener(1, "http", 8080)],
        routes: vec![],
        upstream_pools: vec![],
        upstream_targets: vec![],
        tls_policies: vec![],
        certificates: vec![],
    };
    let mut rt = build_runtime(&snapshot, &default_tls(), None, None);
    let mut ctx = RequestCtx::new();
    assert!(matches!(
        rt.upstream_peer(9999, &get_request("/"), &mut ctx),
        RouteOutcome::NoListener
    ));
    assert!(matches!(
        rt.upstream_peer(8080, &get_request("/"), &mut ctx),
        RouteOutcome::NoRoutes
    ));
}

#[test]
fn request_inflight_increments_then_decrements_to_zero() {
    // One dispatch and one completion leave the picked target's inflight
    // gauge where it began.
    let snapshot = Snapshot {
        listeners: vec![listener(1, "http", 8080)],
        routes: vec![path_route(1, 1, 1, 0, "/")],
        upstream_pools: vec![pool(1, "round_robin")],
        upstream_targets: vec![upstream(1, 1, "127.0.0.1:9001")],
        tls_policies: vec![],
        certificates: vec![],
    };
    let mut rt = build_runtime(&snapshot, &default_tls(), None, None);
    let mut ctx = RequestCtx::new();
    let outcome = rt.upstream_peer(8080, &get_request("/"), &mut ctx);
    let (pi, ti) = match outcome {
        RouteOutcome::Upstream {
            pool_index,
            target_index,
            ..
        } => (pool_index, target_index),
        _ => panic!("expected an upstream"),
    };
    assert_eq!(rt.pools[pi].1.targets[ti].inflight, 1);
    rt.logging(&mut ctx);
    assert_eq!(rt.pools[pi].1.targets[ti].inflight, 0);
}

#[test]
fn tls_material_follows_newest_matching_certificate() {
    // The per-port material is the certificate whose domain the policy
    // lists with the greatest expiry.
    let policy_id = Id::new(5, 1);
    let tls_listener = Listener {
        tls_policy_id: Some(policy_id),
        ..listener(1, "https", 8443)
    };
    let certs = vec![
        Certificate {
            id: Id::new(6, 1),
            domain: "x.example".to_string(),
            cert_pem: "old-cert".to_string(),
            key_pem: "old-key".to_string(),
            expires_at: 100,
            status: "active".to_string(),
            created_at: 0,
            updated_at: 0,
        },
        Certificate {
            id: Id::new(6, 2),
            domain: "other.example".to_string(),
            cert_pem: "other-cert".to_string(),
            key_pem: "other-key".to_string(),
            expires_at: 900,
            status: "active".to_string(),
            created_at: 0,
            updated_at: 0,
        },
        Certificate {
            id: Id::new(6, 3),
            domain: "x.example".to_string(),
            cert_pem: "new-cert".to_string(),
            key_pem: "new-key".to_string(),
            expires_at: 500,
            status: "active".to_string(),
            created_at: 0,
            updated_at: 0,
        },
    ];
    let policy = TlsPolicy {
        id: policy_id,
        mode: "manual".to_string(),
        domains: vec!["x.example".to_string()],
        status: "active".to_string(),
        created_at: 0,
        updated_at: 0,
    };
    let chosen = select_cert(&policy, &certs).expect("a certificate matches");
    assert_eq!(chosen.cert_pem, "new-cert");

    let snapshot = Snapshot {
        listeners: vec![tls_listener],
        routes: vec![],
        upstream_pools: vec![],
        upstream_targets: vec![],
        tls_policies: vec![policy],
        certificates: certs,
    };
    let rt = build_runtime(&snapshot, &default_tls(), None, None);
    assert_eq!(rt.tls_by_port.len(), 1);
    assert_eq!(rt.tls_by_port[0].0, 8443);
    assert_eq!(rt.tls_by_port[0].1.cert_pem, "new-cert");
    assert_eq!(rt.tls_by_port[0].1.key_pem, "new-key");
}

#[test]
fn https_range_ports_without_material_serve_the_default_pair() {
    let snapshot = Snapshot {
        listeners: vec![],
        routes: vec![],
        upstream_pools: vec![],
        upstream_targets: vec![],
        tls_policies: vec![],
        certificates: vec![],
    };
    let rt = build_runtime(
        &snapshot,
        &default_tls(),
        None,
        Some(PortRange {
            start: 8443,
            end: 8445,
        }),
    );
    assert_eq!(rt.tls_by_port.len(), 3);
    for (port, pair) in rt.tls_by_port.iter() {
        assert!((8443..=8445).contains(port));
        assert_eq!(pair.cert_pem, "default-cert");
    }
}

#[test]
fn probe_results_flip_health_flags() {
    // A failed probe turns the flag off; the next successful one turns
    // it back on. A rebuild starts fresh at healthy.
    let snapshot = Snapshot {
        listeners: vec![],
        routes: vec![],
        upstream_pools: vec![pool(1, "round_robin")],
        upstream_targets: vec![upstream(1, 1, "127.0.0.1:9")],
        tls_policies: vec![],
        certificates: vec![],
    };
    let mut rt = build_runtime(&snapshot, &default_tls(), None, None);
    let pools = rt.health_pools();
    assert_eq!(pools.len(), 1);
    assert_eq!(pools[0].2, vec!["127.0.0.1:9".to_string()]);
    assert!(rt.pools[0].1.targets[0].healthy);

    rt.set_target_health(0, 0, false);
    assert!(!rt.pools[0].1.targets[0].healthy);
    rt.set_target_health(0, 0, true);
    assert!(rt.pools[0].1.targets[0].healthy);
}

#[test]
fn invalid_routes_are_dropped_not_fatal() {
    let bad_regex = Route {
        id: Id::new(4, 9),
        listener_id: lid(1),
        kind: "path".to_string(),
        match_expr: Json::Obj(vec![(
            "path_regex".to_string(),
            Json::Str("(".to_string()),
        )]),
        priority: 3,
        upstream_pool_id: Id::new(2, 1),
        enabled: true,
        created_at: 0,
        updated_at: 0,
    };
    let unknown_kind = Route {
        kind: "tcp".to_string(),
        ..path_route(8, 1, 1, 2, "/x")
    };
    let snapshot = Snapshot {
        listeners: vec![listener(1, "http", 8080)],
        routes: vec![bad_regex, unknown_kind, path_route(1, 1, 1, 1, "/ok")],
        upstream_pools: vec![pool(1, "round_robin")],
        upstream_targets: vec![upstream(1, 1, "127.0.0.1:9001")],
        tls_policies: vec![],
        certificates: vec![],
    };
    let rt = build_runtime(&snapshot, &default_tls(), None, None);
    let rules = rt.routes_for(lid(1)).expect("one valid route remains");
    assert_eq!(rules.len(), 1);
    assert_eq!(rules[0].id, Id::new(4, 1));
}
