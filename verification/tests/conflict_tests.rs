use gateway_core::checks::{validate_snapshot, Issue};
use gateway_core::ids::Id;
use gateway_core::json::Json;
use gateway_core::models::{Listener, Route, Snapshot, UpstreamPool};

fn base_snapshot() -> Snapshot {
    Snapshot {
        listeners: vec![Listener {
            id: Id::new(1, 1),
            name: "edge".to_string(),
            port: 8080,
            protocol: "http".to_string(),
            tls_policy_id: None,
            enabled: true,
            created_at: 0,
            updated_at: 0,
        }],
        routes: vec![],
        upstream_pools: vec![UpstreamPool {
            id: Id::new(2, 1),
            name: "p".to_string(),
            policy: "weighted".to_string(),
            health_check: None,
            created_at: 0,
            updated_at: 0,
        }],
        upstream_targets: vec![],
        tls_policies: vec![],
        certificates: vec![],
    }
}

fn route(n: u64, kind: &str, expr: Json) -> Route {
    Route {
        id: Id::new(4, n),
        listener_id: Id::new(1, 1),
        kind: kind.to_string(),
        match_expr: expr,
        priority: 1,
        upstream_pool_id: Id::new(2, 1),
        enabled: true,
        created_at: 0,
        updated_at: 0,
    }
}

fn messages(s: &Snapshot) -> Vec<String> {
    validate_snapshot(s, None, None)
        .iter()
        .map(Issue::message)
        .collect()
}

fn has_conflict(msgs: &[String]) -> bool {
    msgs.iter().any(|m| m.contains("conflicts with route"))
}

#[test]
fn canonically_equal_routes_conflict() {
    // Hosts compare case-insensitively, method lists as sets, and header
    // keys lowercased: these two routes are one canonical key.
    let mut s = base_snapshot();
    s.routes = vec![
        route(
            1,
            "path",
            Json::Obj(vec![
                ("host".to_string(), Json::Str("X.Example".to_string())),
                (
                    "method".to_string(),
                    Json::Arr(vec![
                        Json::Str("GET".to_string()),
                        Json::Str("post".to_string()),
                        Json::Str("get".to_string()),
                    ]),
                ),
                (
                    "headers".to_string(),
                    Json::Obj(vec![(
                        "X-Tenant".to_string(),
                        Json::Str("blue".to_string()),
                    )]),
                ),
            ]),
        ),
        route(
            2,
            "path",
            Json::Obj(vec![
                ("host".to_string(), Json::Str("x.example".to_string())),
                (
                    "method".to_string(),
                    Json::Arr(vec![
                        Json::Str("POST".to_string()),
                        Json::Str("GET".to_string()),
                    ]),
                ),
                (
                    "headers".to_string(),
                    Json::Obj(vec![(
                        "x-tenant".to_string(),
                        Json::Str("blue".to_string()),
                    )]),
                ),
            ]),
        ),
    ];
    let msgs = messages(&s);
    assert!(has_conflict(&msgs), "expected a conflict in {:?}", msgs);
}

#[test]
fn differing_conditions_do_not_conflict() {
    let mut s = base_snapshot();
    s.routes = vec![
        route(
            1,
            "path",
            Json::Obj(vec![("host".to_string(), Json::Str("a.example".to_string()))]),
        ),
        route(
            2,
            "path",
            Json::Obj(vec![("host".to_string(), Json::Str("b.example".to_string()))]),
        ),
    ];
    assert!(!has_conflict(&messages(&s)));
}

#[test]
fn header_values_stay_case_sensitive() {
    // Keys are lowered canonically; values are not.
    let mut s = base_snapshot();
    s.routes = vec![
        route(
            1,
            "path",
            Json::Obj(vec![
                ("host".to_string(), Json::Str("a.example".to_string())),
                (
                    "headers".to_string(),
                    Json::Obj(vec![("k".to_string(), Json::Str("Blue".to_string()))]),
                ),
            ]),
        ),
        route(
            2,
            "path",
            Json::Obj(vec![
                ("host".to_string(), Json::Str("a.example".to_string())),
                (
                    "headers".to_string(),
                    Json::Obj(vec![("k".to_string(), Json::Str("blue".to_string()))]),
                ),
            ]),
        ),
    ];
    assert!(!has_conflict(&messages(&s)));
}

#[test]
fn ws_kind_forces_the_upgrade_gate_into_the_key() {
    // A ws route with no ws flag and one with ws=true canonicalize alike.
    let mut s = base_snapshot();
    s.routes = vec![
        route(
            1,
            "ws",
            Json::Obj(vec![("host".to_string(), Json::Str("a.example".to_string()))]),
        ),
        route(
            2,
            "ws",
            Json::Obj(vec![
                ("host".to_string(), Json::Str("a.example".to_string())),
                ("ws".to_string(), Json::Bool(true)),
            ]),
        ),
    ];
    assert!(has_conflict(&messages(&s)));
}

#[test]
fn two_port_routes_on_one_listener_conflict() {
    let mut s = base_snapshot();
    s.routes = vec![route(1, "port", Json::Null), route(2, "port", Json::Null)];
    let msgs = messages(&s);
    assert!(has_conflict(&msgs));
    // The later route is charged with the conflict against the earlier.
    assert!(msgs.iter().any(|m| m.starts_with("route ")
        && m.contains("(same match conditions)")));
}

#[test]
fn disabled_routes_never_conflict() {
    let mut s = base_snapshot();
    let mut second = route(2, "port", Json::Null);
    second.enabled = false;
    s.routes = vec![route(1, "port", Json::Null), second];
    // The disabled route is also reported against its enabled listener
    // only when enabled; here only non-conflict findings may appear.
    assert!(!has_conflict(&messages(&s)));
}

#[test]
fn route_findings_carry_stable_prefixes() {
    let mut s = base_snapshot();
    s.routes = vec![
        Route {
            priority: -1,
            ..route(1, "path", Json::Obj(vec![]))
        },
        route(2, "teleport", Json::Null),
    ];
    let msgs = messages(&s);
    assert!(msgs.iter().any(|m| m.contains("invalid priority -1")));
    assert!(msgs.iter().any(|m| m.contains("path requires host/path condition")));
    assert!(msgs.iter().any(|m| m.contains("invalid route type teleport")));
}

#[test]
fn ws_route_must_not_disable_the_gate() {
    let mut s = base_snapshot();
    s.routes = vec![route(
        1,
        "ws",
        Json::Obj(vec![
            ("host".to_string(), Json::Str("a.example".to_string())),
            ("ws".to_string(), Json::Bool(false)),
        ]),
    )];
    let msgs = messages(&s);
    assert!(msgs.iter().any(|m| m.contains("ws route must require ws")));
}

#[test]
fn https_listener_needs_an_existing_tls_policy() {
    let mut s = base_snapshot();
    s.listeners[0].protocol = "https".to_string();
    let msgs = messages(&s);
    assert!(msgs.iter().any(|m| m.contains("https requires tls_policy_id")));

    s.listeners[0].tls_policy_id = Some(Id::new(5, 9));
    let msgs = messages(&s);
    assert!(msgs.iter().any(|m| m.contains("tls_policy_id not found")));
}
