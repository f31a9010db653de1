use gateway_core::config::{parse_port_range, trim_ascii, PortRange};
use gateway_core::ids::{id_to_string, Id};
use gateway_core::json::Json;
use gateway_core::matcher::{is_ws_request, HttpRequest, RouteKind, RouteMatcher};
use gateway_core::proxy::{acme_token_from_path, challenge_reply, ChallengeReply};
use gateway_core::text::{decode_percent, eq_ignore_ascii_case, hex_value, parse_host_port};
use gateway_core::codec::{snapshot_from_json, snapshot_to_json};
use gateway_core::models::{
    apply_listener_update, mark_auto_policies_pending, new_listener, CreateListener, Listener,
    Route, Snapshot, TlsPolicy, UpdateListener, UpstreamPool, UpstreamTarget,
};

#[test]
fn id_renders_in_canonical_hyphenated_hex() {
    let id = Id::new(0x0123456789abcdefu64, 0xfedcba9876543210u64);
    assert_eq!(id_to_string(&id), "01234567-89ab-cdef-fedc-ba9876543210");
    assert_eq!(
        id_to_string(&Id::new(0, 0)),
        "00000000-0000-0000-0000-000000000000"
    );
}

#[test]
fn percent_decoding_matches_the_escape_rules() {
    assert_eq!(decode_percent("alice%20ops").as_deref(), Some("alice ops"));
    assert_eq!(decode_percent("plain").as_deref(), Some("plain"));
    assert_eq!(decode_percent("%41%42").as_deref(), Some("AB"));
    assert!(decode_percent("%4").is_none());
    assert!(decode_percent("%zz").is_none());
    // An escape decoding to invalid UTF-8 rejects the input.
    assert!(decode_percent("%ff").is_none());
}

#[test]
fn hex_digit_values() {
    assert_eq!(hex_value(b'0'), Some(0));
    assert_eq!(hex_value(b'9'), Some(9));
    assert_eq!(hex_value(b'a'), Some(10));
    assert_eq!(hex_value(b'F'), Some(15));
    assert_eq!(hex_value(b'g'), None);
}

#[test]
fn host_port_parsing_accepts_both_address_forms() {
    assert_eq!(
        parse_host_port("example.org:8080"),
        Some(("example.org".to_string(), 8080))
    );
    assert_eq!(
        parse_host_port("[::1]:9000"),
        Some(("::1".to_string(), 9000))
    );
    assert_eq!(parse_host_port("no-port"), None);
    assert_eq!(parse_host_port(":8080"), None);
    assert_eq!(parse_host_port("[]:8080"), None);
    assert_eq!(parse_host_port("host:99999"), None);
}

#[test]
fn port_range_parsing_and_bounds() {
    assert_eq!(parse_port_range("").unwrap(), None);
    assert_eq!(
        parse_port_range("8080-8090").unwrap(),
        Some(PortRange {
            start: 8080,
            end: 8090
        })
    );
    assert!(parse_port_range("8080").is_err());
    assert!(parse_port_range("0-10").is_err());
    assert!(parse_port_range("9000-8000").is_err());
    assert!(parse_port_range("a-b").is_err());
}

#[test]
fn trimming_strips_ascii_whitespace() {
    assert_eq!(trim_ascii("  8080-8090 \t"), "8080-8090");
    assert_eq!(trim_ascii("   "), "");
    assert_eq!(trim_ascii("x"), "x");
}

#[test]
fn acme_tokens_come_from_the_well_known_path() {
    assert_eq!(
        acme_token_from_path("/.well-known/acme-challenge/tok-1").as_deref(),
        Some("tok-1")
    );
    assert_eq!(acme_token_from_path("/api/v1/listeners"), None);
    assert!(matches!(
        challenge_reply(Some("auth".to_string())),
        ChallengeReply::KeyAuth(_)
    ));
    assert!(matches!(challenge_reply(None), ChallengeReply::NotFound));
}

#[test]
fn matcher_checks_every_present_condition() {
    let expr = Json::Obj(vec![
        ("host".to_string(), Json::Str("X.Example".to_string())),
        ("path_prefix".to_string(), Json::Str("/api".to_string())),
        (
            "method".to_string(),
            Json::Arr(vec![Json::Str("get".to_string())]),
        ),
        (
            "headers".to_string(),
            Json::Obj(vec![(
                "X-Tenant".to_string(),
                Json::Str("blue".to_string()),
            )]),
        ),
        (
            "query".to_string(),
            Json::Obj(vec![("v".to_string(), Json::Str("2".to_string()))]),
        ),
    ]);
    let matcher = RouteMatcher::from_json(&expr).expect("well-formed expression");
    let good = HttpRequest {
        method: "GET".to_string(),
        path: "/api/things".to_string(),
        query: "v=2&unused=1".to_string(),
        headers: vec![
            ("host".to_string(), "x.example".to_string()),
            ("x-tenant".to_string(), "blue".to_string()),
        ],
    };
    assert!(matcher.matches(&good));

    let wrong_query = HttpRequest {
        query: "v=3".to_string(),
        ..clone_request(&good)
    };
    assert!(!matcher.matches(&wrong_query));

    let wrong_header = HttpRequest {
        headers: vec![("host".to_string(), "x.example".to_string())],
        ..clone_request(&good)
    };
    assert!(!matcher.matches(&wrong_header));

    let wrong_method = HttpRequest {
        method: "POST".to_string(),
        ..clone_request(&good)
    };
    assert!(!matcher.matches(&wrong_method));
}

fn clone_request(r: &HttpRequest) -> HttpRequest {
    HttpRequest {
        method: r.method.clone(),
        path: r.path.clone(),
        query: r.query.clone(),
        headers: r.headers.clone(),
    }
}

#[test]
fn malformed_match_expressions_are_rejected() {
    assert!(RouteMatcher::from_json(&Json::Str("nope".to_string())).is_none());
    let wrong_type = Json::Obj(vec![("host".to_string(), Json::UInt(5))]);
    assert!(RouteMatcher::from_json(&wrong_type).is_none());
    let bad_regex = Json::Obj(vec![("path_regex".to_string(), Json::Str("(".to_string()))]);
    assert!(RouteMatcher::from_json(&bad_regex).is_none());
    let good_regex = Json::Obj(vec![(
        "path_regex".to_string(),
        Json::Str("^/api/[0-9]+$".to_string()),
    )]);
    let m = RouteMatcher::from_json(&good_regex).expect("regex compiles");
    let hit = HttpRequest {
        method: "GET".to_string(),
        path: "/api/42".to_string(),
        query: String::new(),
        headers: vec![],
    };
    let miss = HttpRequest {
        method: "GET".to_string(),
        path: "/api/x".to_string(),
        query: String::new(),
        headers: vec![],
    };
    assert!(m.matches(&hit));
    assert!(!m.matches(&miss));
}

#[test]
fn websocket_detection_reads_both_headers() {
    let upgraded = HttpRequest {
        method: "GET".to_string(),
        path: "/".to_string(),
        query: String::new(),
        headers: vec![
            ("Upgrade".to_string(), "WebSocket".to_string()),
            ("Connection".to_string(), "keep-alive, Upgrade".to_string()),
        ],
    };
    assert!(is_ws_request(&upgraded));
    let missing_connection = HttpRequest {
        method: "GET".to_string(),
        path: "/".to_string(),
        query: String::new(),
        headers: vec![("Upgrade".to_string(), "websocket".to_string())],
    };
    assert!(!is_ws_request(&missing_connection));
}

#[test]
fn route_kinds_parse_case_insensitively() {
    assert_eq!(RouteKind::from_str("port"), Some(RouteKind::Port));
    assert_eq!(RouteKind::from_str("PATH"), Some(RouteKind::Path));
    assert_eq!(RouteKind::from_str("Ws"), Some(RouteKind::Ws));
    assert_eq!(RouteKind::from_str("tcp"), None);
    assert!(eq_ignore_ascii_case("HTTPS", "https"));
    assert!(!eq_ignore_ascii_case("http", "https"));
}

#[test]
fn entity_updates_merge_only_set_fields() {
    let created = new_listener(
        Id::new(1, 1),
        100,
        CreateListener {
            name: "edge".to_string(),
            port: 8080,
            protocol: "http".to_string(),
            tls_policy_id: None,
            enabled: None,
        },
    );
    assert!(created.enabled);
    assert_eq!(created.created_at, 100);

    let updated = apply_listener_update(
        created,
        UpdateListener {
            name: None,
            port: Some(8081),
            protocol: None,
            tls_policy_id: None,
            enabled: Some(false),
        },
        200,
    );
    assert_eq!(updated.name, "edge");
    assert_eq!(updated.port, 8081);
    assert!(!updated.enabled);
    assert_eq!(updated.created_at, 100);
    assert_eq!(updated.updated_at, 200);
}

#[test]
fn renewal_sweep_marks_auto_policies_pending() {
    let policies = vec![
        TlsPolicy {
            id: Id::new(5, 1),
            mode: "auto".to_string(),
            domains: vec!["a.example".to_string()],
            status: "active".to_string(),
            created_at: 0,
            updated_at: 0,
        },
        TlsPolicy {
            id: Id::new(5, 2),
            mode: "manual".to_string(),
            domains: vec!["b.example".to_string()],
            status: "active".to_string(),
            created_at: 0,
            updated_at: 0,
        },
    ];
    let swept = mark_auto_policies_pending(policies);
    assert_eq!(swept[0].status, "pending");
    assert_eq!(swept[1].status, "active");
}

#[test]
fn snapshot_codec_round_trips_every_field() {
    let snapshot = Snapshot {
        listeners: vec![Listener {
            id: Id::new(1, 1),
            name: "edge".to_string(),
            port: 8080,
            protocol: "http".to_string(),
            tls_policy_id: Some(Id::new(5, 1)),
            enabled: true,
            created_at: -3,
            updated_at: 9,
        }],
        routes: vec![Route {
            id: Id::new(4, 1),
            listener_id: Id::new(1, 1),
            kind: "path".to_string(),
            match_expr: Json::Obj(vec![("path_prefix".to_string(), Json::Str("/a".to_string()))]),
            priority: -2,
            upstream_pool_id: Id::new(2, 1),
            enabled: false,
            created_at: 0,
            updated_at: 0,
        }],
        upstream_pools: vec![UpstreamPool {
            id: Id::new(2, 1),
            name: "p".to_string(),
            policy: "weighted".to_string(),
            health_check: Some(Json::Obj(vec![("kind".to_string(), Json::Str("tcp".to_string()))])),
            created_at: 0,
            updated_at: 0,
        }],
        upstream_targets: vec![UpstreamTarget {
            id: Id::new(3, 1),
            pool_id: Id::new(2, 1),
            address: "127.0.0.1:9001".to_string(),
            weight: 7,
            enabled: true,
            created_at: 0,
            updated_at: 0,
        }],
        tls_policies: vec![TlsPolicy {
            id: Id::new(5, 1),
            mode: "manual".to_string(),
            domains: vec!["x.example".to_string(), "y.example".to_string()],
            status: "active".to_string(),
            created_at: 0,
            updated_at: 0,
        }],
        certificates: vec![],
    };
    let reread = snapshot_from_json(snapshot_to_json(snapshot))
        .expect("the canonical document reads back");
    assert_eq!(reread.listeners.len(), 1);
    assert_eq!(reread.listeners[0].name, "edge");
    assert_eq!(reread.listeners[0].created_at, -3);
    assert_eq!(reread.listeners[0].tls_policy_id, Some(Id::new(5, 1)));
    assert_eq!(reread.routes[0].priority, -2);
    assert!(!reread.routes[0].enabled);
    assert!(matches!(reread.routes[0].match_expr, Json::Obj(_)));
    assert!(reread.upstream_pools[0].health_check.is_some());
    assert_eq!(reread.upstream_targets[0].weight, 7);
    assert_eq!(
        reread.tls_policies[0].domains,
        vec!["x.example".to_string(), "y.example".to_string()]
    );
}

#[test]
fn codec_rejects_non_canonical_documents() {
    assert!(snapshot_from_json(Json::Null).is_none());
    assert!(snapshot_from_json(Json::Obj(vec![])).is_none());
}
