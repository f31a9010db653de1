use gateway_core::config::PortRange;
use gateway_core::ids::Id;
use gateway_core::models::{Listener, Snapshot};
use gateway_core::validation::{ValidationContext, ValidationError};

fn make_test_listener(id: Id, protocol: &str, port: i32, enabled: bool) -> Listener {
    Listener {
        id,
        protocol: protocol.to_string(),
        port,
        enabled,
        name: "test".to_string(),
        tls_policy_id: None,
        created_at: 0,
        updated_at: 0,
    }
}

fn make_test_snapshot(listeners: Vec<Listener>) -> Snapshot {
    Snapshot {
        listeners,
        routes: Vec::new(),
        upstream_pools: Vec::new(),
        upstream_targets: Vec::new(),
        tls_policies: Vec::new(),
        certificates: Vec::new(),
    }
}

fn fresh_id(n: u64) -> Id {
    Id::new(0, n)
}

#[test]
fn test_validation_error_description() {
    let err = ValidationError::DuplicateListener {
        protocol: "http".to_string(),
        port: 8080,
    };
    assert_eq!(err.description(), "duplicate listener http:8080");

    let err = ValidationError::InvalidPort { port: 99999 };
    assert_eq!(err.description(), "invalid port 99999 (must be 1-65535)");

    let err = ValidationError::DuplicatePort { port: 8080 };
    assert_eq!(err.description(), "duplicate port 8080");

    let listener_id = fresh_id(4);
    let err = ValidationError::HttpsPortOutOfRange {
        listener_id,
        port: 8443,
    };
    assert!(err.description().contains("https port 8443"));
    assert!(err.description().contains("HTTPS_PORT_RANGE"));

    let err = ValidationError::PortRangeOverlap {
        http_range: PortRange {
            start: 8080,
            end: 8090,
        },
        https_range: PortRange {
            start: 8085,
            end: 8095,
        },
    };
    assert!(err.description().contains("HTTP_PORT_RANGE"));
    assert!(err.description().contains("HTTPS_PORT_RANGE"));
    assert!(err.description().contains("overlaps"));
}

#[test]
fn test_port_range_no_overlap() {
    let http = PortRange {
        start: 8080,
        end: 8090,
    };
    let https = PortRange {
        start: 9000,
        end: 9010,
    };
    let ctx = ValidationContext::new(Some(http), Some(https));

    let snapshot = make_test_snapshot(Vec::new());
    let errors = ctx.validate_snapshot(&snapshot);
    assert!(errors.is_empty());
}

#[test]
fn test_port_range_overlap_detection() {
    let http = PortRange {
        start: 8080,
        end: 8090,
    };
    let https = PortRange {
        start: 8085,
        end: 8095,
    };
    let ctx = ValidationContext::new(Some(http), Some(https));

    let snapshot = make_test_snapshot(Vec::new());
    let errors = ctx.validate_snapshot(&snapshot);

    assert_eq!(errors.len(), 1);
    assert!(matches!(errors[0], ValidationError::PortRangeOverlap { .. }));
}

#[test]
fn test_port_range_adjacent_no_overlap() {
    let http = PortRange {
        start: 8080,
        end: 8090,
    };
    let https = PortRange {
        start: 8091,
        end: 8100,
    };
    let ctx = ValidationContext::new(Some(http), Some(https));

    let snapshot = make_test_snapshot(Vec::new());
    let errors = ctx.validate_snapshot(&snapshot);
    assert!(errors.is_empty());
}

#[test]
fn test_invalid_port_detection() {
    let ctx = ValidationContext::new(None, None);
    let listener = make_test_listener(fresh_id(1), "http", 99999, true);

    assert!(!ctx.is_listener_valid(&listener));
}

#[test]
fn test_port_boundary_values() {
    let ctx = ValidationContext::new(None, None);

    assert!(ctx.is_listener_valid(&make_test_listener(fresh_id(1), "http", 1, true)));
    assert!(ctx.is_listener_valid(&make_test_listener(fresh_id(2), "http", 65535, true)));
    assert!(!ctx.is_listener_valid(&make_test_listener(fresh_id(3), "http", 0, true)));
    assert!(!ctx.is_listener_valid(&make_test_listener(fresh_id(4), "http", 65536, true)));
}

#[test]
fn test_https_listener_in_http_range() {
    let http = PortRange {
        start: 8080,
        end: 8090,
    };
    let ctx = ValidationContext::new(Some(http), None);
    let listener = make_test_listener(fresh_id(1), "https", 8085, true);

    assert!(!ctx.is_listener_valid(&listener));
}

#[test]
fn test_http_listener_in_https_range() {
    let https = PortRange {
        start: 8443,
        end: 8453,
    };
    let ctx = ValidationContext::new(None, Some(https));
    let listener = make_test_listener(fresh_id(1), "http", 8445, true);

    assert!(!ctx.is_listener_valid(&listener));
}

#[test]
fn test_disabled_listener_not_validated() {
    let http = PortRange {
        start: 8080,
        end: 8090,
    };
    let ctx = ValidationContext::new(Some(http), None);

    let listener = make_test_listener(fresh_id(1), "https", 8085, false);
    assert!(!ctx.is_listener_valid(&listener));
}

#[test]
fn test_duplicate_listener_detection() {
    let ctx = ValidationContext::new(None, None);
    let id1 = fresh_id(1);
    let id2 = fresh_id(2);

    let listeners = vec![
        make_test_listener(id1, "http", 8080, true),
        make_test_listener(id2, "http", 8080, true),
    ];

    let snapshot = make_test_snapshot(listeners);
    let errors = ctx.validate_snapshot(&snapshot);

    assert!(!errors.is_empty());
    assert!(errors
        .iter()
        .any(|e| matches!(e, ValidationError::DuplicateListener { .. })));
}

#[test]
fn test_duplicate_port_detection() {
    let ctx = ValidationContext::new(None, None);
    let id1 = fresh_id(1);
    let id2 = fresh_id(2);

    let listeners = vec![
        make_test_listener(id1, "http", 8080, true),
        make_test_listener(id2, "https", 8080, true),
    ];

    let snapshot = make_test_snapshot(listeners);
    let errors = ctx.validate_snapshot(&snapshot);

    assert!(!errors.is_empty());
    assert!(errors
        .iter()
        .any(|e| matches!(e, ValidationError::DuplicatePort { .. })));
}

#[test]
fn test_case_insensitive_protocol() {
    let ctx = ValidationContext::new(None, None);
    let id1 = fresh_id(1);
    let id2 = fresh_id(2);

    let listeners = vec![
        make_test_listener(id1, "HTTP", 8080, true),
        make_test_listener(id2, "http", 8080, true),
    ];

    let snapshot = make_test_snapshot(listeners);
    let errors = ctx.validate_snapshot(&snapshot);

    assert!(!errors.is_empty());
    assert!(errors
        .iter()
        .any(|e| matches!(e, ValidationError::DuplicateListener { .. })));
}

#[test]
fn test_validation_context_no_ranges() {
    let ctx = ValidationContext::new(None, None);

    let listener = make_test_listener(fresh_id(1), "http", 8080, true);
    assert!(ctx.is_listener_valid(&listener));

    let invalid_listener = make_test_listener(fresh_id(2), "http", 99999, true);
    assert!(!ctx.is_listener_valid(&invalid_listener));
}

#[test]
fn test_validation_context_only_http_range() {
    let http = PortRange {
        start: 8080,
        end: 8090,
    };
    let ctx = ValidationContext::new(Some(http), None);

    assert!(ctx.is_listener_valid(&make_test_listener(fresh_id(1), "http", 8085, true)));
    assert!(!ctx.is_listener_valid(&make_test_listener(fresh_id(2), "http", 9000, true)));
    assert!(!ctx.is_listener_valid(&make_test_listener(fresh_id(3), "https", 8085, true)));
}

#[test]
fn test_validation_context_only_https_range() {
    let https = PortRange {
        start: 8443,
        end: 8453,
    };
    let ctx = ValidationContext::new(None, Some(https));

    assert!(ctx.is_listener_valid(&make_test_listener(fresh_id(1), "https", 8445, true)));
    assert!(!ctx.is_listener_valid(&make_test_listener(fresh_id(2), "https", 9000, true)));
    assert!(!ctx.is_listener_valid(&make_test_listener(fresh_id(3), "http", 8445, true)));
}

#[test]
fn test_module_compiles() {
    // The crate's validation surface is linkable from outside.
}
