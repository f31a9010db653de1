use gateway_core::errors::GatewayError;

#[test]
fn test_gateway_error_http_status_codes() {
    assert_eq!(
        GatewayError::NotFound("test".to_string()).http_status_code(),
        404
    );
    assert_eq!(
        GatewayError::BadRequest("test".to_string()).http_status_code(),
        400
    );
    assert_eq!(
        GatewayError::Validation("test".to_string()).http_status_code(),
        400
    );
    assert_eq!(
        GatewayError::Database("test".to_string()).http_status_code(),
        500
    );
    assert_eq!(GatewayError::Acme("test".to_string()).http_status_code(), 500);
    assert_eq!(GatewayError::Tls("test".to_string()).http_status_code(), 500);
    assert_eq!(GatewayError::Proxy("test".to_string()).http_status_code(), 500);
    assert_eq!(
        GatewayError::Pingora("test".to_string()).http_status_code(),
        500
    );
}

#[test]
fn test_gateway_error_classification() {
    assert!(GatewayError::NotFound("test".to_string()).is_client_error());
    assert!(GatewayError::BadRequest("test".to_string()).is_client_error());
    assert!(GatewayError::Validation("test".to_string()).is_client_error());
    assert!(!GatewayError::Database("test".to_string()).is_client_error());
    assert!(!GatewayError::Acme("test".to_string()).is_client_error());
    assert!(!GatewayError::Tls("test".to_string()).is_client_error());
    assert!(!GatewayError::Proxy("test".to_string()).is_client_error());
    assert!(!GatewayError::Pingora("test".to_string()).is_client_error());
}

#[test]
fn test_gateway_error_is_server_error() {
    assert!(!GatewayError::NotFound("test".to_string()).is_server_error());
    assert!(!GatewayError::BadRequest("test".to_string()).is_server_error());
    assert!(!GatewayError::Validation("test".to_string()).is_server_error());
    assert!(GatewayError::Database("test".to_string()).is_server_error());
    assert!(GatewayError::Acme("test".to_string()).is_server_error());
    assert!(GatewayError::Tls("test".to_string()).is_server_error());
    assert!(GatewayError::Proxy("test".to_string()).is_server_error());
    assert!(GatewayError::Pingora("test".to_string()).is_server_error());
}

#[test]
fn constructors_build_the_named_variants() {
    assert!(matches!(
        GatewayError::not_found("listener 123"),
        GatewayError::NotFound(_)
    ));
    assert!(matches!(
        GatewayError::validation("invalid port"),
        GatewayError::Validation(_)
    ));
    assert!(matches!(
        GatewayError::acme("challenge failed"),
        GatewayError::Acme(_)
    ));
    assert!(matches!(
        GatewayError::tls("certificate expired"),
        GatewayError::Tls(_)
    ));
    assert!(matches!(
        GatewayError::proxy("upstream unavailable"),
        GatewayError::Proxy(_)
    ));
}
