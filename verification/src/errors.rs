//! The gateway's error kinds and their HTTP classification.

use vstd::prelude::*;

verus! {

/// One error kind per failure class; infrastructure failures carry the
/// message of the underlying error as text.
#[derive(Debug, Clone)]
pub enum GatewayError {
    /// A resource is missing (404).
    NotFound(String),
    /// A request is malformed (400).
    BadRequest(String),
    /// A snapshot failed validation (400).
    Validation(String),
    /// A persistence failure (500).
    Database(String),
    /// A certificate-issuance failure (500).
    Acme(String),
    /// A TLS failure (500).
    Tls(String),
    /// A proxying failure (500).
    Proxy(String),
    /// A failure inside the serving engine (500).
    Pingora(String),
    /// An I/O failure (500).
    Io(String),
    /// A serialization failure (500).
    Serialization(String),
    /// Any other internal failure (500).
    Internal(String),
}

impl GatewayError {
    pub fn not_found(resource: &str) -> (r: Self)
        ensures
            r is NotFound && r->NotFound_0@ == resource@,
    {
        GatewayError::NotFound(resource.to_owned())
    }

    pub fn validation(msg: &str) -> (r: Self)
        ensures
            r is Validation && r->Validation_0@ == msg@,
    {
        GatewayError::Validation(msg.to_owned())
    }

    pub fn acme(msg: &str) -> (r: Self)
        ensures
            r is Acme && r->Acme_0@ == msg@,
    {
        GatewayError::Acme(msg.to_owned())
    }

    pub fn tls(msg: &str) -> (r: Self)
        ensures
            r is Tls && r->Tls_0@ == msg@,
    {
        GatewayError::Tls(msg.to_owned())
    }

    pub fn proxy(msg: &str) -> (r: Self)
        ensures
            r is Proxy && r->Proxy_0@ == msg@,
    {
        GatewayError::Proxy(msg.to_owned())
    }

    /// Whether the error is the caller's fault (a 4xx).
    pub fn is_client_error(&self) -> (r: bool)
        ensures
            r == (self is NotFound || self is BadRequest || self is Validation),
    {
        match self {
            GatewayError::NotFound(_) => true,
            GatewayError::BadRequest(_) => true,
            GatewayError::Validation(_) => true,
            _ => false,
        }
    }

    /// Whether the error is the server's fault (a 5xx); the complement of
    /// the client errors.
    pub fn is_server_error(&self) -> (r: bool)
        ensures
            r == !(self is NotFound || self is BadRequest || self is Validation),
    {
        !self.is_client_error()
    }

    /// The HTTP status code the error maps to.
    pub fn http_status_code(&self) -> (r: u16)
        ensures
            self is NotFound ==> r == 404,
            self is BadRequest || self is Validation ==> r == 400,
            !(self is NotFound || self is BadRequest || self is Validation) ==> r == 500,
    {
        match self {
            GatewayError::NotFound(_) => 404,
            GatewayError::BadRequest(_) => 400,
            GatewayError::Validation(_) => 400,
            _ => 500,
        }
    }
}

} // verus!
