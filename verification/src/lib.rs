//! Core logic of a reverse-proxy gateway: configuration snapshots, their
//! validation, compiled runtime state, route matching, upstream selection,
//! publication versioning, and the decision logic of the node and health
//! loops.

pub mod canon;
pub mod checks;
pub mod codec;
pub mod config;
pub mod errors;
pub mod health;
pub mod ids;
pub mod json;
pub mod matchexpr;
pub mod matcher;
pub mod metrics;
pub mod models;
pub mod node;
pub mod proxy;
pub mod publication;
pub mod runtime;
pub mod selector;
pub mod store;
pub mod text;
pub mod tls;
pub mod validation;

pub use config::PortRange;
