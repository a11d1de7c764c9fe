//! Verified core of an HTTP/3 reverse proxy: configuration model and
//! validation, backend health state, load-balancing strategies, the
//! HTTP/3-to-HTTP/2 request bridge, response assembly, the bounded
//! HTTP/2 upstream pool model, and the QUIC listener's connection-table,
//! drain and dispatch decisions.

pub mod bridge;
pub mod config;
pub mod defaults;
pub mod dispatch;
pub mod envelope;
pub mod h2pool;
pub mod health;
pub mod lb;
pub mod listener;
pub mod metrics;
pub mod response;
pub mod util;
pub mod validator;
