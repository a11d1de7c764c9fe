//! Configuration data model: what the listener, the pools and the load
//! balancers are built from. All fields are plain values; reading the file
//! and decoding it stay outside the library.

use vstd::prelude::*;

verus! {

/// Paths of the PEM certificate and private key handed to the QUIC layer.
#[derive(Clone, Debug)]
pub struct Tls {
    pub cert: String,
    pub key: String,
}

/// Listen endpoint of the proxy.
#[derive(Clone, Debug)]
pub struct Listen {
    pub protocol: String,
    pub port: u32,
    pub address: String,
    pub tls: Tls,
}

/// Per-backend probe settings.
#[derive(Clone, Debug)]
pub struct HealthCheck {
    pub path: String,
    pub interval: u64,
    pub timeout_ms: u64,
    pub failure_threshold: u32,
    pub success_threshold: u32,
    pub cooldown_ms: u64,
}

/// One upstream server.
#[derive(Clone, Debug)]
pub struct Backend {
    pub id: String,
    pub address: String,
    pub weight: u32,
    pub health_check: HealthCheck,
}

impl HealthCheck {
    /// A copy this library can reason about: equal to the original.
    pub fn duplicate(&self) -> (r: HealthCheck)
        ensures
            r == *self,
    {
        HealthCheck {
            path: self.path.clone(),
            interval: self.interval,
            timeout_ms: self.timeout_ms,
            failure_threshold: self.failure_threshold,
            success_threshold: self.success_threshold,
            cooldown_ms: self.cooldown_ms,
        }
    }
}

impl Backend {
    /// A copy this library can reason about: equal to the original.
    pub fn duplicate(&self) -> (r: Backend)
        ensures
            r == *self,
    {
        Backend {
            id: self.id.clone(),
            address: self.address.clone(),
            weight: self.weight,
            health_check: self.health_check.duplicate(),
        }
    }
}

/// Route constraint of an upstream: host equality and/or path prefix.
#[derive(Clone, Debug)]
pub struct RouteMatch {
    pub host: Option<String>,
    pub path_prefix: Option<String>,
    pub method: Option<String>,
}

/// A named routing rule.
#[derive(Clone, Debug)]
pub struct RouteRule {
    pub matcher: RouteMatch,
    pub upstream: String,
}

/// The rule table.
#[derive(Clone, Debug)]
pub struct Routing {
    pub rules: Vec<RouteRule>,
}

/// Selection strategy choice, by name.
#[derive(Clone, Debug)]
pub struct LoadBalancing {
    pub lb_type: String,
    pub key: Option<String>,
}

/// Log settings.
#[derive(Clone, Debug)]
pub struct Log {
    pub level: String,
}

/// One pool of backends with its strategy and route constraint.
#[derive(Clone, Debug)]
pub struct Upstream {
    pub load_balancing: LoadBalancing,
    pub backends: Vec<Backend>,
    pub route: RouteMatch,
}

/// The whole configuration. Upstreams are kept in declaration order under
/// their names.
#[derive(Clone, Debug)]
pub struct Config {
    pub version: u32,
    pub listen: Listen,
    pub upstream: Vec<(String, Upstream)>,
    pub routing: Routing,
    pub load_balancing: Option<LoadBalancing>,
    pub log: Log,
}

} // verus!
