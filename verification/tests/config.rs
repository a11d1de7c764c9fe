use spooky_edge::config::{Backend, Config, HealthCheck, Listen, LoadBalancing, Log, RouteMatch,
    Routing, Tls, Upstream};
use spooky_edge::defaults::{get_default_address, get_default_interval, get_default_load_balancing,
    get_default_log, get_default_log_level, get_default_path, get_default_port,
    get_default_protocol, get_default_weight};
use spooky_edge::metrics::Metrics;
use spooky_edge::validator::validate;

fn sample_config() -> Config {
    Config {
        version: 1,
        listen: Listen {
            protocol: "http3".to_string(),
            port: 9889,
            address: "0.0.0.0".to_string(),
            tls: Tls { cert: "cert.pem".to_string(), key: "key.pem".to_string() },
        },
        upstream: vec![(
            "web".to_string(),
            Upstream {
                load_balancing: LoadBalancing {
                    lb_type: "round-robin".to_string(),
                    key: None,
                },
                backends: vec![Backend {
                    id: "b1".to_string(),
                    address: "10.0.1.100:8080".to_string(),
                    weight: 100,
                    health_check: HealthCheck {
                        path: "/health".to_string(),
                        interval: 5000,
                        timeout_ms: 1000,
                        failure_threshold: 3,
                        success_threshold: 2,
                        cooldown_ms: 30000,
                    },
                }],
                route: RouteMatch {
                    host: None,
                    path_prefix: Some("/".to_string()),
                    method: None,
                },
            },
        )],
        routing: Routing { rules: vec![] },
        load_balancing: None,
        log: Log { level: "info".to_string() },
    }
}

#[test]
fn sample_config_validates() {
    assert!(validate(&sample_config()));
}

#[test]
fn version_must_be_one() {
    let mut c = sample_config();
    c.version = 2;
    assert!(!validate(&c));
}

#[test]
fn protocol_must_be_http3() {
    let mut c = sample_config();
    c.listen.protocol = "http2".to_string();
    assert!(!validate(&c));
}

#[test]
fn port_must_be_in_range() {
    let mut c = sample_config();
    c.listen.port = 0;
    assert!(!validate(&c));
    c.listen.port = 65536;
    assert!(!validate(&c));
    c.listen.port = 65535;
    assert!(validate(&c));
}

#[test]
fn log_level_vocabulary_is_accepted_case_insensitively() {
    for level in [
        "whisper", "haunt", "spooky", "scream", "poltergeist", "silence", "trace", "debug",
        "info", "warn", "error", "off", "SPOOKY", "Warn",
    ] {
        let mut c = sample_config();
        c.log.level = level.to_string();
        assert!(validate(&c), "level {} should validate", level);
    }
    let mut c = sample_config();
    c.log.level = "loud".to_string();
    assert!(!validate(&c));
}

#[test]
fn upstreams_and_backends_must_exist() {
    let mut c = sample_config();
    c.upstream.clear();
    assert!(!validate(&c));

    let mut c = sample_config();
    c.upstream[0].1.backends.clear();
    assert!(!validate(&c));
}

#[test]
fn backend_fields_are_checked() {
    let mut c = sample_config();
    c.upstream[0].1.backends[0].weight = 0;
    assert!(!validate(&c));

    let mut c = sample_config();
    c.upstream[0].1.backends[0].address = "no-port".to_string();
    assert!(!validate(&c));

    let mut c = sample_config();
    c.upstream[0].1.backends[0].id = String::new();
    assert!(!validate(&c));

    let mut c = sample_config();
    c.upstream[0].1.backends[0].health_check.failure_threshold = 0;
    assert!(!validate(&c));

    let mut c = sample_config();
    c.upstream[0].1.backends[0].health_check.cooldown_ms = 0;
    assert!(!validate(&c));
}

#[test]
fn route_matcher_is_checked() {
    let mut c = sample_config();
    c.upstream[0].1.route.path_prefix = None;
    assert!(!validate(&c));
    c.upstream[0].1.route.host = Some("example.org".to_string());
    assert!(validate(&c));

    let mut c = sample_config();
    c.upstream[0].1.route.path_prefix = Some("a".to_string());
    assert!(!validate(&c));
}

#[test]
fn global_load_balancing_default_is_checked() {
    let mut c = sample_config();
    c.load_balancing = Some(LoadBalancing { lb_type: "rr".to_string(), key: None });
    assert!(validate(&c));
    c.load_balancing = Some(LoadBalancing { lb_type: "nope".to_string(), key: None });
    assert!(!validate(&c));
}

#[test]
fn defaults_match_the_documented_values() {
    assert_eq!(get_default_protocol(), "http3");
    assert_eq!(get_default_port(), 9889);
    assert_eq!(get_default_address(), "0.0.0.0");
    assert_eq!(get_default_weight(), 100);
    assert_eq!(get_default_path(), "/health");
    assert_eq!(get_default_interval(), 5000);
    assert_eq!(get_default_log_level(), "info");
    assert_eq!(get_default_load_balancing().lb_type, "round-robin");
    assert_eq!(get_default_log().level, "info");
}

#[test]
fn metrics_counters_move_one_at_a_time() {
    let mut m = Metrics::new();
    m.inc_total();
    m.inc_total();
    m.inc_success();
    m.inc_failure();
    m.inc_timeout();
    m.inc_backend_error();
    assert_eq!(m.requests_total, 2);
    assert_eq!(m.requests_success, 1);
    assert_eq!(m.requests_failure, 1);
    assert_eq!(m.backend_timeouts, 1);
    assert_eq!(m.backend_errors, 1);
}
