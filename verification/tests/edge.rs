use spooky_edge::config::{Backend, Config, HealthCheck, Listen, LoadBalancing, Log, RouteMatch,
    Routing, Tls, Upstream};
use spooky_edge::health::HealthTransition;
use spooky_edge::dispatch::{DispatchPlan, UpstreamOutcome};
use spooky_edge::envelope::RequestEnvelope;
use spooky_edge::listener::{PacketDecision, PacketKind, PeerAddr, QUICListener, QuicSettings,
    health_probe_outcome, build_health_probe, DRAIN_TIMEOUT_MS};

fn backend(id: &str, address: &str) -> Backend {
    Backend {
        id: id.to_string(),
        address: address.to_string(),
        weight: 100,
        health_check: HealthCheck {
            path: "/health".to_string(),
            interval: 5000,
            timeout_ms: 1000,
            failure_threshold: 3,
            success_threshold: 1,
            cooldown_ms: 1000,
        },
    }
}

fn upstream(prefix: &str, backends: Vec<Backend>) -> Upstream {
    Upstream {
        load_balancing: LoadBalancing { lb_type: "round-robin".to_string(), key: None },
        backends,
        route: RouteMatch {
            host: None,
            path_prefix: Some(prefix.to_string()),
            method: None,
        },
    }
}

fn config(upstreams: Vec<(String, Upstream)>) -> Config {
    Config {
        version: 1,
        listen: Listen {
            protocol: "http3".to_string(),
            port: 9889,
            address: "0.0.0.0".to_string(),
            tls: Tls { cert: "cert.pem".to_string(), key: "key.pem".to_string() },
        },
        upstream: upstreams,
        routing: Routing { rules: vec![] },
        load_balancing: None,
        log: Log { level: "info".to_string() },
    }
}

fn peer(n: u16) -> PeerAddr {
    PeerAddr { ip: 0x7f000001, port: n }
}

fn headers_for(method: &str, path: &str) -> Vec<(Vec<u8>, Vec<u8>)> {
    vec![
        (b":method".to_vec(), method.as_bytes().to_vec()),
        (b":path".to_vec(), path.as_bytes().to_vec()),
        (b":authority".to_vec(), b"example.org".to_vec()),
    ]
}

#[test]
fn happy_path_forwards_and_counts_one_success() {
    let cfg = config(vec![(
        "web".to_string(),
        upstream("/", vec![backend("b1", "127.0.0.1:8443")]),
    )]);
    let mut l = QUICListener::new(&cfg).unwrap();
    let c = l.accept_connection(vec![1, 2, 3], peer(1000), 0);

    l.on_headers(c, 0, headers_for("GET", "/"), 1);
    assert_eq!(l.metrics.requests_total, 1);

    let (plan, transition) = l.on_finished(c, 0, 2).unwrap();
    assert!(transition.is_none());
    let (upstream_idx, backend_idx, address) = match plan {
        DispatchPlan::Forward { upstream, backend, address, request } => {
            assert_eq!(request.method, b"GET".to_vec());
            assert_eq!(request.uri, b"http://127.0.0.1:8443/".to_vec());
            (upstream, backend, address)
        },
        DispatchPlan::Respond { status, .. } => panic!("expected a forward, got {}", status),
    };
    assert_eq!(address, "127.0.0.1:8443");

    let outcome = UpstreamOutcome::Response {
        status: 200,
        headers: vec![(b"content-type".to_vec(), b"text/plain".to_vec())],
        body: b"ok".to_vec(),
    };
    let (resp, transition) = l.complete(upstream_idx, backend_idx, outcome, 3);
    assert!(transition.is_none());
    assert_eq!(resp.body, b"ok".to_vec());
    assert_eq!(resp.headers[0], (b":status".to_vec(), b"200".to_vec()));
    assert_eq!(l.metrics.requests_success, 1);
    assert_eq!(l.metrics.requests_failure, 0);
}

#[test]
fn unknown_route_yields_500() {
    let cfg = config(vec![
        ("a".to_string(), upstream("/a", vec![backend("b1", "127.0.0.1:1")])),
        ("b".to_string(), upstream("/b", vec![backend("b2", "127.0.0.1:2")])),
    ]);
    let mut l = QUICListener::new(&cfg).unwrap();
    let c = l.accept_connection(vec![9], peer(1), 0);
    l.on_headers(c, 0, headers_for("GET", "/c"), 0);
    let (plan, _) = l.on_finished(c, 0, 0).unwrap();
    match plan {
        DispatchPlan::Respond { status, body } => {
            assert_eq!(status, 500);
            assert_eq!(body, b"no matching route\n".to_vec());
        },
        _ => panic!("expected a direct response"),
    }
}

#[test]
fn no_healthy_backend_yields_503_after_three_failures() {
    let cfg = config(vec![(
        "web".to_string(),
        upstream("/", vec![backend("b1", "127.0.0.1:9")]),
    )]);
    let mut l = QUICListener::new(&cfg).unwrap();
    let c = l.accept_connection(vec![4], peer(2), 0);

    // three requests, each failing at the transport, mark the backend down
    for n in 0..3u64 {
        l.on_headers(c, n, headers_for("GET", "/"), n);
        let (plan, _) = l.on_finished(c, n, n).unwrap();
        let (ui, bi) = match plan {
            DispatchPlan::Forward { upstream, backend, .. } => (upstream, backend),
            _ => panic!("expected a forward"),
        };
        let (resp, _) = l.complete(ui, bi, UpstreamOutcome::Transport, n);
        assert_eq!(resp.headers[0], (b":status".to_vec(), b"502".to_vec()));
        assert_eq!(resp.body, b"upstream error\n".to_vec());
    }
    assert_eq!(l.metrics.requests_failure, 3);
    assert_eq!(l.metrics.backend_errors, 3);

    // the fourth request is refused without any send
    l.on_headers(c, 9, headers_for("GET", "/"), 10);
    let (plan, _) = l.on_finished(c, 9, 10).unwrap();
    match plan {
        DispatchPlan::Respond { status, body } => {
            assert_eq!(status, 503);
            assert_eq!(body, b"no healthy servers\n".to_vec());
        },
        _ => panic!("expected a direct response"),
    }
}

#[test]
fn timeout_yields_503_and_timeout_counter() {
    let cfg = config(vec![(
        "web".to_string(),
        upstream("/", vec![backend("b1", "127.0.0.1:9")]),
    )]);
    let mut l = QUICListener::new(&cfg).unwrap();
    let c = l.accept_connection(vec![4], peer(2), 0);
    l.on_headers(c, 0, headers_for("GET", "/"), 0);
    let (plan, _) = l.on_finished(c, 0, 0).unwrap();
    let (ui, bi) = match plan {
        DispatchPlan::Forward { upstream, backend, .. } => (upstream, backend),
        _ => panic!("expected a forward"),
    };
    let (resp, _) = l.complete(ui, bi, UpstreamOutcome::Timeout, 1);
    assert_eq!(resp.headers[0], (b":status".to_vec(), b"503".to_vec()));
    assert_eq!(resp.body, b"upstream timeout\n".to_vec());
    assert_eq!(l.metrics.backend_timeouts, 1);
    assert_eq!(l.metrics.requests_failure, 1);
    assert_eq!(l.metrics.requests_success, 0);
}

#[test]
fn empty_method_or_path_yields_400() {
    let cfg = config(vec![(
        "web".to_string(),
        upstream("/", vec![backend("b1", "127.0.0.1:9")]),
    )]);
    let mut l = QUICListener::new(&cfg).unwrap();
    let c = l.accept_connection(vec![4], peer(2), 0);
    l.on_headers(c, 0, vec![(b":method".to_vec(), b"GET".to_vec())], 0);
    let (plan, _) = l.on_finished(c, 0, 0).unwrap();
    match plan {
        DispatchPlan::Respond { status, body } => {
            assert_eq!(status, 400);
            assert_eq!(body, b"invalid request\n".to_vec());
        },
        _ => panic!("expected a direct response"),
    }
}

#[test]
fn longest_prefix_wins_and_host_constrains() {
    let cfg = config(vec![
        ("short".to_string(), upstream("/a", vec![backend("b1", "127.0.0.1:1")])),
        ("long".to_string(), upstream("/a/b", vec![backend("b2", "127.0.0.1:2")])),
    ]);
    let mut l = QUICListener::new(&cfg).unwrap();
    let c = l.accept_connection(vec![4], peer(2), 0);
    l.on_headers(c, 0, headers_for("GET", "/a/b/c"), 0);
    let (plan, _) = l.on_finished(c, 0, 0).unwrap();
    match plan {
        DispatchPlan::Forward { address, .. } => assert_eq!(address, "127.0.0.1:2"),
        _ => panic!("expected a forward"),
    }
}

#[test]
fn packet_routing_matches_exact_prefix_then_peer() {
    let cfg = config(vec![(
        "web".to_string(),
        upstream("/", vec![backend("b1", "127.0.0.1:9")]),
    )]);
    let mut l = QUICListener::new(&cfg).unwrap();
    let c = l.accept_connection(vec![1, 2, 3, 4, 5, 6, 7, 8], peer(5), 0);

    // exact match
    let d = l.classify_packet(PacketKind::Short, &[1, 2, 3, 4, 5, 6, 7, 8], peer(99));
    assert_eq!(d, PacketDecision::Existing { index: c });

    // prefix match on a short-header id longer than eight bytes
    let d = l.classify_packet(PacketKind::Short, &[1, 2, 3, 4, 5, 6, 7, 8, 9], peer(99));
    assert_eq!(d, PacketDecision::Existing { index: c });

    // peer fallback
    let d = l.classify_packet(PacketKind::Short, &[9, 9, 9], peer(5));
    assert_eq!(d, PacketDecision::Existing { index: c });

    // unknown initial opens a connection; anything else is dropped
    let d = l.classify_packet(PacketKind::Initial, &[9, 9, 9], peer(99));
    assert_eq!(d, PacketDecision::AcceptNew);
    let d = l.classify_packet(PacketKind::Short, &[9, 9, 9], peer(99));
    assert_eq!(d, PacketDecision::Drop);
    let d = l.classify_packet(PacketKind::VersionNegotiation, &[9, 9, 9], peer(99));
    assert_eq!(d, PacketDecision::Negotiate);
}

#[test]
fn draining_refuses_new_connections_and_completes_after_deadline() {
    let cfg = config(vec![(
        "web".to_string(),
        upstream("/", vec![backend("b1", "127.0.0.1:9")]),
    )]);
    let mut l = QUICListener::new(&cfg).unwrap();
    let c = l.accept_connection(vec![1, 2], peer(5), 0);

    l.start_draining(1000);

    // new initials are dropped; the existing connection still routes
    let d = l.classify_packet(PacketKind::Initial, &[9, 9], peer(99));
    assert_eq!(d, PacketDecision::Drop);
    let d = l.classify_packet(PacketKind::Short, &[1, 2], peer(5));
    assert_eq!(d, PacketDecision::Existing { index: c });

    // before the deadline the drain is not complete
    assert!(!l.drain_complete(1000 + DRAIN_TIMEOUT_MS - 1));
    // at the deadline the table is cleared by force and the drain completes
    assert!(l.drain_complete(1000 + DRAIN_TIMEOUT_MS));
    assert!(l.drain_complete(1000 + DRAIN_TIMEOUT_MS + 1));
}

#[test]
fn envelope_parses_pseudo_headers_last_wins() {
    let headers = vec![
        (b":method".to_vec(), b"GET".to_vec()),
        (b":method".to_vec(), b"POST".to_vec()),
        (b":path".to_vec(), b"/p".to_vec()),
        (b"host".to_vec(), b"h1".to_vec()),
        (b":authority".to_vec(), b"h2".to_vec()),
        (b"x-extra".to_vec(), b"1".to_vec()),
    ];
    let env = RequestEnvelope::from_headers(headers.clone(), 42);
    assert_eq!(env.method, "POST");
    assert_eq!(env.path, "/p");
    assert_eq!(env.authority, Some("h2".to_string()));
    assert_eq!(env.headers, headers);
    assert!(env.body.is_empty());
    assert_eq!(env.start_ms, 42);
}

#[test]
fn stream_body_accumulates_until_finished() {
    let cfg = config(vec![(
        "web".to_string(),
        upstream("/", vec![backend("b1", "127.0.0.1:9")]),
    )]);
    let mut l = QUICListener::new(&cfg).unwrap();
    let c = l.accept_connection(vec![1], peer(5), 0);
    l.on_headers(c, 0, headers_for("POST", "/"), 0);
    assert!(l.on_data(c, 0, b"ab"));
    assert!(l.on_data(c, 0, b"cd"));
    assert!(!l.on_data(c, 7, b"zz"));
    let (plan, _) = l.on_finished(c, 0, 1).unwrap();
    match plan {
        DispatchPlan::Forward { request, .. } => assert_eq!(request.body, b"abcd".to_vec()),
        _ => panic!("expected a forward"),
    }
    // the stream is gone after it finished
    assert!(l.on_finished(c, 0, 2).is_none());
}

#[test]
fn reset_discards_the_stream() {
    let cfg = config(vec![(
        "web".to_string(),
        upstream("/", vec![backend("b1", "127.0.0.1:9")]),
    )]);
    let mut l = QUICListener::new(&cfg).unwrap();
    let c = l.accept_connection(vec![1], peer(5), 0);
    l.on_headers(c, 0, headers_for("GET", "/"), 0);
    l.on_reset(c, 0);
    assert!(l.on_finished(c, 0, 1).is_none());
}

#[test]
fn quic_settings_disable_early_data_and_migration() {
    let s = QuicSettings::new();
    assert!(!s.enable_early_data);
    assert!(s.disable_active_migration);
    assert!(!s.verify_peer);
    assert_eq!(s.max_idle_timeout_ms, 5000);
    assert_eq!(s.max_udp_payload_size, 1350);
    assert_eq!(s.initial_max_streams_bidi, 100);
}

#[test]
fn health_probe_and_outcome() {
    assert!(health_probe_outcome(Some(200)));
    assert!(health_probe_outcome(Some(299)));
    assert!(!health_probe_outcome(Some(300)));
    assert!(!health_probe_outcome(Some(503)));
    assert!(!health_probe_outcome(None));

    let probe = build_health_probe("127.0.0.1:9", "").unwrap();
    assert_eq!(probe.method, b"GET".to_vec());
    assert_eq!(probe.uri, b"http://127.0.0.1:9/".to_vec());
    assert!(probe.body.is_empty());

    let probe = build_health_probe("127.0.0.1:9", "/health").unwrap();
    assert_eq!(probe.uri, b"http://127.0.0.1:9/health".to_vec());
}

#[test]
fn probe_marks_drive_health_transitions() {
    let cfg = config(vec![(
        "web".to_string(),
        upstream("/", vec![backend("b1", "127.0.0.1:9")]),
    )]);
    let mut l = QUICListener::new(&cfg).unwrap();
    assert_eq!(l.mark_health(0, 0, false, 0), None);
    assert_eq!(l.mark_health(0, 0, false, 0), None);
    assert_eq!(l.mark_health(0, 0, false, 0), Some(HealthTransition::BecameUnhealthy));
    // during the cooldown a success is not counted
    assert_eq!(l.mark_health(0, 0, true, 500), None);
    // after the cooldown, one success (threshold one) brings it back
    assert_eq!(l.mark_health(0, 0, true, 1001), Some(HealthTransition::BecameHealthy));
}
