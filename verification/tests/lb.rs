use spooky_edge::config::{Backend, HealthCheck};
use spooky_edge::health::BackendPool;
use spooky_edge::lb::{hash64, ConsistentHash, LoadBalancing, Random, RoundRobin};

fn backend(id: &str, address: &str, weight: u32) -> Backend {
    Backend {
        id: id.to_string(),
        address: address.to_string(),
        weight,
        health_check: HealthCheck {
            path: "/health".to_string(),
            interval: 1000,
            timeout_ms: 1000,
            failure_threshold: 3,
            success_threshold: 1,
            cooldown_ms: 0,
        },
    }
}

#[test]
fn round_robin_cycles() {
    let pool = BackendPool::new(vec![
        backend("a", "127.0.0.1:1", 1),
        backend("b", "127.0.0.1:2", 1),
        backend("c", "127.0.0.1:3", 1),
    ]);
    let mut rr = RoundRobin::new();

    let picks: Vec<usize> = (0..6).filter_map(|_| rr.pick(&pool)).collect();
    assert_eq!(picks, vec![0, 1, 2, 0, 1, 2]);
}

#[test]
fn consistent_hash_is_stable() {
    let pool = BackendPool::new(vec![
        backend("a", "10.0.0.1:1", 1),
        backend("b", "10.0.0.2:1", 1),
        backend("c", "10.0.0.3:1", 1),
    ]);

    let ch = ConsistentHash::new(16);
    let first = ch.pick("user:123", &pool);
    let second = ch.pick("user:123", &pool);
    assert_eq!(first, second);
}

#[test]
fn unhealthy_backends_are_skipped() {
    let mut pool = BackendPool::new(vec![
        backend("a", "10.0.0.1:1", 1),
        backend("b", "10.0.0.2:1", 1),
    ]);

    pool.mark_failure(0, 0);
    pool.mark_failure(0, 0);
    pool.mark_failure(0, 0);

    let mut rr = RoundRobin::new();
    let pick = rr.pick(&pool).unwrap();
    assert_eq!(pick, 1);
}

#[test]
fn load_balancing_from_config() {
    assert!(LoadBalancing::from_config("round-robin").is_ok());
    assert!(LoadBalancing::from_config("consistent-hash").is_ok());
    assert!(LoadBalancing::from_config("random").is_ok());
    assert!(LoadBalancing::from_config("unknown").is_err());
}

#[test]
fn no_healthy_backends_returns_none() {
    let mut pool = BackendPool::new(vec![backend("a", "10.0.0.1:1", 1)]);
    pool.mark_failure(0, 0);
    pool.mark_failure(0, 0);
    pool.mark_failure(0, 0);

    let mut rr = RoundRobin::new();
    assert!(rr.pick(&pool).is_none());
}

#[test]
fn backend_recovers_after_success_threshold() {
    let mut pool = BackendPool::new(vec![backend("a", "10.0.0.1:1", 1)]);
    pool.mark_failure(0, 0);
    pool.mark_failure(0, 0);
    pool.mark_failure(0, 0);

    assert!(pool.healthy_indices().is_empty());
    pool.mark_success(0, 0);
    assert_eq!(pool.healthy_indices(), vec![0]);
}

#[test]
fn from_config_ignores_case_and_whitespace() {
    assert!(LoadBalancing::from_config("  Round-Robin  ").is_ok());
    assert!(LoadBalancing::from_config("RR").is_ok());
    assert!(LoadBalancing::from_config("Consistent_Hash").is_ok());
    assert!(LoadBalancing::from_config("").is_err());
}

#[test]
fn random_picks_a_healthy_backend() {
    let mut pool = BackendPool::new(vec![
        backend("a", "10.0.0.1:1", 1),
        backend("b", "10.0.0.2:1", 1),
    ]);
    pool.mark_failure(1, 0);
    pool.mark_failure(1, 0);
    pool.mark_failure(1, 0);
    let mut random = Random::new();
    for _ in 0..32 {
        assert_eq!(random.pick(&pool), Some(0));
    }
}

#[test]
fn hash64_matches_fnv1a() {
    // FNV-1a reference values: the offset basis for empty input, and "a".
    assert_eq!(hash64(b""), 0xcbf29ce484222325);
    assert_eq!(hash64(b"a"), 0xaf63dc4c8601ec8c);
}

#[test]
fn round_robin_skips_cursor_positions_of_unhealthy() {
    let mut pool = BackendPool::new(vec![
        backend("a", "10.0.0.1:1", 1),
        backend("b", "10.0.0.2:1", 1),
        backend("c", "10.0.0.3:1", 1),
    ]);
    for _ in 0..3 {
        pool.mark_failure(1, 0);
    }
    // healthy list is [0, 2]; the cursor walks it in order
    let mut rr = RoundRobin::new();
    let picks: Vec<usize> = (0..4).filter_map(|_| rr.pick(&pool)).collect();
    assert_eq!(picks, vec![0, 2, 0, 2]);
}

#[test]
fn consistent_hash_mostly_stable_when_backend_leaves() {
    let full = BackendPool::new(vec![
        backend("a", "10.0.0.1:1", 1),
        backend("b", "10.0.0.2:1", 1),
        backend("c", "10.0.0.3:1", 1),
    ]);
    let reduced = BackendPool::new(vec![
        backend("a", "10.0.0.1:1", 1),
        backend("c", "10.0.0.3:1", 1),
    ]);
    let ch = ConsistentHash::new(128);

    let addr_of = |pool: &BackendPool, idx: usize| -> String {
        pool.address(idx).unwrap().to_string()
    };

    let mut retained = 0usize;
    let mut moved_or_b = 0usize;
    for n in 1..=1000u32 {
        let key = format!("user:{}", n);
        let before = addr_of(&full, ch.pick(&key, &full).unwrap());
        let after = addr_of(&reduced, ch.pick(&key, &reduced).unwrap());
        if before == after {
            retained += 1;
        } else {
            moved_or_b += 1;
        }
    }
    assert_eq!(retained + moved_or_b, 1000);
    // at least two thirds of the keys keep their assignment
    assert!(retained * 3 >= 2 * 1000);
}
