use spooky_edge::h2pool::{H2Pool, PoolError};

#[test]
fn pool_limits_inflight_per_backend() {
    let mut pool = H2Pool::new(vec!["127.0.0.1:4433".to_string()], 1);

    let first = pool.try_acquire("127.0.0.1:4433").unwrap();
    assert_eq!(first, Some(0));

    // the backend is at its bound: no second slot until the first returns
    let second = pool.try_acquire("127.0.0.1:4433").unwrap();
    assert_eq!(second, None);

    pool.release(0);
    let third = pool.try_acquire("127.0.0.1:4433").unwrap();
    assert_eq!(third, Some(0));
}

#[test]
fn pool_rejects_unknown_backend() {
    let mut pool = H2Pool::new(vec!["127.0.0.1:12345".to_string()], 4);
    assert!(pool.has_backend("127.0.0.1:12345"));
    assert!(!pool.has_backend("127.0.0.1:9999"));

    match pool.try_acquire("127.0.0.1:9999") {
        Err(PoolError::UnknownBackend(b)) => assert_eq!(b, "127.0.0.1:9999"),
        _ => panic!("unexpected error"),
    }
}

#[test]
fn pool_floors_bound_and_dedups() {
    let mut pool = H2Pool::new(
        vec!["10.0.0.1:1".to_string(), "10.0.0.1:1".to_string(), "10.0.0.2:1".to_string()],
        0,
    );
    // bound floored at one; the duplicate address shares one counter
    assert_eq!(pool.try_acquire("10.0.0.1:1").unwrap(), Some(0));
    assert_eq!(pool.try_acquire("10.0.0.1:1").unwrap(), None);
    assert_eq!(pool.try_acquire("10.0.0.2:1").unwrap(), Some(1));
}

#[test]
fn pool_release_of_idle_slot_changes_nothing() {
    let mut pool = H2Pool::new(vec!["10.0.0.1:1".to_string()], 2);
    pool.release(0);
    pool.release(7);
    assert_eq!(pool.try_acquire("10.0.0.1:1").unwrap(), Some(0));
    assert_eq!(pool.try_acquire("10.0.0.1:1").unwrap(), Some(0));
    assert_eq!(pool.try_acquire("10.0.0.1:1").unwrap(), None);
}

#[test]
fn pool_error_messages() {
    let unknown = PoolError::UnknownBackend("x:1".to_string());
    assert_eq!(unknown.message(), "unknown backend: x:1");
    let send = PoolError::Send("broken pipe".to_string());
    assert_eq!(send.message(), "send failed: broken pipe");
}
