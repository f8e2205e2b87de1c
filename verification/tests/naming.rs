use shmqueue::ConnectionType;

#[test]
fn test_root_name() {
    assert_eq!(ConnectionType::root("pfx").id().as_slice(), b"/pfx-root");
}

#[test]
fn test_worker_names() {
    assert_eq!(
        ConnectionType::worker(0, "pfx").id().as_slice(),
        b"/pfx-worker-0"
    );
    assert_eq!(
        ConnectionType::worker(12, "pfx").id().as_slice(),
        b"/pfx-worker-12"
    );
    assert_eq!(
        ConnectionType::worker(1034, "long-prefix").id().as_slice(),
        b"/long-prefix-worker-1034"
    );
    assert_eq!(
        ConnectionType::worker_bytes(7, b"pfx").id().as_slice(),
        b"/pfx-worker-7"
    );
}

#[test]
fn test_exact_name() {
    assert_eq!(
        ConnectionType::exact(b"/published-worker-3").id().as_slice(),
        b"/published-worker-3"
    );
}

#[test]
fn test_dummy_and_empty_names() {
    assert_eq!(
        ConnectionType::dummy("writer-success").id().as_slice(),
        b"/writer-success"
    );
    assert!(ConnectionType::empty().id().is_empty());
}
