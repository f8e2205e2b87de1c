use shmqueue::{
    ConnectionType, SharedMem, Writer, WriterConnectError, WriterConnection,
    WriterDisconnectError, WriterError, EINVAL,
};

const QUEUE_SIZE: usize = 20;

#[test]
fn test_queue_provisioning() {
    let mut shm = SharedMem::new();
    let mut writer = Writer::new("writer", QUEUE_SIZE, &mut shm).unwrap();

    writer.ipc_push(&mut shm, b"111111111").unwrap();
    writer.ipc_push(&mut shm, b"222222222").unwrap();
    writer.ipc_push(&mut shm, b"333333333").unwrap();
    writer.ipc_push(&mut shm, b"444444444").unwrap();

    let root_handle = writer.root_connection.handle;
    assert_eq!(
        shm.messages_at(root_handle),
        vec![b"/writer-worker-0".to_vec(), b"/writer-worker-1".to_vec()]
    );

    let queue1 = writer.connections[0].handle;
    assert_eq!(
        shm.messages_at(queue1),
        vec![b"111111111".to_vec(), b"222222222".to_vec()]
    );

    let queue2 = writer.connections[1].handle;
    assert_eq!(
        shm.messages_at(queue2),
        vec![b"333333333".to_vec(), b"444444444".to_vec()]
    );
}

#[test]
fn test_cleanup() {
    let mut shm = SharedMem::new();
    let mut writer = Writer::new("writer-2", QUEUE_SIZE, &mut shm).unwrap();

    writer.ipc_push(&mut shm, b"111111111").unwrap();
    writer.ipc_push(&mut shm, b"222222222").unwrap();
    writer.ipc_push(&mut shm, b"333333333").unwrap();
    writer.ipc_push(&mut shm, b"444444444").unwrap();

    // manually mark writer queues as stale
    let handles: Vec<usize> = writer.connections.iter().map(|c| c.handle).collect();
    for handle in handles {
        shm.set_done_reading_at(handle);
    }

    writer.cleanup(&mut shm).unwrap();

    assert!(!writer.connections[0].connected);
    assert!(!writer.connections[1].connected);

    // check how they are ignored on the next cleanup
    writer.cleanup(&mut shm).unwrap();
    assert!(!writer.connections[0].connected);
    assert!(!writer.connections[1].connected);
}

#[test]
fn test_invalid_name() {
    let mut shm = SharedMem::new();
    let connection_type = ConnectionType::empty();

    let err = WriterConnection::new(connection_type, 10, &mut shm).unwrap_err();

    assert_eq!(err, WriterConnectError::ShmOpenError(EINVAL));
}

#[test]
fn test_rotation_reuses_nothing() {
    // Rotation publishes exactly one new name per overflow, in index order.
    let mut shm = SharedMem::new();
    let mut writer = Writer::new("rot", 8, &mut shm).unwrap();
    for _ in 0..5 {
        writer.ipc_push(&mut shm, b"abcdef").unwrap();
    }
    let root_handle = writer.root_connection.handle;
    assert_eq!(
        shm.messages_at(root_handle),
        vec![
            b"/rot-worker-0".to_vec(),
            b"/rot-worker-1".to_vec(),
            b"/rot-worker-2".to_vec(),
            b"/rot-worker-3".to_vec(),
            b"/rot-worker-4".to_vec(),
        ]
    );
    assert_eq!(writer.connections.len(), 5);
}

#[test]
fn test_teardown_unlinks_everything() {
    let mut shm = SharedMem::new();
    let mut writer = Writer::new("gone", QUEUE_SIZE, &mut shm).unwrap();
    writer.ipc_push(&mut shm, b"111111111").unwrap();
    writer.ipc_push(&mut shm, b"222222222").unwrap();
    writer.ipc_push(&mut shm, b"333333333").unwrap();
    writer.teardown(&mut shm).unwrap();
    assert_eq!(shm.find(&b"/gone-root".to_vec()), None);
    assert_eq!(shm.find(&b"/gone-worker-0".to_vec()), None);
    assert_eq!(shm.find(&b"/gone-worker-1".to_vec()), None);
}

#[test]
fn test_writer_error_from() {
    assert_eq!(
        WriterError::from(WriterConnectError::FtruncateError(5)),
        WriterError::ConnectError(WriterConnectError::FtruncateError(5))
    );
    assert_eq!(
        WriterError::from(WriterDisconnectError::MunMapError(9)),
        WriterError::DisconnectError(WriterDisconnectError::MunMapError(9))
    );
}
