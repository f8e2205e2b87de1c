use shmqueue::{
    ConnectionType, Reader, ReaderConnectError, ReaderError, SharedMem, Writer, ENOENT,
};

#[test]
fn test_reader() {
    let mut shm = SharedMem::new();
    let mut writer = Writer::new("full-test", 20, &mut shm).unwrap();
    let mut reader = Reader::new("full-test", &mut shm).unwrap();

    // queue 1
    writer.ipc_push(&mut shm, b"111111111").unwrap();
    assert_eq!(reader.ipc_pop(&mut shm).unwrap(), Some(b"111111111".to_vec()));

    // queue 1
    writer.ipc_push(&mut shm, b"222222222").unwrap();
    assert_eq!(reader.ipc_pop(&mut shm).unwrap(), Some(b"222222222".to_vec()));

    // queue 2
    writer.ipc_push(&mut shm, b"333333333").unwrap();
    assert_eq!(reader.ipc_pop(&mut shm).unwrap(), Some(b"333333333".to_vec()));
}

#[test]
fn test_reader_without_writer() {
    // No writer has created the root object yet: opening the stream fails
    // with the OS's object-not-found code.
    let mut shm = SharedMem::new();
    let err = Reader::new("nobody-writes", &mut shm).unwrap_err();
    assert_eq!(
        err,
        ReaderError::ReaderConnectError(ReaderConnectError::ShmOpenError(ENOENT))
    );
}

#[test]
fn test_reader_before_first_worker() {
    // The root object exists, but the writer has published no worker yet.
    let mut shm = SharedMem::new();
    shm.open_or_create(ConnectionType::root("early").id(), 1000)
        .unwrap();
    let err = Reader::new("early", &mut shm).unwrap_err();
    assert_eq!(err, ReaderError::FailedToGetNextQueue);
}

#[test]
fn test_reader_outruns_writer() {
    // Draining the only segment and asking again: the writer has not rotated
    // yet, so the reader is told to retry later.
    let mut shm = SharedMem::new();
    let mut writer = Writer::new("outrun", 20, &mut shm).unwrap();
    let mut reader = Reader::new("outrun", &mut shm).unwrap();

    writer.ipc_push(&mut shm, b"only").unwrap();
    assert_eq!(reader.ipc_pop(&mut shm).unwrap(), Some(b"only".to_vec()));
    assert_eq!(
        reader.ipc_pop(&mut shm).unwrap_err(),
        ReaderError::FailedToGetNextQueue
    );
}

#[test]
fn test_end_to_end_rotation_order() {
    // Capacity 20 holds exactly two framed 9-byte messages, so the third
    // push rotates; the reader crosses the boundary in order.
    let mut shm = SharedMem::new();
    let mut writer = Writer::new("e2e", 20, &mut shm).unwrap();

    writer.ipc_push(&mut shm, b"111111111").unwrap();
    writer.ipc_push(&mut shm, b"222222222").unwrap();
    writer.ipc_push(&mut shm, b"333333333").unwrap();
    assert_eq!(writer.connections.len(), 2);

    let mut reader = Reader::new("e2e", &mut shm).unwrap();
    assert_eq!(reader.ipc_pop(&mut shm).unwrap(), Some(b"111111111".to_vec()));
    assert_eq!(reader.ipc_pop(&mut shm).unwrap(), Some(b"222222222".to_vec()));
    assert_eq!(reader.ipc_pop(&mut shm).unwrap(), Some(b"333333333".to_vec()));
}

#[test]
fn test_reader_error_from() {
    assert_eq!(
        ReaderError::from(ReaderConnectError::MmapError(12)),
        ReaderError::ReaderConnectError(ReaderConnectError::MmapError(12))
    );
}
