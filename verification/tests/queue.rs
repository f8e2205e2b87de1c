use shmqueue::Queue;

#[test]
fn test_push_pop_round_trip() {
    // Every payload length the capacity admits survives a push/pop round trip.
    for len in 1..=9usize {
        let mut q = Queue::new(10);
        let payload: Vec<u8> = (0..len as u8).map(|b| b.wrapping_add(65)).collect();
        assert!(q.can_push(&payload));
        q.push(&payload);
        assert_eq!(q.pop(), Some(payload));
    }
}

#[test]
fn test_can_push_boundary() {
    let mut q = Queue::new(10);
    assert!(q.can_push(&[7u8; 9]));
    assert!(!q.can_push(&[7u8; 10]));
    q.push(&[7u8; 4]);
    assert!(q.can_push(&[8u8; 4]));
    assert!(!q.can_push(&[8u8; 5]));
}

#[test]
fn test_frame_count() {
    // Three frames of five payload bytes each need 18 of the 20 bytes.
    let mut q = Queue::new(20);
    q.push(b"aaaaa");
    q.push(b"bbbbb");
    q.push(b"ccccc");
    let messages = q.messages();
    assert_eq!(messages.len(), 3);
    assert_eq!(
        messages,
        vec![b"aaaaa".to_vec(), b"bbbbb".to_vec(), b"ccccc".to_vec()]
    );
}

#[test]
fn test_done_writing_handshake() {
    let mut q = Queue::new(10);
    q.push(b"abc");
    assert_eq!(q.pop(), Some(b"abc".to_vec()));
    // Nothing left and the writer is not finished: no flag moves.
    assert_eq!(q.pop(), None);
    assert!(!q.done_reading);
    // Once the writer is finished, the pop that finds nothing completes the
    // handshake, and later pops keep yielding nothing.
    q.set_done_writing();
    assert_eq!(q.pop(), None);
    assert!(q.done_reading);
    assert_eq!(q.pop(), None);
    assert!(q.done_reading);
}

#[test]
fn test_message_at() {
    let mut q = Queue::new(16);
    q.push(b"ab");
    q.push(b"cde");
    assert_eq!(q.message_at(0), Some(b"ab".to_vec()));
    assert_eq!(q.message_at(3), Some(b"cde".to_vec()));
    // No frame starts in the middle of a payload or past the written region.
    assert_eq!(q.message_at(7), None);
    assert_eq!(q.message_at(100), None);
}

#[test]
fn test_messages_empty() {
    let q = Queue::new(8);
    assert!(q.messages().is_empty());
    assert!(!q.can_pop());
}

#[test]
fn test_pop_on_empty_active_segment() {
    let mut q = Queue::new(8);
    assert_eq!(q.pop(), None);
    assert!(!q.done_reading);
    assert!(!q.done_writing);
}
