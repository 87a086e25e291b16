use soundprint::errors::{DecodeError, ListenerError};
use soundprint::listener::{process_chunk, worker_action, StreamListener, WorkerAction};

#[test]
fn test_listener_rejects_invalid_uri() {
    let r = StreamListener::new("not a url".to_string());
    assert!(matches!(r, Err(ListenerError::InvalidUri)));
}

// Listener lifecycle: starting an already active listener is a conflict;
// after deactivation the listener reads inactive again and can be restarted.
#[test]
fn test_listener_lifecycle() {
    let mut listener = StreamListener::new("https://example.com/stream".to_string()).unwrap();
    assert!(!listener.is_active());
    assert!(listener.start().is_ok());
    assert!(listener.is_active());
    let again = listener.start();
    assert!(matches!(again, Err(ListenerError::Conflict)));
    assert!(listener.is_active());
    listener.deactivate();
    assert!(!listener.is_active());
    assert!(listener.start().is_ok());
    assert!(listener.is_active());
}

// Listener lifecycle: a deactivated listener's worker stops at the very next
// chunk boundary and sends nothing, whatever the chunk holds.
#[test]
fn test_worker_stops_when_deactivated() {
    let chunk: Vec<u8> = vec![0xffu8; 64];
    let action = process_chunk(false, &chunk);
    assert!(matches!(action, WorkerAction::Stop));
    let action = process_chunk(false, &Vec::new());
    assert!(matches!(action, WorkerAction::Stop));
}

#[test]
fn test_worker_drops_undecodable_chunk() {
    // bytes with no audio frame decode to nothing: the worker keeps
    // listening rather than stopping or sending
    let chunk: Vec<u8> = vec![0x55u8; 256];
    let action = process_chunk(true, &chunk);
    assert!(matches!(action, WorkerAction::Skip));
}

#[test]
fn test_worker_action_per_outcome() {
    let action = worker_action(true, Ok(vec![1i16, 2]));
    assert!(matches!(action, WorkerAction::Send(s) if s == vec![1i16, 2]));
    assert!(matches!(worker_action(true, Ok(Vec::new())), WorkerAction::Skip));
    assert!(matches!(
        worker_action(true, Err(DecodeError::InvalidChannels)),
        WorkerAction::Skip
    ));
    assert!(matches!(worker_action(false, Ok(vec![1i16])), WorkerAction::Stop));
}
