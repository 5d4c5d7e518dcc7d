use bazel_lsp::protocol::{
    accepts_requests, encode_frame, next_session_state, Delivery, HeaderReader, PendingRequests, ReplyKind,
    SessionAction, SessionEvent, SessionState,
};

#[test]
fn frames_carry_the_body_length() {
    assert_eq!(encode_frame(b"{}"), b"Content-Length: 2\r\n\r\n{}".to_vec());
    let body = vec![b'x'; 1234];
    let framed = encode_frame(&body);
    assert!(framed.starts_with(b"Content-Length: 1234\r\n\r\n"));
    assert_eq!(framed.len(), 24 + 1234);
    assert_eq!(encode_frame(b""), b"Content-Length: 0\r\n\r\n".to_vec());
}

#[test]
fn header_block_announces_the_body() {
    let mut h = HeaderReader::new();
    assert_eq!(h.on_line("Content-Type: application/json\r\n"), None);
    assert_eq!(h.on_line("Content-Length: 52\r\n"), None);
    assert_eq!(h.on_line("\r\n"), Some(52));
    // The next block starts over.
    assert_eq!(h.on_line("\n"), None);
    assert_eq!(h.on_line("  Content-Length: +7  \n"), None);
    assert_eq!(h.on_line("\n"), Some(7));
    assert_eq!(h.on_line("Content-Length: abc\n"), None);
    assert_eq!(h.on_line("\n"), None);
    assert_eq!(h.on_line("Content-Length: 99999999999999999999999\n"), None);
    assert_eq!(h.on_line("\n"), None);
}

#[test]
fn each_slot_resolves_once() {
    let mut t: PendingRequests<&str> = PendingRequests::new();
    let a = t.register("first");
    let b = t.register("second");
    assert_eq!((a, b), (1, 2));
    // The reply for `a` arrives first; its timeout then finds nothing.
    match t.dispatch(Some(a), false, true, false) {
        Delivery::Resolve(slot, kind) => {
            assert_eq!(slot, "first");
            assert_eq!(kind, ReplyKind::Success);
        }
        _ => panic!("expected a resolution"),
    }
    assert_eq!(t.take(a), None);
    // `b` times out first; a late reply is dropped.
    assert_eq!(t.take(b), Some("second"));
    assert!(matches!(t.dispatch(Some(b), false, true, false), Delivery::Drop));
    // Ids are never reused.
    assert_eq!(t.register("third"), 3);
}

#[test]
fn inbound_messages_are_told_apart() {
    let mut t: PendingRequests<u8> = PendingRequests::new();
    let a = t.register(10);
    let b = t.register(20);
    assert!(matches!(t.dispatch(Some(a), true, true, false), Delivery::Resolve(10, ReplyKind::Failure)));
    assert!(matches!(t.dispatch(Some(b), false, false, false), Delivery::Resolve(20, ReplyKind::Empty)));
    assert!(matches!(t.dispatch(None, false, false, true), Delivery::ServerCall));
    assert!(matches!(t.dispatch(None, false, false, false), Delivery::Drop));
    assert!(matches!(t.dispatch(Some(77), false, true, false), Delivery::Drop));
    // A backend request carries its own id, which no pending request of ours holds.
    assert!(matches!(t.dispatch(Some(5), false, false, true), Delivery::ServerCall));
}

#[test]
fn session_lifecycle() {
    let (s, a) = next_session_state(SessionState::NotStarted, SessionEvent::Launched);
    assert_eq!((s, a), (SessionState::NotStarted, SessionAction::SendInitialize));
    assert!(!accepts_requests(s));
    let (s, a) = next_session_state(s, SessionEvent::InitializeSucceeded);
    assert_eq!((s, a), (SessionState::Running, SessionAction::SendInitialized));
    assert!(accepts_requests(s));
    let (s, a) = next_session_state(s, SessionEvent::ShutdownRequested);
    assert_eq!((s, a), (SessionState::ShuttingDown, SessionAction::SendShutdown));
    let (s, a) = next_session_state(s, SessionEvent::ShutdownAnswered);
    assert_eq!((s, a), (SessionState::Stopped, SessionAction::ExitAndTerminate));
    assert_eq!(
        next_session_state(SessionState::Running, SessionEvent::ProcessExited),
        (SessionState::Stopped, SessionAction::Terminate)
    );
    assert_eq!(
        next_session_state(SessionState::Stopped, SessionEvent::ProcessExited),
        (SessionState::Stopped, SessionAction::Nothing)
    );
    assert_eq!(
        next_session_state(SessionState::NotStarted, SessionEvent::InitializeFailed),
        (SessionState::Stopped, SessionAction::Terminate)
    );
}
