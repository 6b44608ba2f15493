use shellclaw::deadline::{expired_at, remaining_at, DeadlineTracker};
use shellclaw::ipc::{classify_frame, completion_response, record_response_json, FrameAction, IpcMetrics, IpcServer, MAX_FRAME_BYTES};
use shellclaw::protocol::CompletionResult;
use shellclaw::scheduler::SubmitResult;

#[test]
fn frames() {
    assert!(matches!(classify_frame(0, ""), FrameAction::Close));
    assert!(matches!(classify_frame(2, "\r\n"), FrameAction::Skip));
    match classify_frame(10, "{\"a\":1}\r\n") {
        FrameAction::Dispatch(s) => assert_eq!(s, "{\"a\":1}"),
        _ => panic!("expected dispatch"),
    }
    let big = "x".repeat(MAX_FRAME_BYTES + 1);
    assert!(matches!(classify_frame(big.len(), &big), FrameAction::Close));
    let max = "x".repeat(MAX_FRAME_BYTES);
    assert!(matches!(classify_frame(max.len(), &max), FrameAction::Dispatch(_)));
}

#[test]
fn record_reply_text() {
    assert_eq!(record_response_json("m1"), r#"{"jsonrpc":"2.0","id":"m1","result":{"recorded":true}}"#);
}

#[test]
fn completion_reply_echoes_id() {
    let r = completion_response(SubmitResult { request_id: "r9".into(), outcome: CompletionResult::no_suggestion() });
    assert_eq!(r.jsonrpc, "2.0");
    assert_eq!(r.id, "r9");
    assert!(matches!(r.result, CompletionResult::NoSuggestion));
}

#[test]
fn server_and_metrics() {
    let s = IpcServer::new("/tmp/x.sock".to_string());
    assert_eq!(s.socket_path, "/tmp/x.sock");
    let m = IpcMetrics::default();
    assert_eq!(m.connections_total, 0);
    assert_eq!(m.requests_total, 0);
    assert!(m.requests_by_method.is_empty());
    assert_eq!(m.errors_total, 0);
}

#[test]
fn deadline_tracker() {
    let t = DeadlineTracker::new(100_000);
    assert!(!t.is_expired());
    assert!(t.remaining_ms() <= 100_000);
    let z = DeadlineTracker::new(0);
    assert!(z.is_expired());
    assert_eq!(z.remaining_ms(), 0);
    assert!(expired_at(5, 5_000_000));
    assert!(!expired_at(5, 4_999_999));
    assert_eq!(remaining_at(5, 0), 5);
    assert_eq!(remaining_at(5, 1), 4);
    assert_eq!(remaining_at(5, 5_000_000), 0);
}
