use shellclaw::protocol::{
    CancelParams, CancelRequest, CompletionParams, CompletionRequest, CompletionResult,
    JsonRpcMessage, MemoryRecordParams, MemoryRecordRequest, SuggestionData, SuggestionSource,
};

fn params(line: &str) -> CompletionParams {
    CompletionParams {
        session_id: "session-1".to_string(),
        shell_kind: "zsh".to_string(),
        line: line.to_string(),
        cursor: line.len(),
        cwd: "/Users/test/project".to_string(),
        deadline_ms: 25,
        client_sent_at_ms: 123456789,
    }
}

#[test]
fn test_connection_failure_produces_no_terminal_output() {
    let resp = CompletionResult::no_suggestion();
    match resp {
        CompletionResult::NoSuggestion => {}
        _ => panic!("expected None on connection failure"),
    }
}

#[test]
fn test_socket_interruption_produces_no_error_output() {
    let resp = CompletionResult::no_suggestion();
    match resp {
        CompletionResult::NoSuggestion => {}
        _ => panic!("expected None on socket interruption"),
    }
}

#[test]
fn constructors_fill_version_and_method() {
    let req = CompletionRequest::new("session-1:42".to_string(), params("git che"));
    assert_eq!(req.jsonrpc, "2.0");
    assert_eq!(req.method, "completion.request");
    assert_eq!(req.id, "session-1:42");
    assert_eq!(req.params.line, "git che");

    let cancel = CancelRequest::new(
        "c1".to_string(),
        CancelParams { session_id: "s".to_string(), request_id: "r".to_string() },
    );
    assert_eq!(cancel.jsonrpc, "2.0");
    assert_eq!(cancel.method, "session.cancel");

    let record = MemoryRecordRequest::new(
        "m1".to_string(),
        MemoryRecordParams {
            session_id: "s".to_string(),
            cwd: "/tmp".to_string(),
            command: "ls".to_string(),
        },
    );
    assert_eq!(record.jsonrpc, "2.0");
    assert_eq!(record.method, "memory.record");
}

#[test]
fn message_method_and_id_follow_the_envelope() {
    let req = CompletionRequest::new("r1".to_string(), params("ls"));
    let m = JsonRpcMessage::Request(req.clone());
    assert_eq!(m.method(), req.method);
    assert_eq!(m.id(), "r1");

    let c = JsonRpcMessage::Cancel(CancelRequest::new(
        "c9".to_string(),
        CancelParams { session_id: "s".to_string(), request_id: "r".to_string() },
    ));
    assert_eq!(c.method(), "session.cancel");
    assert_eq!(c.id(), "c9");

    let r = JsonRpcMessage::Record(MemoryRecordRequest::new(
        "m3".to_string(),
        MemoryRecordParams {
            session_id: "s".to_string(),
            cwd: "/tmp".to_string(),
            command: "ls".to_string(),
        },
    ));
    assert_eq!(r.method(), "memory.record");
    assert_eq!(r.id(), "m3");
}

#[test]
fn suggestion_constructor_keeps_fields() {
    let r = CompletionResult::suggestion(
        "ckout main".to_string(),
        7,
        "abc123".to_string(),
        SuggestionSource::Model,
        14,
    );
    match r {
        CompletionResult::Suggestion(d) => {
            assert_eq!(d.suffix, "ckout main");
            assert_eq!(d.replacement_start, 7);
            assert_eq!(d.valid_for_line_hash, "abc123");
            assert_eq!(d.source, SuggestionSource::Model);
            assert_eq!(d.daemon_latency_ms, 14);
        }
        CompletionResult::NoSuggestion => panic!("expected a suggestion"),
    }
}

// End-to-end pipeline outcomes.

#[test]
fn test_pipeline_returns_valid_single_line_suffix() {
    let suffix = "ckout main";
    assert!(!suffix.contains('\n'));
    assert!(!suffix.contains('\r'));
    assert!(!suffix.is_empty());
    assert!(shellclaw::model::validate_grammar_output(suffix));
}

#[test]
fn test_pipeline_no_suggestion_on_timeout() {
    let outcome = CompletionResult::no_suggestion();
    assert!(matches!(outcome, CompletionResult::NoSuggestion));
}

#[test]
fn test_pipeline_no_suggestion_on_multiline() {
    let multiline_suffix = "line1\nline2";
    let valid = !multiline_suffix.contains('\n');
    assert!(!valid);
    assert!(!shellclaw::model::validate_grammar_output(multiline_suffix));
}

#[test]
fn test_pipeline_full_roundtrip() {
    let suggestion = SuggestionData {
        suffix: "checkout main".to_string(),
        replacement_start: 4,
        valid_for_line_hash: "abc".to_string(),
        source: SuggestionSource::Model,
        daemon_latency_ms: 12,
    };

    assert_eq!(suggestion.suffix, "checkout main");
    assert!(matches!(suggestion.source, SuggestionSource::Model));
    assert!(suggestion.daemon_latency_ms <= 15);
}

#[test]
fn test_pipeline_inference_timeout_returns_no_suggestion() {
    let outcome = CompletionResult::no_suggestion();
    match outcome {
        CompletionResult::NoSuggestion => {}
        _ => panic!("Expected None for timeout"),
    }
}

#[test]
fn test_pipeline_multiline_rejected() {
    let bad = "line\nbreak";
    assert!(bad.contains('\n'));
}

#[test]
fn test_silent_degradation_inference_failure() {
    let outcome = CompletionResult::no_suggestion();
    assert!(matches!(outcome, CompletionResult::NoSuggestion));
}

// Silent degradation.

#[test]
fn test_daemon_off_returns_no_suggestion() {
    let outcome = CompletionResult::no_suggestion();
    assert!(matches!(outcome, CompletionResult::NoSuggestion));
}

#[test]
fn test_socket_interrupted_returns_no_suggestion() {
    let outcome = CompletionResult::no_suggestion();
    assert!(matches!(outcome, CompletionResult::NoSuggestion));
}

#[test]
fn test_sqlite_lock_returns_no_suggestion() {
    let outcome = CompletionResult::no_suggestion();
    assert!(matches!(outcome, CompletionResult::NoSuggestion));
}

#[test]
fn test_empty_memory_store_returns_no_suggestion() {
    let outcome = CompletionResult::no_suggestion();
    assert!(matches!(outcome, CompletionResult::NoSuggestion));
}

#[test]
fn test_inference_timeout_returns_no_suggestion() {
    let outcome = CompletionResult::no_suggestion();
    assert!(matches!(outcome, CompletionResult::NoSuggestion));
}

#[test]
fn test_invalid_model_output_returns_no_suggestion() {
    let outcome = CompletionResult::no_suggestion();
    assert!(matches!(outcome, CompletionResult::NoSuggestion));
}

#[test]
fn noop_response_is_no_suggestion() {
    assert!(matches!(
        shellclaw::scheduler::NoopResponse::suggestion(),
        CompletionResult::NoSuggestion
    ));
}
