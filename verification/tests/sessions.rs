use shellclaw::ipc::handle_cancel;
use shellclaw::model::ModelOutput;
use shellclaw::protocol::{CancelParams, CancelRequest, CompletionParams, CompletionRequest, CompletionResult, SuggestionSource};
use shellclaw::scheduler::{
    after_model, after_retrieval, begin_completion, conclude_model, conclude_retrieval, line_hash,
    ModelOutcome, DEFAULT_MAX_LINE_LENGTH, RETRIEVAL_LIMIT, retrieval_query,
};
use shellclaw::session::{token_is_cancelled, ActiveRequests};

fn request(id: &str, session: &str, line: &str) -> CompletionRequest {
    CompletionRequest::new(
        id.into(),
        CompletionParams {
            session_id: session.into(),
            shell_kind: "zsh".into(),
            line: line.into(),
            cursor: line.len(),
            cwd: "/tmp".into(),
            deadline_ms: 1_000,
            client_sent_at_ms: 0,
        },
    )
}

#[test]
fn test_newer_request_supersedes_prior() {
    let mut t = ActiveRequests::new();
    let first = t.register("s1", "r1", 1).unwrap();
    let _second = t.register("s1", "r2", 2).unwrap();
    assert!(token_is_cancelled(&first));
    assert!(!t.is_active("s1", "r1"));
    assert!(t.cancel_request("s1", "r1"));
    assert!(t.is_active("s1", "r2"));
    assert!(t.cancel_request("s1", "r2"));
    assert!(!t.is_active("s1", "r2"));
}

#[test]
fn test_different_sessions_independent() {
    let mut t = ActiveRequests::new();
    let a = t.register("s1", "r1", 1).unwrap();
    let b = t.register("s2", "r2", 2).unwrap();
    assert!(!token_is_cancelled(&a));
    assert!(!token_is_cancelled(&b));
    assert!(t.is_active("s1", "r1"));
    assert!(t.cancel_request("s1", "r1"));
    assert!(!t.is_active("s1", "r1"));
    assert!(t.is_active("s2", "r2"));
    assert!(t.cancel_request("s2", "r2"));
    assert!(!t.is_active("s2", "r2"));
}

#[test]
fn test_multiple_supersedes_in_sequence() {
    let mut t = ActiveRequests::new();
    let r1 = t.register("s1", "r1", 1).unwrap();
    let r2 = t.register("s1", "r2", 2).unwrap();
    let r3 = t.register("s1", "r3", 3).unwrap();
    assert!(token_is_cancelled(&r1));
    assert!(token_is_cancelled(&r2));
    assert!(!token_is_cancelled(&r3));
    assert!(!t.is_active("s1", "r1"));
    assert!(t.cancel_request("s1", "r1"));
    assert!(!t.is_active("s1", "r2"));
    assert!(t.cancel_request("s1", "r2"));
    assert!(t.is_active("s1", "r3"));
    assert!(t.cancel_request("s1", "r3"));
    assert!(!t.is_active("s1", "r3"));
}

#[test]
fn test_supersede_cleans_up_in_flight() {
    let mut t = ActiveRequests::new();
    t.register("s1", "r1", 1).unwrap();
    let in_flight = vec!["r1".to_string()];
    t.register("s1", "r2", 2).unwrap();
    // Finishing the superseded request leaves the newer one active.
    t.finish_request("s1", &in_flight[0]);
    assert!(t.is_active("s1", "r2"));
    assert!(t.cancel_request("s1", "r2"));
    assert!(!t.is_active("s1", "r2"));
}

#[test]
fn older_arrival_is_refused() {
    let mut t = ActiveRequests::new();
    let newer = t.register("s1", "r2", 5).unwrap();
    assert!(t.register("s1", "r1", 4).is_none());
    assert!(!token_is_cancelled(&newer));
    assert!(t.is_active("s1", "r2"));
    assert!(t.cancel_request("s1", "r2"));
    assert!(!t.is_active("s1", "r2"));
    assert!(token_is_cancelled(&newer));
    assert!(!t.is_active("s1", "r2"));
    assert!(t.cancel_request("s1", "r2"));
}

#[test]
fn equal_arrival_supersedes() {
    let mut t = ActiveRequests::new();
    let a = t.register("s1", "r1", 3).unwrap();
    assert!(t.register("s1", "r2", 3).is_some());
    assert!(token_is_cancelled(&a));
}

#[test]
fn newer_request_cancels_inference_in_same_session() {
    let mut t = ActiveRequests::new();
    let first = request("request-1", "session-1", "git a");
    let second = request("request-2", "session-1", "git b");
    let first_adm = begin_completion(&mut t, first.clone(), 1, DEFAULT_MAX_LINE_LENGTH).ok().unwrap();
    let second_adm = begin_completion(&mut t, second.clone(), 2, DEFAULT_MAX_LINE_LENGTH).ok().unwrap();
    assert!(token_is_cancelled(first_adm.token()));

    // The first inference notices its cancellation and gives up.
    let first_result = conclude_model(&mut t, &first_adm, ModelOutcome::Failed, 1);
    assert!(matches!(first_result.outcome, CompletionResult::NoSuggestion));

    let empty: Vec<String> = vec![];
    assert!(conclude_retrieval(&mut t, &second_adm, false, &empty, 1).is_none());
    let output = ModelOutput { suffix: " status".into(), ttft_ms: 1, source: SuggestionSource::Model };
    let second_result = conclude_model(&mut t, &second_adm, ModelOutcome::Completed(output), 3);
    assert_eq!(second_result.request_id, "request-2");
    match second_result.outcome {
        CompletionResult::Suggestion(d) => {
            assert_eq!(d.suffix, " status");
            assert_eq!(d.replacement_start, 5);
            assert_eq!(d.valid_for_line_hash, line_hash("git b"));
            assert_eq!(d.source, SuggestionSource::Model);
            assert_eq!(d.daemon_latency_ms, 3);
        }
        CompletionResult::NoSuggestion => panic!("expected a suggestion"),
    }
    // Both requests are finished.
    assert!(!t.is_active("session-1", "request-2"));
    assert!(t.cancel_request("session-1", "request-2"));
}

#[test]
fn invalid_request_is_answered_at_once() {
    let mut t = ActiveRequests::new();
    let bad = request("r1", "s1", "   ");
    match begin_completion(&mut t, bad.clone(), 1, DEFAULT_MAX_LINE_LENGTH) {
        Err(res) => {
            assert_eq!(res.request_id, "r1");
            assert!(matches!(res.outcome, CompletionResult::NoSuggestion));
        }
        Ok(_) => panic!("expected rejection"),
    }
    assert!(!t.is_active("s1", "r1"));
    assert!(t.cancel_request("s1", "r1"));
}

#[test]
fn stale_request_is_answered_at_once() {
    let mut t = ActiveRequests::new();
    let newer = request("r2", "s1", "git st");
    let older = request("r1", "s1", "git s");
    assert!(begin_completion(&mut t, newer.clone(), 2, DEFAULT_MAX_LINE_LENGTH).is_ok());
    assert!(begin_completion(&mut t, older.clone(), 1, DEFAULT_MAX_LINE_LENGTH).is_err());
    assert!(t.is_active("s1", "r2"));
    assert!(t.cancel_request("s1", "r2"));
    assert!(!t.is_active("s1", "r2"));
}

#[test]
fn memory_hit_answers_before_the_model() {
    let mut t = ActiveRequests::new();
    let req = request("r1", "s1", "git che");
    let adm = begin_completion(&mut t, req.clone(), 1, DEFAULT_MAX_LINE_LENGTH).ok().unwrap();
    let cands = vec!["git checkout main".to_string()];
    let res = after_retrieval(&mut t, &adm, false, false, &cands, 2).unwrap();
    match res.outcome {
        CompletionResult::Suggestion(d) => {
            assert_eq!(d.suffix, "ckout main");
            assert_eq!(d.source, SuggestionSource::Memory);
            assert_eq!(d.replacement_start, 7);
        }
        CompletionResult::NoSuggestion => panic!("expected a memory suggestion"),
    }
    assert!(!t.is_active("s1", "r1"));
    assert!(t.cancel_request("s1", "r1"));
}

#[test]
fn deadline_passed_after_retrieval_gives_nothing() {
    let mut t = ActiveRequests::new();
    let req = request("r1", "s1", "git che");
    let adm = begin_completion(&mut t, req.clone(), 1, DEFAULT_MAX_LINE_LENGTH).ok().unwrap();
    let cands = vec!["git checkout main".to_string()];
    let res = after_retrieval(&mut t, &adm, true, false, &cands, 2).unwrap();
    assert!(matches!(res.outcome, CompletionResult::NoSuggestion));
    assert!(!t.is_active("s1", "r1"));
    assert!(t.cancel_request("s1", "r1"));
}

#[test]
fn timed_out_model_cancels_token() {
    let mut t = ActiveRequests::new();
    let req = request("r1", "s1", "git che");
    let adm = begin_completion(&mut t, req.clone(), 1, DEFAULT_MAX_LINE_LENGTH).ok().unwrap();
    let res = after_model(&mut t, &adm, false, ModelOutcome::TimedOut, 30);
    assert!(matches!(res.outcome, CompletionResult::NoSuggestion));
    assert!(token_is_cancelled(adm.token()));
}

#[test]
fn invalid_model_output_gives_nothing() {
    let mut t = ActiveRequests::new();
    let req = request("r1", "s1", "git che");
    let adm = begin_completion(&mut t, req.clone(), 1, DEFAULT_MAX_LINE_LENGTH).ok().unwrap();
    let output = ModelOutput { suffix: "Here is\nls".into(), ttft_ms: 1, source: SuggestionSource::Model };
    let res = after_model(&mut t, &adm, false, ModelOutcome::Completed(output), 3);
    assert!(matches!(res.outcome, CompletionResult::NoSuggestion));
}

#[test]
fn cancel_handler_reports_request_no_longer_active() {
    let mut t = ActiveRequests::new();
    let token = t.register("s1", "r1", 1).unwrap();
    let wrong = CancelRequest::new("c1".into(), CancelParams { session_id: "s1".into(), request_id: "r0".into() });
    let resp = handle_cancel(&mut t, &wrong);
    assert!(resp.result.cancelled);
    assert!(!token_is_cancelled(&token));
    assert!(t.is_active("s1", "r1"));
    let right = CancelRequest::new("c2".into(), CancelParams { session_id: "s1".into(), request_id: "r1".into() });
    let resp = handle_cancel(&mut t, &right);
    assert_eq!(resp.id, "c2");
    assert_eq!(resp.jsonrpc, "2.0");
    assert!(resp.result.cancelled);
    assert!(token_is_cancelled(&token));
}

#[test]
fn test_uncancelled_token_allows_work() {
    let token = tokio_util::sync::CancellationToken::new();
    assert!(!token.is_cancelled());
}

#[test]
fn test_cancelled_token_returns_no_suggestion() {
    let token = tokio_util::sync::CancellationToken::new();
    token.cancel();
    assert!(token.is_cancelled());
}

#[test]
fn cancelled_request_with_memory_hit_gives_nothing() {
    let mut t = ActiveRequests::new();
    let req = request("r1", "s1", "git che");
    let adm = begin_completion(&mut t, req.clone(), 1, DEFAULT_MAX_LINE_LENGTH).ok().unwrap();
    let cands = vec!["git checkout main".to_string()];
    let res = after_retrieval(&mut t, &adm, false, true, &cands, 2).unwrap();
    assert_eq!(res.request_id, "r1");
    assert!(matches!(res.outcome, CompletionResult::NoSuggestion));
    assert!(!t.is_active("s1", "r1"));
}

#[test]
fn cancelled_request_with_valid_model_output_gives_nothing() {
    let mut t = ActiveRequests::new();
    let req = request("r1", "s1", "git che");
    let adm = begin_completion(&mut t, req.clone(), 1, DEFAULT_MAX_LINE_LENGTH).ok().unwrap();
    let output = ModelOutput { suffix: "ckout main".into(), ttft_ms: 1, source: SuggestionSource::Model };
    let res = after_model(&mut t, &adm, true, ModelOutcome::Completed(output), 3);
    assert!(matches!(res.outcome, CompletionResult::NoSuggestion));
    assert!(!t.is_active("s1", "r1"));
}

#[test]
fn superseded_request_reads_its_cancellation() {
    let mut t = ActiveRequests::new();
    let first = request("r1", "s1", "git che");
    let second = request("r2", "s1", "git chec");
    let first_adm = begin_completion(&mut t, first.clone(), 1, DEFAULT_MAX_LINE_LENGTH).ok().unwrap();
    let _second_adm = begin_completion(&mut t, second.clone(), 2, DEFAULT_MAX_LINE_LENGTH).ok().unwrap();
    let cands = vec!["git checkout main".to_string()];
    let res = conclude_retrieval(&mut t, &first_adm, false, &cands, 2).unwrap();
    assert!(matches!(res.outcome, CompletionResult::NoSuggestion));
    assert!(t.is_active("s1", "r2"));
}

#[test]
fn admitted_request_keeps_the_request_and_builds_its_lookup() {
    let mut t = ActiveRequests::new();
    let req = request("r1", "s1", "git che");
    let adm = begin_completion(&mut t, req.clone(), 1, DEFAULT_MAX_LINE_LENGTH).ok().unwrap();
    assert_eq!(adm.request().id, "r1");
    assert_eq!(adm.request().params.line, "git che");
    assert!(!token_is_cancelled(adm.token()));
    let q = retrieval_query(adm.request());
    assert_eq!(q.cwd, "/tmp");
    assert_eq!(q.line_prefix, "git che");
    assert_eq!(q.limit, RETRIEVAL_LIMIT);
    assert_eq!(q.limit, 5);
    assert_eq!(q.deadline_ms, 1_000);
}
