use shellclaw::protocol::{CompletionParams, CompletionResult};
use shellclaw::scheduler::{RequestValidator, DEFAULT_MAX_LINE_LENGTH};

fn valid_params() -> CompletionParams {
    CompletionParams {
        session_id: "s1".to_string(),
        shell_kind: "zsh".to_string(),
        line: "git che".to_string(),
        cursor: 7,
        cwd: "/tmp".to_string(),
        deadline_ms: 25,
        client_sent_at_ms: 1000,
    }
}

#[test]
fn test_valid_request_passes() {
    assert!(RequestValidator::validate(&valid_params(), DEFAULT_MAX_LINE_LENGTH).is_ok());
}

#[test]
fn test_empty_line_rejected() {
    let mut p = valid_params();
    p.line = "   ".to_string();
    assert!(RequestValidator::validate(&p, DEFAULT_MAX_LINE_LENGTH).is_err());
}

#[test]
fn test_cursor_past_end_rejected() {
    let mut p = valid_params();
    p.cursor = 999;
    assert!(RequestValidator::validate(&p, DEFAULT_MAX_LINE_LENGTH).is_err());
}

#[test]
fn test_missing_session_id_rejected() {
    let mut p = valid_params();
    p.session_id = "".to_string();
    assert!(RequestValidator::validate(&p, DEFAULT_MAX_LINE_LENGTH).is_err());
}

#[test]
fn test_relative_cwd_rejected() {
    let mut p = valid_params();
    p.cwd = "relative/path".to_string();
    assert!(RequestValidator::validate(&p, DEFAULT_MAX_LINE_LENGTH).is_err());
}

#[test]
fn validate_test_null_byte_rejected() {
    let mut p = valid_params();
    p.line = "bad\0char".to_string();
    assert!(RequestValidator::validate(&p, DEFAULT_MAX_LINE_LENGTH).is_err());
}

#[test]
fn rejection_is_no_suggestion() {
    let mut p = valid_params();
    p.line = "a\nb".to_string();
    match RequestValidator::validate(&p, DEFAULT_MAX_LINE_LENGTH) {
        Err(CompletionResult::NoSuggestion) => {}
        _ => panic!("expected a no-suggestion rejection"),
    }
}

#[test]
fn line_length_is_counted_in_bytes() {
    let mut p = valid_params();
    // "é" is two bytes: five of them are ten bytes.
    p.line = "ééééé".to_string();
    p.cursor = 10;
    assert!(RequestValidator::validate(&p, 10).is_ok());
    assert!(RequestValidator::validate(&p, 9).is_err());
    p.cursor = 11;
    assert!(RequestValidator::validate(&p, 10).is_err());
}

#[test]
fn carriage_return_and_empty_cwd_rejected() {
    let mut p = valid_params();
    p.line = "ls\r".to_string();
    p.cursor = 0;
    assert!(RequestValidator::validate(&p, DEFAULT_MAX_LINE_LENGTH).is_err());
    let mut q = valid_params();
    q.cwd = String::new();
    assert!(RequestValidator::validate(&q, DEFAULT_MAX_LINE_LENGTH).is_err());
}
