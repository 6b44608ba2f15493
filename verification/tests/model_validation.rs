use shellclaw::model::{
    validate_buffer_size, validate_grammar_output, validate_model_handle_ready, validate_suffix,
};

// Handle readiness and buffer bounds.

#[test]
fn test_handle_ready_true() {
    assert!(validate_model_handle_ready(true));
}

#[test]
fn test_handle_ready_false() {
    assert!(!validate_model_handle_ready(false));
}

#[test]
fn test_buffer_size_within_bounds() {
    assert!(validate_buffer_size(100, 4096));
}

#[test]
fn test_buffer_size_zero_rejected() {
    assert!(!validate_buffer_size(0, 4096));
}

#[test]
fn test_buffer_size_exceeds_max() {
    assert!(!validate_buffer_size(5000, 4096));
}

#[test]
fn buffer_size_at_max_accepted() {
    assert!(validate_buffer_size(4096, 4096));
}

// Suffix validation.

#[test]
fn test_valid_suffix() {
    assert!(validate_suffix("ckout main", "git che"));
}

#[test]
fn test_empty_suffix() {
    assert!(!validate_suffix("", "git"));
}

#[test]
fn test_newline_suffix() {
    assert!(!validate_suffix("line\nbreak", ""));
}

#[test]
fn test_explanatory_suffix() {
    assert!(!validate_suffix("Here is a command: ls", ""));
}

#[test]
fn test_duplicate_suffix() {
    assert!(!validate_suffix("git", "git"));
}

#[test]
fn explanatory_prefixes_all_rejected() {
    for s in ["Sure, run ls", "The command is ls", "You should run ls", "I suggest ls", "Here"] {
        assert!(!validate_suffix(s, "x"), "{s}");
    }
    assert!(validate_suffix("here is lowercase", "x"));
}

#[test]
fn carriage_return_nul_and_fence_suffixes_rejected() {
    assert!(!validate_suffix("a\rb", "x"));
    assert!(!validate_suffix("a\0b", "x"));
    assert!(!validate_suffix("echo ```", "x"));
    assert!(validate_suffix("echo ``", "x"));
}

// Single-line grammar output.

#[test]
fn test_valid_single_line_passes() {
    assert!(validate_grammar_output("ckout main"));
    assert!(validate_grammar_output("-la"));
    assert!(validate_grammar_output("build --release"));
}

#[test]
fn test_grammar_test_newline_rejected() {
    assert!(!validate_grammar_output("line1\nline2"));
}

#[test]
fn test_carriage_return_rejected() {
    assert!(!validate_grammar_output("line\r"));
}

#[test]
fn test_grammar_test_null_byte_rejected() {
    assert!(!validate_grammar_output("bad\0char"));
}

#[test]
fn test_markdown_fence_rejected() {
    assert!(!validate_grammar_output("```bash\nls```"));
}

#[test]
fn test_empty_rejected() {
    assert!(!validate_grammar_output(""));
}

#[test]
fn test_multiline_rejected() {
    assert!(!validate_grammar_output("ls\necho hello"));
}
