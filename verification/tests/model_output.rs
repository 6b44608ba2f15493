use shellclaw::model::{
    build_context, check_prompt, clean_suffix, count_words, finish_completion,
    next_generation_step, prompt_fits, single_line_grammar_gbnf, stops_generation,
    suffix_from_output, token_string_marker, GenerationStep, ModelContext, ModelError,
};
use shellclaw::protocol::SuggestionSource;

#[test]
fn grammar_text() {
    assert_eq!(single_line_grammar_gbnf(), r#"root ::= [^\r\n\x00]+"#);
}

#[test]
fn clean_keeps_leading_space_and_strips_quotes() {
    assert_eq!(clean_suffix(" push origin main"), Some(" push origin main".to_string()));
    assert_eq!(clean_suffix("`ls -la`"), Some("ls -la".to_string()));
    assert_eq!(clean_suffix("'status\"'"), Some("status".to_string()));
    assert_eq!(clean_suffix("first\nsecond"), Some("first".to_string()));
    assert_eq!(clean_suffix("a\rb\nc"), Some("a\rb".to_string()));
    assert_eq!(clean_suffix("only\rcr"), Some("only".to_string()));
}

#[test]
fn clean_rejects_unusable_leftovers() {
    assert_eq!(clean_suffix(""), None);
    assert_eq!(clean_suffix("``"), None);
    assert_eq!(clean_suffix("\nrest"), None);
    assert_eq!(clean_suffix("# comment"), None);
    assert_eq!(clean_suffix("a\0b"), None);
    assert_eq!(clean_suffix("x ``` y"), None);
}

#[test]
fn subtraction_when_output_extends_line() {
    assert_eq!(suffix_from_output("git status", "git ").unwrap(), "status");
    assert_eq!(suffix_from_output("git status", "git").unwrap(), " status");
    assert_eq!(suffix_from_output("  git status  ", "git").unwrap(), " status");
}

#[test]
fn no_suggestion_when_line_extends_output() {
    let e = suffix_from_output("git commit", "git commit ").unwrap_err();
    assert_eq!(e.message, "user input already extends past model output");
}

#[test]
fn bare_suffix_gets_separator() {
    assert_eq!(suffix_from_output("diff-tree -r", "git").unwrap(), " diff-tree -r");
    assert_eq!(suffix_from_output("-la", "ls").unwrap(), " -la");
    assert_eq!(suffix_from_output("échec", "x").unwrap(), " échec");
    assert_eq!(suffix_from_output("/tmp", "cd").unwrap(), "/tmp");
    assert_eq!(suffix_from_output("42", "sleep").unwrap(), "42");
}

#[test]
fn invalid_model_outputs_rejected() {
    assert_eq!(suffix_from_output("   ", "git").unwrap_err().message, "no valid suffix generated");
    assert_eq!(suffix_from_output("git", "git").unwrap_err().message, "no valid suffix generated");
    assert_eq!(
        suffix_from_output("```x", "y").unwrap_err().message,
        "no valid suffix generated"
    );
    // A bare output starting like a word is joined with a space first.
    assert_eq!(suffix_from_output("Sure thing", "x").unwrap(), " Sure thing");
}

#[test]
fn prompt_checks() {
    assert!(check_prompt("git").is_ok());
    assert_eq!(check_prompt("  \t").unwrap_err().message, "empty prompt");
    let long = "a".repeat(4097);
    assert_eq!(check_prompt(&long).unwrap_err().message, "prompt too long");
    assert!(check_prompt(&"a".repeat(4096)).is_ok());
}

#[test]
fn finishing_a_completion() {
    let ctx = ModelContext { line_prefix: "git".to_string() };
    let out = finish_completion(&ctx, Some("git status".to_string()), 5, SuggestionSource::Model).unwrap();
    assert_eq!(out.suffix, " status");
    assert_eq!(out.ttft_ms, 5);
    assert_eq!(out.source, SuggestionSource::Model);
    let none = finish_completion(&ctx, None, 5, SuggestionSource::Model).unwrap_err();
    assert_eq!(none.message, "no suffix generated");
}

#[test]
fn generation_steps() {
    assert!(token_string_marker(0));
    assert!(!token_string_marker(7));
    assert!(stops_generation(-1));
    assert!(stops_generation(0));
    assert!(!stops_generation(15));
    assert!(prompt_fits(232));
    assert!(!prompt_fits(233));
}

#[test]
fn words_are_counted_like_split_whitespace() {
    assert_eq!(count_words(""), 0);
    assert_eq!(count_words("  git   che \t x "), 3);
    assert_eq!(count_words("one"), 1);
}

#[test]
fn context_building() {
    assert_eq!(build_context("git che", 3).unwrap().line_prefix, "git che");
    assert!(build_context("   ", 0).is_none());
    assert!(build_context(&"a".repeat(5000), 1).is_none());
    // More than ten candidates are refused; at most five count, ten tokens each.
    assert!(build_context("git che", 20).is_none());
    assert!(build_context("git che", 11).is_none());
    assert!(build_context("git che", 10).is_some());
    let words = "w ".repeat(462);
    assert!(build_context(&words, 10).is_some());
    let words = "w ".repeat(462);
    assert!(build_context(&words, 5).is_some());
    let words = "w ".repeat(463);
    assert!(build_context(&words, 5).is_none());
}

#[test]
fn model_error_keeps_message() {
    let e = ModelError::new("request cancelled".to_string());
    assert_eq!(e.to_string(), "request cancelled");
}

fn step_text(step: GenerationStep) -> (bool, String) {
    match step {
        GenerationStep::Stop(g) => (false, g),
        GenerationStep::Continue(g) => (true, g),
    }
}

#[test]
fn generation_stops_on_end_tokens_without_adding_text() {
    assert_eq!(step_text(next_generation_step("git".into(), 0, Some(" status"))), (false, "git".into()));
    assert_eq!(step_text(next_generation_step("git".into(), -1, Some(" status"))), (false, "git".into()));
    assert_eq!(step_text(next_generation_step("git".into(), 7, None)), (false, "git".into()));
}

#[test]
fn generation_continues_while_text_is_one_line() {
    assert_eq!(step_text(next_generation_step(String::new(), 42, Some("git"))), (true, "git".into()));
    assert_eq!(step_text(next_generation_step("git".into(), 42, Some(" status"))), (true, "git status".into()));
}

#[test]
fn generation_stops_when_text_leaves_one_line() {
    assert_eq!(step_text(next_generation_step("ls".into(), 42, Some("\n"))), (false, "ls\n".into()));
    assert_eq!(step_text(next_generation_step("ls".into(), 42, Some("``"))), (true, "ls``".into()));
    assert_eq!(step_text(next_generation_step("ls ``".into(), 42, Some("`"))), (false, "ls ```".into()));
    assert_eq!(step_text(next_generation_step(String::new(), 42, Some(""))), (false, String::new()));
}

#[test]
fn warmup_happens_once_and_stays() {
    let mut w = shellclaw::model::WarmupState::new();
    assert!(!w.is_warmed());
    assert!(w.warmup());
    assert!(w.is_warmed());
    assert!(!w.warmup());
    assert!(w.is_warmed());
}

#[test]
fn cleaned_generation_is_one_line() {
    assert_eq!(clean_suffix(" status\nls -la"), Some(" status".to_string()));
    assert_eq!(clean_suffix(" status\rmore"), Some(" status".to_string()));
    // A carriage return before the first line feed stays, as it always did.
    assert_eq!(clean_suffix(" status\r\nmore"), Some(" status\r".to_string()));
    assert_eq!(clean_suffix("\n status"), None);
}
