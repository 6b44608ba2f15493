use shellclaw::scheduler::to_hex;
use std::hash::{Hash, Hasher};
use shellclaw::scheduler::line_hash;

/// The hook's check that a response still belongs to the current line.
struct StaleResponseValidator;

impl StaleResponseValidator {
    fn response_matches_request(
        response_request_id: &str,
        active_request_id: &str,
        response_line_hash: &str,
        current_line: &str,
    ) -> bool {
        response_request_id == active_request_id
            && response_line_hash == StaleResponseValidator::hash_line(current_line)
    }

    fn hash_line(line: &str) -> String {
        line_hash(line)
    }
}

#[test]
fn test_response_id_mismatch_rejected() {
    assert!(!StaleResponseValidator::response_matches_request("r1", "r2", "hash1", "line1"));
}

#[test]
fn test_response_line_mismatch_rejected() {
    assert!(!StaleResponseValidator::response_matches_request("r1", "r1", "wrong_hash", "line1"));
}

#[test]
fn test_response_id_and_line_match_accepted() {
    let line = "git che";
    let hash = StaleResponseValidator::hash_line(line);
    assert!(StaleResponseValidator::response_matches_request("r1", "r1", &hash, line));
}

#[test]
fn test_response_cursor_moved_rejected() {
    let line1 = "git ch";
    let line2 = "git checkout";
    let hash1 = StaleResponseValidator::hash_line(line1);
    assert!(!StaleResponseValidator::response_matches_request("r1", "r1", &hash1, line2));
}

#[test]
fn test_response_empty_line_rejected_when_user_erased() {
    let line1 = "git che";
    let line2 = "";
    let hash1 = StaleResponseValidator::hash_line(line1);
    assert!(!StaleResponseValidator::response_matches_request("r1", "r1", &hash1, line2));
}

#[test]
fn line_hash_is_the_default_hasher_in_lowercase_hex() {
    for line in ["git che", "", "ls -la", "échec"] {
        let mut hasher = std::collections::hash_map::DefaultHasher::new();
        line.hash(&mut hasher);
        assert_eq!(line_hash(line), format!("{:x}", hasher.finish()));
    }
}

#[test]
fn hex_spelling_has_no_leading_zeros() {
    assert_eq!(to_hex(0), "0");
    assert_eq!(to_hex(15), "f");
    assert_eq!(to_hex(16), "10");
    assert_eq!(to_hex(0xdead_beef), "deadbeef");
    assert_eq!(to_hex(u64::MAX), "ffffffffffffffff");
}

#[test]
fn line_hash_is_short_lowercase_hex() {
    for line in ["git che", "", "git checkout main", "ls -la /tmp"] {
        let h = line_hash(line);
        assert!(!h.is_empty() && h.len() <= 16);
        assert!(h.chars().all(|c| c.is_ascii_digit() || ('a'..='f').contains(&c)));
        assert_eq!(h, line_hash(line));
    }
    assert_ne!(line_hash("git ch"), line_hash("git checkout"));
}
