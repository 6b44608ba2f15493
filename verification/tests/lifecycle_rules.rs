use shellclaw::lifecycle::{
    first_pid, looks_like_daemon, parse_pid, pid_file_matches, pid_file_text, stop_target,
    SocketProbe,
};
use shellclaw::num::decimal_string;
use shellclaw::scheduler::model_idle_seconds;

#[test]
fn pid_file_text_is_decimal() {
    assert_eq!(pid_file_text(0), "0");
    assert_eq!(pid_file_text(4242), "4242");
    assert_eq!(pid_file_text(u32::MAX), "4294967295");
    assert_eq!(decimal_string(u64::MAX), "18446744073709551615");
    assert_eq!(decimal_string(10), "10");
}

#[test]
fn pid_is_read_with_surrounding_whitespace() {
    assert_eq!(parse_pid("  1234\n"), Some(1234));
    assert_eq!(parse_pid("+7"), Some(7));
    assert_eq!(parse_pid("4294967295"), Some(u32::MAX));
}

#[test]
fn pid_that_is_not_a_number_is_not_read() {
    assert_eq!(parse_pid(""), None);
    assert_eq!(parse_pid("abc"), None);
    assert_eq!(parse_pid("12 34"), None);
    assert_eq!(parse_pid("-1"), None);
    assert_eq!(parse_pid("4294967296"), None);
}

#[test]
fn pid_written_is_read_back() {
    for pid in [0u32, 1, 9, 10, 99, 100, 65535, 123456, u32::MAX] {
        let text = pid_file_text(pid);
        assert_eq!(parse_pid(&text), Some(pid));
        assert!(pid_file_matches(&text, pid));
    }
}

#[test]
fn pid_file_matches_only_the_exact_spelling() {
    assert!(pid_file_matches("42\n", 42));
    assert!(pid_file_matches(" 42 ", 42));
    assert!(!pid_file_matches("042", 42));
    assert!(!pid_file_matches("+42", 42));
    assert!(!pid_file_matches("43", 42));
    assert!(!pid_file_matches("", 0));
}

#[test]
fn socket_owner_is_first_line_with_a_pid() {
    assert_eq!(first_pid("\n  \nabc\n 321 \n99\n"), Some(321));
    assert_eq!(first_pid("77"), Some(77));
    assert_eq!(first_pid(""), None);
    assert_eq!(first_pid("x\ny\n"), None);
}

#[test]
fn daemon_command_line_is_recognised() {
    assert!(looks_like_daemon("/usr/local/bin/shellclaw daemon"));
    assert!(looks_like_daemon("shellclaw\tdaemon --flag"));
    assert!(!looks_like_daemon("/usr/local/bin/shellclaw start"));
    assert!(!looks_like_daemon("/usr/local/bin/shellclaw daemonize"));
    assert!(!looks_like_daemon("/usr/sbin/other daemon"));
    assert!(!looks_like_daemon(""));
}

fn probe(socket: &str, owner: Option<u32>) -> SocketProbe {
    SocketProbe { socket: socket.to_string(), owner }
}

#[test]
fn stop_prefers_pid_file_with_first_socket() {
    let probes = vec![probe("/a.sock", None), probe("/b.sock", Some(9))];
    assert_eq!(stop_target(Some(5), &probes), Some((5, "/a.sock".to_string())));
}

#[test]
fn stop_falls_back_to_socket_owner() {
    let probes = vec![probe("/a.sock", None), probe("/b.sock", Some(9))];
    assert_eq!(stop_target(None, &probes), Some((9, "/b.sock".to_string())));
    assert_eq!(stop_target(Some(5), &Vec::new()), None);
    assert_eq!(stop_target(None, &vec![probe("/a.sock", None)]), None);
}

#[test]
fn idle_period_defaults_and_floor() {
    assert_eq!(model_idle_seconds(None), 30);
    assert_eq!(model_idle_seconds(Some("60")), 60);
    assert_eq!(model_idle_seconds(Some("2")), 5);
    assert_eq!(model_idle_seconds(Some("5")), 5);
    assert_eq!(model_idle_seconds(Some("soon")), 30);
}
