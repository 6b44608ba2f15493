use shellclaw::config::{
    config_path, data_dir, default_model_path, join_path, legacy_socket_path,
    pid_path, read_config_bool, with_config_bool, ConfigEnv, DaemonConfig,
};
use shellclaw::num::parse_usize;

fn env() -> ConfigEnv {
    ConfigEnv { home: None, data_dir: None, socket_path: None, model_path: None, max_line_length: None }
}

#[test]
fn flags_are_read_from_key_value_lines() {
    assert!(read_config_bool("log_enabled=1\n", "log_enabled"));
    assert!(read_config_bool("  log_enabled = yes  \n", "log_enabled"));
    assert!(read_config_bool("x=0\nlog_enabled=on", "log_enabled"));
    assert!(read_config_bool("log_enabled=true\r\n", "log_enabled"));
    assert!(!read_config_bool("log_enabled=0\n", "log_enabled"));
    assert!(!read_config_bool("log_enabled=TRUE\n", "log_enabled"));
    assert!(!read_config_bool("", "log_enabled"));
    assert!(!read_config_bool("log_enabled\n", "log_enabled"));
    // The first entry decides.
    assert!(!read_config_bool("log_enabled=0\nlog_enabled=1\n", "log_enabled"));
}

#[test]
fn flag_write_replaces_or_appends() {
    assert_eq!(with_config_bool("", "log_enabled", true), "log_enabled=1\n");
    assert_eq!(with_config_bool("a=b\nlog_enabled=1\nc=d", "log_enabled", false), "a=b\nlog_enabled=0\nc=d\n");
    assert_eq!(with_config_bool("a=b\n", "log_enabled", true), "a=b\nlog_enabled=1\n");
}

#[test]
fn flag_reads_back_what_was_written() {
    for text in ["", "a=b\n", "log_enabled=0\n", "x\r\nlog_enabled=yes\n"] {
        for v in [true, false] {
            let written = with_config_bool(text, "log_enabled", v);
            assert_eq!(read_config_bool(&written, "log_enabled"), v, "{text:?}");
        }
    }
}

#[test]
fn an_earlier_spaced_entry_shadows_the_written_one() {
    let written = with_config_bool(" log_enabled = yes\n", "log_enabled", false);
    assert_eq!(written, " log_enabled = yes\nlog_enabled=0\n");
    assert!(read_config_bool(&written, "log_enabled"));
}

#[test]
fn paths_follow_the_data_directory() {
    let mut e = env();
    e.home = Some("/Users/me".into());
    assert_eq!(data_dir(&e), "/Users/me/.shellclaw");
    e.home = Some("/Users/me/".into());
    assert_eq!(data_dir(&e), "/Users/me/.shellclaw");
    assert_eq!(data_dir(&env()), "/tmp/.shellclaw");
    e.data_dir = Some("/data".into());
    assert_eq!(data_dir(&e), "/data");
    assert_eq!(config_path("/data"), "/data/config");
    assert_eq!(pid_path("/data"), "/data/daemon.pid");
    assert_eq!(join_path("", "x"), "x");
    assert_eq!(
        default_model_path(&e),
        "/data/models/qwen2.5-coder-0.5b-instruct-finetuned.gguf"
    );
    e.model_path = Some("/m.gguf".into());
    assert_eq!(default_model_path(&e), "/m.gguf");
}

#[test]
fn legacy_socket_only_without_overrides() {
    assert_eq!(legacy_socket_path(&env()), Some("/tmp/shellclaw.sock".to_string()));
    let mut e = env();
    e.socket_path = Some("/s".into());
    assert_eq!(legacy_socket_path(&e), None);
}

#[test]
fn usize_parsing() {
    assert_eq!(parse_usize("4096"), Some(4096));
    assert_eq!(parse_usize("+12"), Some(12));
    assert_eq!(parse_usize(""), None);
    assert_eq!(parse_usize("+"), None);
    assert_eq!(parse_usize("-1"), None);
    assert_eq!(parse_usize(" 1"), None);
    assert_eq!(parse_usize("18446744073709551615"), Some(usize::MAX));
    assert_eq!(parse_usize("18446744073709551616"), None);
    assert_eq!(parse_usize("99999999999999999999x"), None);
}

#[test]
fn load_combines_environment_and_file() {
    let mut e = env();
    e.home = Some("/h".into());
    e.max_line_length = Some("100".into());
    let c = DaemonConfig::load(&e, "log_enabled=1\n");
    assert_eq!(c.socket_path, "/h/.shellclaw/daemon.sock");
    assert_eq!(c.db_path, "/h/.shellclaw/memory.db");
    assert_eq!(c.log_path, "/h/.shellclaw/daemon.log");
    assert!(c.log_enabled);
    assert_eq!(c.max_line_length, 100);
    e.max_line_length = Some("lots".into());
    e.socket_path = Some("/run/s.sock".into());
    let c = DaemonConfig::load(&e, "");
    assert_eq!(c.socket_path, "/run/s.sock");
    assert!(!c.log_enabled);
    assert_eq!(c.max_line_length, 4096);
    let d = DaemonConfig::with_defaults(&e);
    assert_eq!(d.socket_path, "/h/.shellclaw/daemon.sock");
    assert!(!d.log_enabled);
    assert_eq!(d.max_line_length, 4096);
}

#[test]
fn flag_reads_back_when_an_earlier_spaced_entry_agrees() {
    let text = with_config_bool("log_enabled = yes\n", "log_enabled", true);
    assert_eq!(text, "log_enabled = yes\nlog_enabled=1\n");
    assert!(read_config_bool(&text, "log_enabled"));
    // An earlier entry with the other value still decides.
    let text = with_config_bool("log_enabled = yes\n", "log_enabled", false);
    assert!(read_config_bool(&text, "log_enabled"));
}
