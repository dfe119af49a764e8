use netwatch::error::NetwatchError;
use netwatch::validation::{
    sanitize_user_input, validate_bandwidth, validate_config_string, validate_file_path,
    validate_interface_name, validate_refresh_interval,
};

#[test]
fn test_interface_name_validation() {
    // Valid interface names
    assert!(validate_interface_name("eth0").is_ok());
    assert!(validate_interface_name("wlan0").is_ok());
    assert!(validate_interface_name("en0").is_ok());
    assert!(validate_interface_name("lo").is_ok());
    assert!(validate_interface_name("br-docker0").is_ok());

    // Invalid interface names
    assert!(validate_interface_name("").is_err());
    assert!(validate_interface_name("../../../etc/passwd").is_err());
    assert!(validate_interface_name(
        "interface_with_very_long_name_that_exceeds_the_maximum_allowed_length"
    )
    .is_err());
    assert!(validate_interface_name("interface with spaces").is_err());
    assert!(validate_interface_name("interface\x00null").is_err());
    assert!(validate_interface_name("interface\nwith\nnewlines").is_err());
    assert!(validate_interface_name("/proc/net/dev").is_err());
    assert!(validate_interface_name("proc").is_err());
    assert!(validate_interface_name("sys").is_err());
}

#[test]
fn test_file_path_validation() {
    // Valid file paths
    assert!(validate_file_path("/tmp/netwatch.log", Some("log")).is_ok());
    assert!(validate_file_path("/home/user/config.toml", Some("toml")).is_ok());
    assert!(validate_file_path("./local.log", Some("log")).is_ok());

    // Invalid file paths
    assert!(validate_file_path("", None).is_err());
    assert!(validate_file_path("../../../etc/passwd", None).is_err());
    assert!(validate_file_path("/etc/shadow", None).is_err());
    assert!(validate_file_path("/proc/version", None).is_err());
    assert!(validate_file_path("file\x00with\x00nulls", None).is_err());
    assert!(validate_file_path("/tmp/file.txt", Some("log")).is_err()); // Wrong extension
}

#[test]
fn validation_test_refresh_interval_validation() {
    // Valid intervals
    assert!(validate_refresh_interval(500).is_ok());
    assert!(validate_refresh_interval(1000).is_ok());
    assert!(validate_refresh_interval(30000).is_ok());

    // Invalid intervals
    assert!(validate_refresh_interval(50).is_err()); // Too small
    assert!(validate_refresh_interval(120000).is_err()); // Too large
}

#[test]
fn test_bandwidth_validation() {
    // Valid bandwidth values
    assert!(validate_bandwidth(1000).is_ok());
    assert!(validate_bandwidth(1000000).is_ok());
    assert!(validate_bandwidth(100000000).is_ok());

    // Invalid bandwidth values
    assert!(validate_bandwidth(u64::MAX).is_err()); // Too large
    assert!(validate_bandwidth(2_000_000_000).is_err()); // Unrealistic
}

#[test]
fn test_config_string_validation() {
    // Valid config strings
    assert!(validate_config_string("normal_value", "test_field").is_ok());
    assert!(validate_config_string("value-with-hyphens", "test_field").is_ok());
    assert!(validate_config_string("value_with_underscores", "test_field").is_ok());

    // Invalid config strings
    assert!(validate_config_string("value$(echo hack)", "test_field").is_err());
    assert!(validate_config_string("value`whoami`", "test_field").is_err());
    assert!(validate_config_string("value && rm -rf /", "test_field").is_err());
    assert!(validate_config_string("value\x00null", "test_field").is_err());
    assert!(validate_config_string(&"x".repeat(2000), "test_field").is_err());
    // Too long
}

#[test]
fn test_sanitize_user_input() {
    assert_eq!(sanitize_user_input("normal input", 100), "normal input");
    assert_eq!(sanitize_user_input("input$(echo)", 100), "input\\$(echo)");
    assert_eq!(
        sanitize_user_input("input`whoami`", 100),
        "input\\`whoami\\`"
    );
    assert_eq!(
        sanitize_user_input("input\"quoted\"", 100),
        "input\\\"quoted\\\""
    );
    assert_eq!(
        sanitize_user_input("very long input that exceeds limit", 10),
        "very long "
    );
    assert_eq!(sanitize_user_input("input\x00null", 100), "inputnull");
}

#[test]
fn interface_name_messages_name_the_failed_check() {
    let msg = |r: Result<(), NetwatchError>| match r {
        Err(NetwatchError::Parse(m)) => m,
        _ => panic!("expected a parse error"),
    };
    assert_eq!(msg(validate_interface_name("")), "Interface name cannot be empty");
    assert_eq!(
        msg(validate_interface_name("abcdefghijklmnopq")),
        "Interface name too long (max 16 characters)"
    );
    assert_eq!(msg(validate_interface_name("a..b")), "Invalid characters in interface name");
    assert_eq!(
        msg(validate_interface_name("eth\n0")),
        "Control characters not allowed in interface name"
    );
    assert_eq!(msg(validate_interface_name("eth 0")), "Invalid characters in interface name");
    assert_eq!(msg(validate_interface_name("MyDEVice")), "Suspicious interface name pattern");
    // sixteen bytes is still accepted
    assert!(validate_interface_name("abcdefghijklmnop").is_ok());
    // the length limit counts bytes, not characters
    assert!(validate_interface_name("ééééééééé").is_err());
}

#[test]
fn file_path_extension_rules() {
    let msg = |r: Result<(), NetwatchError>| match r {
        Err(NetwatchError::Config(m)) => m,
        Ok(()) => String::from("ok"),
        _ => panic!("expected a configuration error"),
    };
    assert_eq!(msg(validate_file_path("/tmp/a.LOG", Some("log"))), "ok");
    assert_eq!(msg(validate_file_path("/tmp/a.log/.", Some("log"))), "ok");
    assert_eq!(
        msg(validate_file_path("/tmp/.log", Some("log"))),
        "Missing file extension, expected: log"
    );
    assert_eq!(
        msg(validate_file_path("/tmp/noext", Some("log"))),
        "Missing file extension, expected: log"
    );
    assert_eq!(
        msg(validate_file_path("/tmp/a.txt", Some("log"))),
        "Invalid file extension, expected: log"
    );
    assert_eq!(msg(validate_file_path("/bin2/x.log", None)), "Access to sensitive directory denied");
    assert_eq!(msg(validate_file_path("a/../b", None)), "Path traversal detected");
    assert_eq!(
        msg(validate_file_path(&"a".repeat(4097), None)),
        "File path too long (max 4096 characters)"
    );
}

#[test]
fn refresh_interval_bounds_are_inclusive() {
    assert!(validate_refresh_interval(100).is_ok());
    assert!(validate_refresh_interval(60_000).is_ok());
    assert!(validate_refresh_interval(99).is_err());
    assert!(validate_refresh_interval(60_001).is_err());
    assert!(validate_bandwidth(1_000_000_000).is_ok());
    assert!(validate_bandwidth(1_000_000_001).is_err());
}

#[test]
fn config_string_messages_name_the_field() {
    match validate_config_string("a;b", "Devices") {
        Err(NetwatchError::Config(m)) => assert_eq!(m, "Suspicious pattern detected in field: Devices"),
        _ => panic!("expected a configuration error"),
    }
    match validate_config_string("a\u{7}b", "Devices") {
        Err(NetwatchError::Config(m)) => {
            assert_eq!(m, "Invalid characters in configuration field: Devices")
        }
        _ => panic!("expected a configuration error"),
    }
    assert!(validate_config_string("line\nnext\ttab", "Devices").is_ok());
}

#[test]
fn sanitize_keeps_newlines_and_escapes_quotes() {
    assert_eq!(sanitize_user_input("a\nb\tc\u{1b}d", 100), "a\nb\tcd");
    assert_eq!(sanitize_user_input("it's", 100), "it\\'s");
    assert_eq!(sanitize_user_input("$$", 1), "\\$");
}

#[test]
fn sanitized_text_has_no_control_characters_and_escapes_each_metacharacter() {
    let out = sanitize_user_input("a$b\u{1}c`d\"e'f\u{7f}\n\tz", 100);
    assert_eq!(out, "a\\$bc\\`d\\\"e\\'f\n\tz");
    let chars: Vec<char> = out.chars().collect();
    for (i, c) in chars.iter().enumerate() {
        assert!(!c.is_control() || *c == '\n' || *c == '\t');
        if matches!(c, '$' | '`' | '"' | '\'') {
            assert_eq!(chars[i - 1], '\\');
        }
    }
    let long = sanitize_user_input("$$$$$$$$$$", 4);
    assert_eq!(long, "\\$\\$\\$\\$");
    assert!(long.chars().count() <= 8);
}

#[test]
fn accepted_names_and_paths_are_plain() {
    for name in ["eth0", "wlan0", "en0", "br-lan", "veth_1.2"] {
        assert!(validate_interface_name(name).is_ok());
        assert!(name.len() <= 16 && !name.contains("..") && !name.contains('/'));
    }
    assert!(validate_file_path("/tmp/netwatch.LOG", Some("log")).is_ok());
    assert!(validate_file_path("/tmp/netwatch", Some("log")).is_err());
    assert!(validate_file_path("/etc/netwatch.log", Some("log")).is_err());
}
