use netwatch::error::NetwatchError;
use netwatch::security::{SecurityAnomaly, SecurityEvent, SecurityMonitor};

#[test]
fn test_security_event_recording() {
    let mut monitor = SecurityMonitor::new();

    let event = SecurityEvent::InvalidInput {
        input_type: "interface_name".to_string(),
        attempted_value: "../etc/passwd".to_string(),
        source: "cli".to_string(),
    };

    monitor.record_event(event);

    let stats = monitor.get_statistics();
    assert_eq!(stats.total_events, 1);
    assert_eq!(stats.event_type_count("invalid_input_interface_name"), Some(1));
}

#[test]
fn test_rate_limiting() {
    let mut monitor = SecurityMonitor::new();

    // First few attempts should succeed
    for _i in 0..3 {
        assert!(monitor.check_rate_limit("test_source", 5).is_ok());
    }

    // Should still be under limit
    assert!(monitor.check_rate_limit("test_source", 5).is_ok());
    assert!(monitor.check_rate_limit("test_source", 5).is_ok());

    // This should exceed the limit
    assert!(monitor.check_rate_limit("test_source", 5).is_err());
}

#[test]
fn test_anomaly_detection() {
    let mut monitor = SecurityMonitor::new();

    // Generate burst of events
    for i in 0..15 {
        let event = SecurityEvent::InvalidInput {
            input_type: "test".to_string(),
            attempted_value: format!("attack_{i}"),
            source: "attacker".to_string(),
        };
        monitor.record_event(event);
    }

    let anomalies = monitor.check_anomalies();
    assert!(!anomalies.is_empty());

    // Should detect event burst
    assert!(anomalies
        .iter()
        .any(|a| matches!(a, SecurityAnomaly::EventBurst { .. })));

    // Should detect repeated invalid input
    assert!(anomalies
        .iter()
        .any(|a| matches!(a, SecurityAnomaly::RepeatedInvalidInput { .. })));
}

#[test]
fn test_critical_event_detection() {
    let mut monitor = SecurityMonitor::new();

    let critical_event = SecurityEvent::ConfigTampering {
        config_field: "log_file".to_string(),
        old_value: "/tmp/netwatch.log".to_string(),
        new_value: "/etc/passwd".to_string(),
    };

    monitor.record_event(critical_event);

    let stats = monitor.get_statistics();
    assert_eq!(stats.critical_events, 1);
}

fn invalid(source: &str) -> SecurityEvent {
    SecurityEvent::InvalidInput {
        input_type: "interface_name".to_string(),
        attempted_value: "x".to_string(),
        source: source.to_string(),
    }
}

#[test]
fn log_keeps_the_last_thousand_events() {
    let mut m = SecurityMonitor::new();
    for i in 0..1005u64 {
        assert!(!m.record_event_at(invalid("cli"), i));
    }
    let st = m.get_statistics_at(1005);
    assert_eq!(st.total_events, 1000);
    // the counter keeps counting past the log's capacity
    assert_eq!(st.event_type_count("invalid_input_interface_name"), Some(1005));
    assert!(m.record_event_at(
        SecurityEvent::ResourceExhaustion {
            resource_type: "memory".to_string(),
            usage_amount: 10,
            limit: 5,
        },
        2000
    ));
}

#[test]
fn statistics_count_events_by_age() {
    let mut m = SecurityMonitor::new();
    m.record_event_at(invalid("a"), 0);
    m.record_event_at(invalid("a"), 90_000_000);
    m.record_event_at(
        SecurityEvent::SuspiciousFileAccess { path: "/etc".to_string(), access_type: "r".to_string() },
        100_000_000,
    );
    let st = m.get_statistics_at(100_000_000 + 1_000);
    assert_eq!(st.total_events, 3);
    assert_eq!(st.events_last_hour, 1);
    assert_eq!(st.events_last_day, 2);
    assert_eq!(st.critical_events, 1);
    assert_eq!(st.event_type_count("suspicious_file_access"), Some(1));
    assert_eq!(st.event_type_count("invalid_input_interface_name"), Some(2));
    assert_eq!(st.event_type_count("config_tampering"), None);
}

#[test]
fn anomalies_per_source_in_first_seen_order() {
    let mut m = SecurityMonitor::new();
    for _ in 0..4 {
        m.record_event_at(invalid("b"), 10_000);
    }
    for _ in 0..3 {
        m.record_event_at(invalid("c"), 10_000);
    }
    for _ in 0..5 {
        m.record_event_at(invalid("a"), 10_000);
    }
    // an old event does not count
    m.record_event_at(invalid("c"), 0);
    let a = m.check_anomalies_at(65_000);
    assert_eq!(a.len(), 3);
    assert!(matches!(a[0], SecurityAnomaly::EventBurst { event_count: 12, time_window_secs: 60 }));
    match (&a[1], &a[2]) {
        (
            SecurityAnomaly::RepeatedInvalidInput { source: s1, attempt_count: 4 },
            SecurityAnomaly::RepeatedInvalidInput { source: s2, attempt_count: 5 },
        ) => {
            assert_eq!(s1, "b");
            assert_eq!(s2, "a");
        }
        _ => panic!("unexpected anomalies"),
    }
    assert!(m.check_anomalies_at(200_000).is_empty());
}

#[test]
fn rate_limit_window_restarts_after_a_minute() {
    let mut m = SecurityMonitor::new();
    assert!(m.check_rate_limit_at("s", 0, 1_000).is_ok());
    assert!(m.check_rate_limit_at("s", 1, 1_000).is_err());
    match m.check_rate_limit_at("s", 1, 61_000) {
        Err(NetwatchError::Security(msg)) => assert_eq!(msg, "Rate limit exceeded for source: s"),
        _ => panic!("expected a security error"),
    }
    assert!(m.check_rate_limit_at("s", 1, 61_001).is_ok());
    assert!(m.check_rate_limit_at("t", 1, 61_001).is_ok());
}

#[test]
fn rate_limit_counts_each_source_in_its_own_window() {
    let mut m = SecurityMonitor::new();
    // source "a": three checks pass with a limit of 3, the fourth is refused
    for k in 1..=3 {
        assert!(m.check_rate_limit_at("a", 3, 1_000 + k).is_ok(), "check {k}");
    }
    // another source meanwhile has a window of its own
    assert!(m.check_rate_limit_at("b", 1, 2_000).is_ok());
    assert!(m.check_rate_limit_at("b", 1, 2_001).is_err());
    assert!(m.check_rate_limit_at("a", 3, 5_000).is_err());
    // a new window for "a" more than a minute after its start: counts from 1
    assert!(m.check_rate_limit_at("a", 3, 70_000).is_ok());
    assert!(m.check_rate_limit_at("a", 3, 70_001).is_ok());
    assert!(m.check_rate_limit_at("a", 3, 70_002).is_ok());
    assert!(m.check_rate_limit_at("a", 3, 70_003).is_err());
    // the first check of a window passes even with a limit of 0
    assert!(m.check_rate_limit_at("c", 0, 70_004).is_ok());
    assert!(m.check_rate_limit_at("c", 0, 70_005).is_err());
}
