use netwatch::cli::Args;
use netwatch::launch::names_refusal;
use netwatch::security::{SecurityEvent, SecurityMonitor};
use netwatch::validation::{
    check_interface_name_recorded, file_path_refusal, interface_name_refusal, invalid_input_event,
};

fn is_refusal(e: &SecurityEvent, kind: &str, value: &str) -> bool {
    matches!(e, SecurityEvent::InvalidInput { input_type, attempted_value, source }
        if input_type == kind && attempted_value == value && source == "validation")
}

#[test]
fn refused_interface_names_record_an_event() {
    for bad in ["", "averyveryverylongname0", "../etc", "eth\t0", "eth 0", "procfs", "SYS0", "devx"] {
        let e = interface_name_refusal(bad).unwrap();
        assert!(is_refusal(&e, "interface_name", bad), "{bad:?}");
    }
    for good in ["eth0", "wlan0", "en0", "br-1234", "veth_x.1"] {
        assert!(interface_name_refusal(good).is_none(), "{good:?}");
    }
}

#[test]
fn only_traversal_paths_record_an_event() {
    let e = file_path_refusal("../../../etc/passwd", None).unwrap();
    assert!(is_refusal(&e, "file_path", "../../../etc/passwd"));
    assert!(file_path_refusal("/tmp/a/../b.log", Some("log")).is_some());
    assert!(file_path_refusal("", None).is_none());
    assert!(file_path_refusal("/etc/passwd", None).is_none());
    assert!(file_path_refusal("/tmp/x.txt", Some("log")).is_none());
    assert!(file_path_refusal("/tmp/netwatch.log", Some("log")).is_none());
}

#[test]
fn first_refused_name_records() {
    let names = vec!["eth0".to_string(), "../x".to_string(), "sys1".to_string()];
    let e = names_refusal(&names).unwrap();
    assert!(is_refusal(&e, "interface_name", "../x"));
    assert!(names_refusal(&vec!["eth0".to_string()]).is_none());
    assert!(names_refusal(&vec![]).is_none());
}

#[test]
fn options_refusal_events() {
    let mut a = Args::default();
    assert!(a.refusal_event().is_none());
    a.refresh_interval = 500;
    assert!(a.refusal_event().is_none());
    a.devices = vec!["eth0".to_string(), "dev0".to_string()];
    assert!(is_refusal(&a.refusal_event().unwrap(), "interface_name", "dev0"));
    a.devices = vec!["eth0".to_string()];
    a.log_file = Some("../x.log".to_string());
    assert!(is_refusal(&a.refusal_event().unwrap(), "file_path", "../x.log"));
    a.refresh_interval = 1;
    assert!(a.refusal_event().is_none());
    a.refresh_interval = 500;
    a.log_file = Some("-".to_string());
    assert!(a.refusal_event().is_none());
    a.log_file = Some("/etc/x.log".to_string());
    assert!(a.refusal_event().is_none());
}

#[test]
fn refusal_events_are_counted() {
    let mut m = SecurityMonitor::new();
    let critical = m.record_event(invalid_input_event("interface_name", "../etc"));
    assert!(!critical);
    let st = m.get_statistics();
    assert_eq!(st.total_events, 1);
    assert_eq!(st.event_types, vec![("invalid_input_interface_name".to_string(), 1)]);
}

#[test]
fn checking_an_interface_name_records_a_refusal_once() {
    let mut m = SecurityMonitor::new();
    assert!(check_interface_name_recorded("eth0", &mut m).is_ok());
    assert_eq!(m.get_statistics().total_events, 0);
    assert!(check_interface_name_recorded("../etc", &mut m).is_err());
    assert!(check_interface_name_recorded("sys0", &mut m).is_err());
    let st = m.get_statistics();
    assert_eq!(st.total_events, 2);
    assert_eq!(st.event_types, vec![("invalid_input_interface_name".to_string(), 2)]);
}
