use netwatch::cli::Args;
use netwatch::error::NetwatchError;
use netwatch::launch::{check_interfaces, interface_choice, run_mode, InterfaceChoice, RunMode};

#[test]
fn run_modes_in_order_of_precedence() {
    let mut a = Args::default();
    assert_eq!(run_mode(&a), RunMode::Dashboard);
    a.sre_terminal = true;
    assert_eq!(run_mode(&a), RunMode::SreTerminal);
    a.show_overview = true;
    assert_eq!(run_mode(&a), RunMode::ShowOverview);
    a.list = true;
    assert_eq!(run_mode(&a), RunMode::ListInterfaces);
}

#[test]
fn interfaces_come_from_arguments_then_configuration() {
    let given = vec!["eth0".to_string()];
    assert!(matches!(interface_choice(&given, "all"), InterfaceChoice::Named(v) if v == given));
    assert!(matches!(interface_choice(&vec![], "all"), InterfaceChoice::AllListed));
    assert!(matches!(interface_choice(&vec![], " eth0  wlan0 "), InterfaceChoice::Named(v) if v == vec!["eth0".to_string(), "wlan0".to_string()]));
}

#[test]
fn interfaces_must_be_valid_and_available() {
    let available = vec!["lo".to_string(), "eth0".to_string()];
    assert!(check_interfaces(&vec!["eth0".to_string()], &available, true).is_ok());
    match check_interfaces(&vec!["wlan0".to_string()], &available, true) {
        Err(NetwatchError::DeviceNotFound(m)) => {
            assert_eq!(m, "Interface 'wlan0' not found. Available interfaces: lo, eth0")
        }
        other => panic!("unexpected {other:?}"),
    }
    match check_interfaces(&vec!["eth0".to_string(), "../x".to_string()], &available, true) {
        Err(NetwatchError::Parse(m)) => assert_eq!(m, "Invalid characters in interface name"),
        other => panic!("unexpected {other:?}"),
    }
    assert!(matches!(check_interfaces(&vec![], &available, true), Err(NetwatchError::DeviceNotFound(m)) if m == "No network interfaces found"));
    assert!(check_interfaces(&vec![], &available, false).is_ok());
}

fn cli_args() -> Args {
    Args { refresh_interval: 500, average_window: 300, ..Args::default() }
}

fn refusal(a: &Args) -> String {
    match a.validate() {
        Err(e) => e.describe(),
        Ok(()) => panic!("options accepted"),
    }
}

#[test]
fn options_with_defaults_pass() {
    assert!(cli_args().validate().is_ok());
    let a = Args { average_window: 600, max_incoming: 1000, max_outgoing: 1000, multiple_devices: true, ..cli_args() };
    assert!(a.validate().is_ok());
}

#[test]
fn device_names_are_checked_first() {
    let with = |d: &str| Args { devices: vec![d.to_string()], ..cli_args() };
    assert!(refusal(&with("../etc/passwd")).contains("Invalid characters in interface name"));
    assert!(refusal(&with("eth0; rm -rf /")).contains("Invalid characters in interface name"));
    assert!(refusal(&with("eth\npwd")).contains("Control characters not allowed"));
    for name in ["proc", "sys", "dev"] {
        assert!(refusal(&with(name)).contains("Suspicious interface name pattern"));
    }
    let both = Args { devices: vec!["../x".to_string()], refresh_interval: 50, ..cli_args() };
    assert_eq!(refusal(&both), "Parse error: Invalid characters in interface name");
}

#[test]
fn refresh_interval_and_scales_are_bounded() {
    let fast = Args { refresh_interval: 50, ..cli_args() };
    assert!(refusal(&fast).contains("Refresh interval too small"));
    let slow = Args { refresh_interval: 120_000, ..cli_args() };
    assert!(refusal(&slow).contains("Refresh interval too large"));
    let wide = Args { max_incoming: 9_999_999_999, ..cli_args() };
    assert!(refusal(&wide).contains("Bandwidth value too large"));
    let wide_out = Args { max_outgoing: 9_999_999_999, ..cli_args() };
    assert!(refusal(&wide_out).contains("Bandwidth value too large"));
}

#[test]
fn log_file_must_be_a_safe_log_path_or_stdout() {
    let log = |p: &str| Args { log_file: Some(p.to_string()), ..cli_args() };
    assert!(refusal(&log("../../../etc/shadow")).contains("Path traversal detected"));
    assert!(refusal(&log("/tmp/run/netwatch.txt")).contains("Invalid file extension, expected: log"));
    assert!(log("-").validate().is_ok());
    assert!(log("/tmp/run/test.log").validate().is_ok());
}
