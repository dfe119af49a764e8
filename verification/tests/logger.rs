use netwatch::device::NetworkStats;
use netwatch::error::NetwatchError;
use netwatch::logger::{log_header, log_line, log_target, LogTarget};
use netwatch::stats::StatsCalculator;

fn reading(timestamp: u64, bytes_in: u64, bytes_out: u64) -> NetworkStats {
    NetworkStats {
        timestamp,
        bytes_in,
        bytes_out,
        packets_in: 0,
        packets_out: 0,
        errors_in: 0,
        errors_out: 0,
        drops_in: 0,
        drops_out: 0,
    }
}

#[test]
fn no_path_logs_nowhere_and_dash_logs_to_stdout() {
    assert!(matches!(log_target(None), Ok(LogTarget::Silent)));
    assert!(matches!(log_target(Some("-")), Ok(LogTarget::Stdout)));
}

#[test]
fn log_files_must_be_safe_log_paths() {
    match log_target(Some("/tmp/traffic.log")) {
        Ok(LogTarget::File(p)) => assert_eq!(p, "/tmp/traffic.log"),
        other => panic!("unexpected {other:?}"),
    }
    match log_target(Some("/tmp/traffic.txt")) {
        Err(NetwatchError::Config(m)) => assert_eq!(m, "Invalid file extension, expected: log"),
        other => panic!("unexpected {other:?}"),
    }
    match log_target(Some("/etc/../tmp/x.log")) {
        Err(NetwatchError::Config(m)) => assert_eq!(m, "Path traversal detected"),
        other => panic!("unexpected {other:?}"),
    }
}

#[test]
fn header_names_the_columns() {
    assert!(log_header().starts_with("Date Time DeviceName DataInTotal"));
    assert!(log_header().ends_with("TimeSeconds TimeMicroSeconds\n"));
}

#[test]
fn line_lists_totals_speeds_and_time() {
    let mut calc = StatsCalculator::new(60_000);
    calc.add_sample(reading(1_000_000, 1000, 500));
    calc.add_sample(reading(1_001_000, 3000, 1500));
    let (ci, co) = calc.current_speed();
    let (ai, ao) = calc.average_speed();
    let (ni, no) = calc.min_speed();
    let (mi, mo) = calc.max_speed();
    assert_eq!((ci, co), (2000, 1000));
    let line = log_line("2024-01-02", "03:04:05", "eth0", &calc, 1_704_164_645, 42).unwrap();
    assert_eq!(
        line,
        format!("2024-01-02 03:04:05 eth0 3000 1500 {ci} {co} {ai} {ao} {ni} {no} {mi} {mo} 1704164645 42\n")
    );
}

#[test]
fn line_before_the_epoch_has_a_negative_time() {
    let calc = StatsCalculator::new(60_000);
    let line = log_line("1969-12-31", "23:59:59", "lo", &calc, -1, 0).unwrap();
    assert_eq!(line, "1969-12-31 23:59:59 lo 0 0 0 0 0 0 0 0 0 0 -1 0\n");
}

#[test]
fn line_refuses_a_bad_device_name() {
    let calc = StatsCalculator::new(60_000);
    match log_line("d", "t", "../eth0", &calc, 0, 0) {
        Err(NetwatchError::Parse(_)) => {}
        other => panic!("unexpected {other:?}"),
    }
}
