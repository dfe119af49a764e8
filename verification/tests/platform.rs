use netwatch::device::{Device, NetworkReader, NetworkStats};
use netwatch::error::{NetwatchError, Result};
use netwatch::platform::{LinuxReader, MacOSReader};

#[test]
fn test_parse_proc_net_dev() {
    let reader = LinuxReader::new();
    let sample_data = r#"Inter-|   Receive                                                |  Transmit
 face |bytes    packets errs drop fifo frame compressed multicast|bytes    packets errs drop fifo colls carrier compressed
    lo: 1234567      100    0    0    0     0          0         0  1234567      100    0    0    0     0       0          0
  eth0: 9876543210   5000    0    0    0     0          0         0  1234567890   3000    0    0    0     0       0          0
"#;

    let stats = reader.parse_proc_net_dev(sample_data, "eth0").unwrap();
    assert_eq!(stats.bytes_in, 9876543210);
    assert_eq!(stats.bytes_out, 1234567890);
    assert_eq!(stats.packets_in, 5000);
    assert_eq!(stats.packets_out, 3000);
}

#[test]
fn test_device_not_found() {
    let reader = LinuxReader::new();
    let sample_data = r#"Inter-|   Receive                                                |  Transmit
 face |bytes    packets errs drop fifo frame compressed multicast|bytes    packets errs drop fifo colls carrier compressed
    lo: 1234567      100    0    0    0     0          0         0  1234567      100    0    0    0     0       0          0
"#;

    let result = reader.parse_proc_net_dev(sample_data, "nonexistent");
    assert!(result.is_err());
    assert!(matches!(
        result.unwrap_err(),
        NetwatchError::DeviceNotFound(_)
    ));
}

#[test]
fn proc_net_dev_reads_all_counters_and_skips_headers() {
    let reader = LinuxReader::new();
    let data = "eth0: 1 2 3 4 5 6 7 8 9 10 11 12\nheader\r\n eth0:  10 20 30 40 0 0 0 0 50 60 70 80\n";
    let s = reader.parse_proc_net_dev_at(data, "eth0", 77).unwrap();
    assert_eq!(
        s,
        NetworkStats {
            timestamp: 77,
            bytes_in: 10,
            packets_in: 20,
            errors_in: 30,
            drops_in: 40,
            bytes_out: 50,
            packets_out: 60,
            errors_out: 70,
            drops_out: 80,
        }
    );
    // short lines and unparsable counters read as zero
    let s = reader.parse_proc_net_dev_at("a\nb\nwlan0: 5 x\n", "wlan0", 1).unwrap();
    assert_eq!((s.bytes_in, s.packets_in, s.bytes_out), (5, 0, 0));
    match reader.parse_proc_net_dev_at("a\nb\n", "eth1", 0) {
        Err(NetwatchError::DeviceNotFound(name)) => assert_eq!(name, "eth1"),
        _ => panic!("expected DeviceNotFound"),
    }
}

#[test]
fn proc_net_dev_device_list_filters_virtual_interfaces() {
    let reader = LinuxReader::new();
    let data = "h1\nh2\n    lo: 1 2\n  eth0: 1 2\ndocker0: 3\nveth12: 4\nbr-x: 5\n   : 6\nwlan0:7\n";
    assert_eq!(reader.parse_device_list(data), vec!["eth0".to_string(), "wlan0".to_string()]);
    assert!(reader.parse_device_list("only one line").is_empty());
}

#[test]
fn netstat_output_is_matched_by_padded_name() {
    let reader = MacOSReader::new();
    let out = "Name       Mtu   Network       Address            Ipkts Ierrs     Ibytes    Opkts Oerrs     Obytes  Coll\n\
en0        1500  <Link#6>    aa:bb:cc:dd:ee:ff  1000     2    3000000      900     1    2000000     0\n";
    let s = reader.parse_netstat_output_at(out, "en0", 5).unwrap();
    assert_eq!(
        (s.packets_in, s.errors_in, s.bytes_in, s.packets_out, s.errors_out, s.bytes_out),
        (1000, 2, 3000000, 900, 1, 2000000)
    );
    assert!(reader.parse_netstat_output_at(out, "en1", 5).is_err());
    let known = vec!["en0".to_string()];
    assert!(!reader.admits_device(&known, "en0"));
    assert!(!reader.admits_device(&known, "lo0"));
    assert!(reader.admits_device(&known, "en1"));
}

struct FixedReader(Option<NetworkStats>);

impl NetworkReader for FixedReader {
    fn list_devices(&self) -> Result<Vec<String>> {
        Ok(vec!["eth0".to_string()])
    }
    fn read_stats(&self, device: &str) -> Result<NetworkStats> {
        self.0.ok_or_else(|| NetwatchError::DeviceNotFound(device.to_string()))
    }
    fn is_available(&self) -> bool {
        true
    }
}

#[test]
fn device_update_tracks_reader_outcome() {
    let mut d = Device::new("eth0".to_string());
    assert!(!d.is_active);
    let mut reading = NetworkStats::at(9);
    reading.bytes_in = 42;
    assert!(d.update(&FixedReader(Some(reading))).is_ok());
    assert!(d.is_active);
    assert_eq!(d.stats, reading);
    assert!(d.update(&FixedReader(None)).is_err());
    assert!(!d.is_active);
    assert_eq!(d.stats, reading);
}

/// A reader whose counters tell which device was asked for.
struct ByNameReader;

impl NetworkReader for ByNameReader {
    fn list_devices(&self) -> Result<Vec<String>> {
        Ok(vec!["eth0".to_string(), "lo".to_string()])
    }
    fn read_stats(&self, device: &str) -> Result<NetworkStats> {
        if device == "eth0" {
            let mut s = NetworkStats::at(7);
            s.bytes_in = 1234;
            Ok(s)
        } else {
            Err(NetwatchError::DeviceNotFound(device.to_string()))
        }
    }
    fn is_available(&self) -> bool {
        true
    }
}

#[test]
fn device_update_reads_its_own_name() {
    let mut d = Device::new("eth0".to_string());
    assert!(d.update(&ByNameReader).is_ok());
    assert!(d.is_active);
    assert_eq!(d.stats.bytes_in, 1234);
    assert_eq!(d.stats.timestamp, 7);
    let mut w = Device::new("wlan9".to_string());
    let before = w.stats;
    match w.update(&ByNameReader) {
        Err(NetwatchError::DeviceNotFound(m)) => assert_eq!(m, "wlan9"),
        other => panic!("expected the reader's error, got {other:?}"),
    }
    assert!(!w.is_active);
    assert_eq!(w.stats, before);
    assert_eq!(w.name, "wlan9");
}
