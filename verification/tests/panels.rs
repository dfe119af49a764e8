use netwatch::connections::{
    get_connection_stats, lsof_address_ok, lsof_connection, lsof_line_fields, lsof_socket_addr,
    split_lsof_address, ConnectionState, NetworkConnection, Protocol, SocketAddr,
};
use netwatch::dashboard::{connection_quality, geo_threat_summary, GeoThreatLevel};
use netwatch::intelligence::{ConnectionIntelligence, GeoIpInfo, IpAddr, ThreatIndicator};

fn conn(state: ConnectionState, protocol: Protocol, remote: IpAddr) -> NetworkConnection {
    NetworkConnection {
        local_addr: SocketAddr { ip: IpAddr::v4(10, 0, 0, 1), port: 5000 },
        remote_addr: SocketAddr { ip: remote, port: 443 },
        state,
        protocol,
        pid: None,
        process_name: None,
        bytes_sent: 0,
        bytes_received: 0,
    }
}

#[test]
fn connection_quality_counts() {
    let est = ConnectionState::Established;
    let conns = vec![
        conn(est, Protocol::Tcp, IpAddr::v4(8, 8, 8, 8)),
        conn(est, Protocol::Tcp, IpAddr::v4(8, 8, 8, 8)),
        conn(est, Protocol::Tcp, IpAddr::v4(1, 1, 1, 1)),
        conn(est, Protocol::Tcp, IpAddr::v4(9, 9, 9, 9)),
        conn(est, Protocol::Tcp, IpAddr::v4(127, 0, 0, 1)),
        conn(est, Protocol::Tcp6, IpAddr::V6(1)),
        conn(est, Protocol::Tcp, IpAddr::v4(0, 0, 0, 0)),
        conn(ConnectionState::Listen, Protocol::Tcp, IpAddr::v4(0, 0, 0, 0)),
        conn(ConnectionState::TimeWait, Protocol::Tcp, IpAddr::v4(8, 8, 4, 4)),
        conn(ConnectionState::CloseWait, Protocol::Udp, IpAddr::v4(8, 8, 4, 4)),
    ];
    let stats = get_connection_stats(&conns);
    let q = connection_quality(&conns, &stats);
    assert_eq!(q.established, 7);
    assert_eq!(q.remote, 4);
    assert_eq!(q.unique_hosts, 3);
    assert_eq!(q.high, 6);
    assert_eq!(q.medium, 1);
    assert_eq!(q.poor, 2);
    assert_eq!(q.bandwidth, 7 * 1024 * 10);
    assert_eq!(q.congested, 0);
}

#[test]
fn connection_quality_bandwidth_tiers() {
    let est = ConnectionState::Established;
    let many = |n: usize| -> Vec<NetworkConnection> {
        (0..n).map(|i| conn(est, Protocol::Tcp, IpAddr::v4(8, 8, (i / 256) as u8, (i % 256) as u8))).collect()
    };
    for (n, bw, congested) in [
        (0usize, 0u64, 0u32),
        (5, 0, 0),
        (6, 6 * 10240, 0),
        (20, 20 * 10240, 0),
        (21, 21 * 51200, 0),
        (50, 50 * 51200, 0),
        (51, 51 * 102400, 0),
        (100, 100 * 102400, 0),
        (101, 101 * 102400, 10),
    ] {
        let conns = many(n);
        let stats = get_connection_stats(&conns);
        let q = connection_quality(&conns, &stats);
        assert_eq!(q.bandwidth, bw, "{n} connections");
        assert_eq!(q.congested, congested, "{n} connections");
        assert_eq!(q.unique_hosts as usize, n);
        assert_eq!(q.medium as usize, n / 2);
        assert_eq!(q.high as usize, n - n / 2);
        assert_eq!(q.poor, 0);
    }
}

fn record(geo: Option<GeoIpInfo>, indicators: Vec<ThreatIndicator>) -> ConnectionIntelligence {
    ConnectionIntelligence {
        remote_ip: IpAddr::v4(1, 1, 1, 1),
        local_port: 1,
        remote_port: 2,
        protocol: "TCP".to_string(),
        service_name: "x".to_string(),
        geo_info: geo,
        connection_duration: 0,
        bytes_transferred: 0,
        packet_count: 0,
        first_seen: 0,
        last_activity: 0,
        is_outbound: true,
        threat_indicators: indicators,
    }
}

fn located(country: &str, suspicious: bool) -> Option<GeoIpInfo> {
    let mut g = GeoIpInfo::unknown(suspicious);
    g.country = country.to_string();
    Some(g)
}

#[test]
fn geo_threat_summary_of_first_three() {
    let intel = vec![
        record(located("Germany", false), vec![]),
        record(located("France", true), vec![]),
        record(located("Germany", false), vec![ThreatIndicator::LongLivedConnection { duration: 9000 }]),
        record(located("Spain", true), vec![]),
    ];
    let s = geo_threat_summary(&intel);
    assert_eq!(s.countries, vec![("Germany".to_string(), 2), ("France".to_string(), 1)]);
    assert_eq!(s.suspicious, 2);
    assert_eq!(s.level, GeoThreatLevel::Low);
    assert_eq!(s.threats, vec![1, 2]);
}

#[test]
fn geo_threat_summary_skips_internal_and_unknown() {
    let intel = vec![
        record(Some(GeoIpInfo::internal()), vec![ThreatIndicator::LongLivedConnection { duration: 9000 }]),
        record(None, vec![ThreatIndicator::LongLivedConnection { duration: 9000 }]),
    ];
    let s = geo_threat_summary(&intel);
    assert!(s.countries.is_empty());
    assert_eq!(s.suspicious, 0);
    assert_eq!(s.level, GeoThreatLevel::Clean);
    assert!(s.threats.is_empty());
    let empty = geo_threat_summary(&[]);
    assert_eq!(empty.level, GeoThreatLevel::Clean);
}

#[test]
fn geo_threat_levels() {
    let all = vec![
        record(located("Spain", true), vec![]),
        record(located("Spain", true), vec![]),
        record(located("Italy", true), vec![]),
    ];
    let s = geo_threat_summary(&all);
    assert_eq!(s.suspicious, 3);
    assert_eq!(s.level, GeoThreatLevel::Medium);
    assert_eq!(s.countries, vec![("Spain".to_string(), 2), ("Italy".to_string(), 1)]);
}

#[test]
fn lsof_listening_line() {
    let line = "rapportd 699 kevin 8u IPv4 0x666a2de494291f52 0t0 TCP *:64566 (LISTEN)";
    let f = lsof_line_fields(line).unwrap();
    assert!(lsof_address_ok(&f.local));
    let (host, port) = split_lsof_address(&f.local).unwrap();
    assert_eq!(host, None);
    assert_eq!(port, 64566);
    let local = lsof_socket_addr(host.map(|_| IpAddr::V4(1)), port);
    assert_eq!(local, SocketAddr { ip: IpAddr::V4(0), port: 64566 });
    assert_eq!(f.remote, None);
    let c = lsof_connection(f, local, None, Protocol::Tcp);
    assert_eq!(c.process_name.as_deref(), Some("rapportd"));
    assert_eq!(c.pid, Some(699));
    assert_eq!(c.local_addr, SocketAddr { ip: IpAddr::V4(0), port: 64566 });
    assert_eq!(c.remote_addr, SocketAddr { ip: IpAddr::V4(0), port: 0 });
    assert_eq!(c.state, ConnectionState::Listen);
    assert_eq!(c.protocol, Protocol::Tcp);
    assert_eq!((c.bytes_sent, c.bytes_received), (0, 0));
    assert!(lsof_line_fields("COMMAND PID USER FD TYPE DEVICE SIZE/OFF NODE NAME").is_none());
}

#[test]
fn lsof_address_words() {
    assert_eq!(split_lsof_address("192.168.1.1:80"), Some((Some("192.168.1.1".to_string()), 80)));
    assert_eq!(
        split_lsof_address("[fe80:18::3af0:34ed:86c8:f8bc]:1024"),
        Some((Some("fe80:18::3af0:34ed:86c8:f8bc".to_string()), 1024))
    );
    assert_eq!(split_lsof_address("*:65536"), None);
    assert_eq!(split_lsof_address("*:http"), None);
    assert_eq!(split_lsof_address("[::1"), None);
    assert_eq!(split_lsof_address("localhost"), None);
    assert_eq!(split_lsof_address("host:+8"), Some((Some("host".to_string()), 8)));
    assert!(!lsof_address_ok("[::1]"));
    assert!(lsof_address_ok("[::1]:22"));
    let addr = lsof_socket_addr(Some(IpAddr::v4(192, 168, 1, 1)), 80);
    assert_eq!(addr, SocketAddr { ip: IpAddr::v4(192, 168, 1, 1), port: 80 });
    let remote = SocketAddr { ip: IpAddr::v4(8, 8, 8, 8), port: 443 };
    let f = lsof_line_fields("curl 12 me 3u IPv4 0xabc 0t0 TCP 10.0.0.2:5000->8.8.8.8:443 (ESTABLISHED)").unwrap();
    let c = lsof_connection(f, addr, Some(remote), Protocol::Tcp);
    assert_eq!(c.remote_addr, remote);
    assert_eq!(c.state, ConnectionState::Established);
}
