use netwatch::intelligence::{
    get_geographic_hint,
    connection_indicators, count_sequential_ports, geo_info_for, get_connection_stats,
    identify_service, initialize_internal_networks, ip_in_cidr, is_internal_ip,
    is_suspicious_port, known_service_name, parse_duration, ConnectionIntelligence, GeoIpInfo,
    IpAddr, ThreatIndicator, ThreatLevel,
};

#[test]
fn cidr_membership() {
    let net = IpAddr::v4(172, 16, 0, 0);
    assert!(ip_in_cidr(&IpAddr::v4(172, 31, 255, 1), &net, 12));
    assert!(!ip_in_cidr(&IpAddr::v4(172, 32, 0, 1), &net, 12));
    assert!(ip_in_cidr(&IpAddr::v4(8, 8, 8, 8), &net, 0));
    assert!(!ip_in_cidr(&IpAddr::V6(1), &net, 0));
    let ula = IpAddr::V6(0xfc00u128 << 112);
    assert!(ip_in_cidr(&IpAddr::V6(0xfd12u128 << 112), &ula, 7));
    assert!(!ip_in_cidr(&IpAddr::V6(0xfe80u128 << 112), &ula, 7));
}

#[test]
fn internal_ranges() {
    assert_eq!(initialize_internal_networks().len(), 5);
    assert!(is_internal_ip(&IpAddr::v4(10, 1, 2, 3)));
    assert!(is_internal_ip(&IpAddr::v4(192, 168, 0, 1)));
    assert!(is_internal_ip(&IpAddr::v4(127, 0, 0, 1)));
    assert!(!is_internal_ip(&IpAddr::v4(8, 8, 8, 8)));
    assert!(is_internal_ip(&IpAddr::V6(0xfd00u128 << 112)));
    assert!(!is_internal_ip(&IpAddr::V6(1)));
}

#[test]
fn services_and_suspicious_ports() {
    assert_eq!(known_service_name(22), Some("SSH"));
    assert_eq!(known_service_name(31337), Some("Back Orifice (Malware)"));
    assert_eq!(known_service_name(4000), None);
    assert_eq!(identify_service(443, 50000, "tcp"), ("TCP".to_string(), "HTTPS".to_string()));
    assert_eq!(identify_service(50000, 999, "udp"), ("UDP".to_string(), "System Service".to_string()));
    assert_eq!(identify_service(50000, 4000, "tcp").1, "Registered Service");
    assert_eq!(identify_service(50000, 60000, "tcp").1, "Dynamic/Ephemeral");
    assert!(is_suspicious_port(6667));
    assert!(!is_suspicious_port(443));
}

#[test]
fn sequential_port_runs() {
    assert_eq!(count_sequential_ports(&[80]), 0);
    assert_eq!(count_sequential_ports(&[20, 21, 22, 80, 81]), 3);
    assert_eq!(count_sequential_ports(&[1, 5, 9]), 1);
}

#[test]
fn duration_strings() {
    assert_eq!(parse_duration("1h30m"), Some(5400));
    assert_eq!(parse_duration("45s"), Some(45));
    assert_eq!(parse_duration("10x5m"), Some(300));
    assert_eq!(parse_duration("abc"), None);
    assert_eq!(parse_duration("30"), None);
}

#[test]
fn geographic_records() {
    let g = geo_info_for(&IpAddr::v4(10, 0, 0, 1), &vec![]);
    assert!(g.is_internal);
    assert_eq!(g.country, "Internal");
    let bad = IpAddr::v4(6, 6, 6, 6);
    let g = geo_info_for(&bad, &vec![bad]);
    assert!(g.is_suspicious);
    assert_eq!(g.threat_level, ThreatLevel::Malicious);
    assert!(g.is_anomalous());
    let g = geo_info_for(&IpAddr::v4(1, 2, 3, 4), &vec![bad]);
    assert_eq!(g.country, "Unknown");
    assert!(!g.is_anomalous());
}

#[test]
fn indicators_of_a_connection() {
    let geo = Some(GeoIpInfo::unknown(true));
    let r = connection_indicators(31337, 20_000_000, 5, 10, &geo, Some((12, 30)));
    assert_eq!(r.len(), 4);
    assert!(matches!(r[0], ThreatIndicator::PortScanAttempt { ports_scanned: 12, time_window: 30 }));
    assert!(matches!(&r[1], ThreatIndicator::SuspiciousPort { port: 31337, reason } if reason == "Known malicious or uncommon port"));
    assert!(matches!(r[2], ThreatIndicator::HighBandwidthUsage { bandwidth: 20_000_000, threshold: 10_000_000 }));
    assert!(matches!(&r[3], ThreatIndicator::GeoAnomalyConnection { country, .. } if country == "Unknown"));
    let quiet = connection_indicators(443, 100, 100, 0, &Some(GeoIpInfo::internal()), None);
    assert!(quiet.is_empty());
}

fn record(geo: Option<GeoIpInfo>, indicators: Vec<ThreatIndicator>) -> ConnectionIntelligence {
    ConnectionIntelligence {
        remote_ip: IpAddr::v4(1, 1, 1, 1),
        local_port: 1,
        remote_port: 2,
        protocol: "TCP".to_string(),
        service_name: "x".to_string(),
        geo_info: geo,
        connection_duration: 0,
        bytes_transferred: 0,
        packet_count: 0,
        first_seen: 0,
        last_activity: 0,
        is_outbound: true,
        threat_indicators: indicators,
    }
}

#[test]
fn connection_statistics() {
    let mut de = GeoIpInfo::unknown(false);
    de.country = "Germany".to_string();
    let history = vec![
        record(Some(GeoIpInfo::internal()), vec![]),
        record(Some(GeoIpInfo::unknown(false)), vec![ThreatIndicator::LongLivedConnection { duration: 5 }]),
        record(Some(de), vec![]),
        record(Some(GeoIpInfo::unknown(true)), vec![]),
        record(None, vec![]),
    ];
    let st = get_connection_stats(&history, 3);
    assert_eq!(st.total_connections, 5);
    assert_eq!(st.external_connections, 3);
    assert_eq!(st.suspicious_connections, 1);
    assert_eq!(st.unique_countries, 2);
    assert_eq!(st.active_port_scans, 3);
}

#[test]
fn geographic_hints() {
    let hint = |a, b, c, d| get_geographic_hint(&IpAddr::v4(a, b, c, d));
    assert_eq!(hint(127, 0, 0, 1), "🏠 localhost");
    assert_eq!(hint(192, 168, 1, 7), "🏢 private");
    assert_eq!(hint(172, 20, 0, 1), "🏢 private");
    assert_eq!(hint(172, 32, 0, 1), "🌎 americas");
    assert_eq!(hint(8, 8, 4, 4), "🌐 Google DNS");
    assert_eq!(hint(8, 8, 8, 9), "🌍 global");
    assert_eq!(hint(1, 0, 0, 1), "🛡️ Cloudflare");
    assert_eq!(hint(142, 250, 3, 4), "🔍 Google");
    assert_eq!(hint(157, 240, 0, 1), "📘 Facebook");
    assert_eq!(hint(13, 107, 0, 1), "☁️ AWS");
    assert_eq!(hint(20, 1, 1, 1), "🔷 Microsoft");
    assert_eq!(hint(203, 0, 113, 5), "🌏 asia-pac");
    assert_eq!(hint(0, 0, 0, 0), "🌐 other");
    assert_eq!(hint(240, 0, 0, 1), "🌐 other");
    assert_eq!(get_geographic_hint(&IpAddr::V6(1)), "🌐 IPv6");
}
