use netwatch::diagnostics::{
    add_custom_target, dns_status_of, get_service_banner, parse_dns_records,
    port_and_dns_issue_messages, CheckCycle, DnsStatus, PortStatus, QuickCheck,
};

const NSLOOKUP: &str = "Server:\t\t127.0.0.53
Address:\t127.0.0.53#53

Non-authoritative answer:
Name:\tgithub.com
Address: 140.82.121.4
Name:\tgithub.com
Address: 2606:50c0::1
";

#[test]
fn dns_records_skip_the_server() {
    let r = parse_dns_records(NSLOOKUP);
    assert_eq!(r, vec!["140.82.121.4".to_string(), "2606:50c0::1".to_string()]);
    assert_eq!(dns_status_of(&r), DnsStatus::Success);
    assert_eq!(dns_status_of(&vec![]), DnsStatus::NameError);
    assert!(parse_dns_records("** server can't find x: NXDOMAIN\n").is_empty());
}

#[test]
fn a_record_ends_at_the_next_address_tag() {
    assert_eq!(parse_dns_records("Address: 1.1.1.1 Address: 2.2.2.2\n"), vec!["1.1.1.1".to_string()]);
}

#[test]
fn checks_rotate_every_four_updates() {
    let mut c = CheckCycle::new();
    let seen: Vec<QuickCheck> = (0..5).map(|_| c.next_check()).collect();
    assert_eq!(
        seen,
        vec![QuickCheck::Ping, QuickCheck::Dns, QuickCheck::Connectivity, QuickCheck::LocalPorts, QuickCheck::Ping]
    );
    let mut last = CheckCycle { counter: u32::MAX };
    assert_eq!(last.next_check(), QuickCheck::LocalPorts);
    assert_eq!(last.counter, 0);
}

#[test]
fn targets_are_not_repeated() {
    let mut targets = vec!["1.1.1.1".to_string()];
    add_custom_target(&mut targets, "8.8.8.8".to_string());
    add_custom_target(&mut targets, "1.1.1.1".to_string());
    add_custom_target(&mut targets, "8.8.8.8".to_string());
    assert_eq!(targets, vec!["1.1.1.1".to_string(), "8.8.8.8".to_string()]);
}

#[test]
fn port_and_dns_issues() {
    let ports = vec![(80, PortStatus::Closed), (443, PortStatus::Closed), (22, PortStatus::Closed), (443, PortStatus::Open)];
    let dns = vec![DnsStatus::Success, DnsStatus::NameError, DnsStatus::Error("x".to_string())];
    assert_eq!(
        port_and_dns_issue_messages(&ports, &dns),
        vec!["2 critical ports inaccessible".to_string(), "2 DNS resolution failures".to_string()]
    );
    assert!(port_and_dns_issue_messages(&[], &[DnsStatus::Success]).is_empty());
    assert_eq!(get_service_banner(80), None);
}
