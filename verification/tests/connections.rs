use netwatch::connections::{
    get_connection_stats, get_remote_hosts, get_top_processes, lsof_line_fields,
    netstat_line_fields, parse_connections, parse_process_info, parse_socket_addr, ss_line_fields,
    ConnectionState, NetworkConnection, Protocol, SocketAddr, StateColor,
};
use netwatch::error::NetwatchError;
use netwatch::intelligence::IpAddr;

fn conn(state: ConnectionState, protocol: Protocol, name: Option<&str>, remote: IpAddr) -> NetworkConnection {
    NetworkConnection {
        local_addr: SocketAddr { ip: IpAddr::v4(10, 0, 0, 1), port: 5000 },
        remote_addr: SocketAddr { ip: remote, port: 443 },
        state,
        protocol,
        pid: None,
        process_name: name.map(|n| n.to_string()),
        bytes_sent: 0,
        bytes_received: 0,
    }
}

fn parse_message(r: Result<SocketAddr, NetwatchError>) -> String {
    match r {
        Err(NetwatchError::Parse(m)) => m,
        other => panic!("expected a parse error, got {other:?}"),
    }
}

#[test]
fn state_and_protocol_names() {
    assert_eq!(ConnectionState::Established.as_str(), "ESTABLISHED");
    assert_eq!(ConnectionState::SynReceived.as_str(), "SYN_RECV");
    assert_eq!(ConnectionState::Unknown.as_str(), "UNKNOWN");
    assert_eq!(Protocol::Tcp6.as_str(), "TCP6");
    assert_eq!(Protocol::Udp.as_str(), "UDP");
}

#[test]
fn kernel_state_codes() {
    assert_eq!(ConnectionState::from_proc_code("01"), ConnectionState::Established);
    assert_eq!(ConnectionState::from_proc_code("0A"), ConnectionState::Listen);
    assert_eq!(ConnectionState::from_proc_code("10"), ConnectionState::Listen);
    assert_eq!(ConnectionState::from_proc_code("11"), ConnectionState::Closing);
    assert_eq!(ConnectionState::from_proc_code("06"), ConnectionState::TimeWait);
    assert_eq!(ConnectionState::from_proc_code("zz"), ConnectionState::Unknown);
}

#[test]
fn tool_state_words() {
    let w: Vec<char> = "ESTAB".chars().collect();
    assert_eq!(ConnectionState::from_ss_state(&w), ConnectionState::Established);
    let w: Vec<char> = "FIN_WAIT_2".chars().collect();
    assert_eq!(ConnectionState::from_netstat_state(&w), ConnectionState::FinWait2);
    let w: Vec<char> = "(LISTEN)".chars().collect();
    assert_eq!(ConnectionState::from_lsof_state(&w), ConnectionState::Listen);
    let w: Vec<char> = "((CLOSED))".chars().collect();
    assert_eq!(ConnectionState::from_lsof_state(&w), ConnectionState::Unknown);
}

#[test]
fn ipv4_socket_addresses_are_little_endian() {
    let a = parse_socket_addr("0100007F:0050").unwrap();
    assert_eq!(a, SocketAddr { ip: IpAddr::v4(127, 0, 0, 1), port: 80 });
    let b = parse_socket_addr("0101A8C0:1F90").unwrap();
    assert_eq!(b, SocketAddr { ip: IpAddr::v4(192, 168, 1, 1), port: 8080 });
}

#[test]
fn ipv6_socket_addresses_are_read_byte_by_byte() {
    let a = parse_socket_addr("00000000000000000000000000000001:0016").unwrap();
    assert_eq!(a, SocketAddr { ip: IpAddr::V6(1), port: 22 });
    let b = parse_socket_addr("FE800000000000000000000000000001:01BB").unwrap();
    assert_eq!(b.ip, IpAddr::V6(0xfe80_0000_0000_0000_0000_0000_0000_0001));
}

#[test]
fn malformed_socket_addresses() {
    assert_eq!(parse_message(parse_socket_addr("0100007F")), "Invalid socket address format");
    assert_eq!(parse_message(parse_socket_addr("01:00:00")), "Invalid socket address format");
    assert_eq!(parse_message(parse_socket_addr("0100:0050")), "Invalid IP address length");
    assert_eq!(parse_message(parse_socket_addr("0100007G:0050")), "invalid digit found in string");
    assert_eq!(parse_message(parse_socket_addr("0100007F:")), "cannot parse integer from empty string");
    assert_eq!(parse_message(parse_socket_addr("0100007F:10000")), "number too large to fit in target type");
}

const TCP: &str = "  sl  local_address rem_address   st tx_queue rx_queue tr tm->when retrnsmt   uid  timeout inode
   0: 0100007F:0050 00000000:0000 0A 00000000:00000000 00:00000000 00000000     0        0 12345 1 0000000000000000 100 0 0 10 0
   1: 0101A8C0:C350 08080808:01BB 01 00000000:00000000 00:00000000 00000000  1000        0 23456 1 0000000000000000 20 4 30 10 -1
";

#[test]
fn kernel_table_rows_become_connections() {
    let mut out = Vec::new();
    assert!(parse_connections(TCP, Protocol::Tcp, &mut out).is_ok());
    assert_eq!(out.len(), 2);
    assert_eq!(out[0].local_addr, SocketAddr { ip: IpAddr::v4(127, 0, 0, 1), port: 80 });
    assert_eq!(out[0].state, ConnectionState::Listen);
    assert_eq!(out[0].pid, Some(0));
    assert_eq!(out[1].remote_addr, SocketAddr { ip: IpAddr::v4(8, 8, 8, 8), port: 443 });
    assert_eq!(out[1].state, ConnectionState::Established);
    assert_eq!(out[1].protocol, Protocol::Tcp);
    assert!(out[1].process_name.is_none());
}

#[test]
fn a_bad_row_stops_the_table_after_the_good_ones() {
    let table = "header\n 0: 0100007F:0050 00000000:0000 0A 0 0 0 0 0 1\n 1: XYZ:0050 00000000:0000 0A 0 0 0 0 0 1\n 2: 0100007F:0051 00000000:0000 0A 0 0 0 0 0 1\n";
    let mut out = Vec::new();
    let r = parse_connections(table, Protocol::Udp, &mut out);
    assert!(matches!(r, Err(NetwatchError::Parse(m)) if m == "Invalid IP address length"));
    assert_eq!(out.len(), 1);
}

#[test]
fn stats_count_states_and_transports() {
    let ip = IpAddr::v4(1, 1, 1, 1);
    let conns = vec![
        conn(ConnectionState::Established, Protocol::Tcp, None, ip),
        conn(ConnectionState::Listen, Protocol::Tcp6, None, ip),
        conn(ConnectionState::TimeWait, Protocol::Udp, None, ip),
        conn(ConnectionState::CloseWait, Protocol::Udp6, None, ip),
        conn(ConnectionState::Established, Protocol::Tcp, None, ip),
    ];
    let st = get_connection_stats(&conns);
    assert_eq!((st.total, st.established, st.listening, st.time_wait, st.other), (5, 2, 1, 1, 1));
    assert_eq!((st.tcp, st.udp), (3, 2));
}

#[test]
fn top_processes_by_connections() {
    let ip = IpAddr::v4(1, 1, 1, 1);
    let mut conns = vec![
        conn(ConnectionState::Established, Protocol::Tcp, Some("curl"), ip),
        conn(ConnectionState::Established, Protocol::Tcp, Some("ssh"), ip),
        conn(ConnectionState::Listen, Protocol::Tcp, Some("ssh"), ip),
        conn(ConnectionState::Listen, Protocol::Tcp, None, ip),
    ];
    for i in 0..12 {
        conns.push(conn(ConnectionState::Listen, Protocol::Udp, Some(&format!("d{i}")), ip));
    }
    let top = get_top_processes(&conns);
    assert_eq!(top.len(), 10);
    assert_eq!(top[0], ("ssh".to_string(), 2));
    assert_eq!(top[1], ("curl".to_string(), 1));
    assert_eq!(top[2], ("d0".to_string(), 1));
}

#[test]
fn remote_hosts_count_established_connections() {
    let a = IpAddr::v4(1, 1, 1, 1);
    let b = IpAddr::v4(2, 2, 2, 2);
    let conns = vec![
        conn(ConnectionState::Established, Protocol::Tcp, None, a),
        conn(ConnectionState::Established, Protocol::Tcp, None, b),
        conn(ConnectionState::Established, Protocol::Tcp, None, b),
        conn(ConnectionState::Listen, Protocol::Tcp, None, a),
    ];
    assert_eq!(get_remote_hosts(&conns), vec![(b, 2), (a, 1)]);
}

#[test]
fn ss_users_field() {
    let f: Vec<char> = "users:((\"sshd\",pid=1234,fd=3))".chars().collect();
    assert_eq!(parse_process_info(&f), (Some(1234), Some("sshd".to_string())));
    let f: Vec<char> = "users:((pid=77,fd=3))".chars().collect();
    assert_eq!(parse_process_info(&f), (Some(77), None));
    let f: Vec<char> = "users:((\"x\",pid=7))".chars().collect();
    assert_eq!(parse_process_info(&f), (None, None));
}

#[test]
fn ss_connection_line() {
    let line = "tcp   ESTAB  0  36  192.168.1.5:22  192.168.1.9:51234  users:((\"sshd\",pid=900,fd=4))";
    let f = ss_line_fields(line).unwrap();
    assert_eq!(f.protocol, Protocol::Tcp);
    assert_eq!(f.state, ConnectionState::Established);
    assert_eq!((f.recv_queue, f.send_queue), (0, 36));
    assert_eq!(f.local, "192.168.1.5:22");
    assert_eq!(f.remote.as_deref(), Some("192.168.1.9:51234"));
    assert_eq!(f.pid, Some(900));
    assert_eq!(f.process_name.as_deref(), Some("sshd"));
    let listen = ss_line_fields("udp UNCONN x 0 0.0.0.0:68 *:*").unwrap();
    assert_eq!(listen.state, ConnectionState::Unknown);
    assert_eq!(listen.recv_queue, 0);
    assert!(listen.remote.is_none());
    assert!(ss_line_fields("Netid State Recv-Q Send-Q Local").is_none());
    assert!(ss_line_fields("tcp LISTEN 0").is_none());
}

#[test]
fn netstat_and_lsof_lines() {
    let (l, r, s) = netstat_line_fields("tcp4  0  0  192.168.86.21.58412  34.36.57.103.443  ESTABLISHED").unwrap();
    assert_eq!((l.as_str(), r.as_str(), s), ("192.168.86.21.58412", "34.36.57.103.443", ConnectionState::Established));
    assert!(netstat_line_fields("Proto Recv-Q Send-Q Local Foreign (state)").is_none());
    let f = lsof_line_fields("rapportd 699 kevin 8u IPv4 0x666a2de494291f52 0t0 TCP *:64566 (LISTEN)").unwrap();
    assert_eq!((f.process_name.as_str(), f.pid, f.local.as_str()), ("rapportd", Some(699), "*:64566"));
    assert!(f.remote.is_none());
    assert_eq!(f.state, ConnectionState::Listen);
    let g = lsof_line_fields("curl 9 me 5u IPv4 0x1 0t0 TCP 10.0.0.1:5000->1.2.3.4:443 (ESTABLISHED)").unwrap();
    assert_eq!((g.local.as_str(), g.remote.as_deref()), ("10.0.0.1:5000", Some("1.2.3.4:443")));
    assert!(lsof_line_fields("COMMAND PID USER FD TYPE DEVICE SIZE/OFF NODE NAME").is_none());
}

#[test]
fn states_have_display_colours() {
    assert_eq!(ConnectionState::Established.color(), StateColor::Green);
    assert_eq!(ConnectionState::Listen.color(), StateColor::Blue);
    assert_eq!(ConnectionState::SynSent.color(), StateColor::Yellow);
    assert_eq!(ConnectionState::TimeWait.color(), StateColor::Red);
    assert_eq!(ConnectionState::Close.color(), StateColor::Gray);
    assert_eq!(ConnectionState::Unknown.color(), StateColor::Magenta);
}
