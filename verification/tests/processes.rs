use netwatch::processes::{
    count_connections_in_file, find_pid_by_inode, is_socket_table_countable, parse_io_stats, parse_lsof_processes,
    parse_net_dev, parse_netstat, parse_ps_processes, process_info_from, process_network_stats,
    ProcessMonitor, ProcessNetworkInfo,
};

const NET_DEV: &str = "Inter-|   Receive                                                |  Transmit
 face |bytes    packets errs drop fifo frame compressed multicast|bytes    packets errs drop fifo colls carrier compressed
    lo: 1000      10    0    0    0     0          0         0  1000      10    0    0    0     0       0          0
  eth0: 5000      50    0    0    0     0          0         0  3000      30    0    0    0     0       0          0
";

fn info(pid: u32, sent: u64, received: u64, listening: u32) -> ProcessNetworkInfo {
    ProcessNetworkInfo {
        pid,
        name: format!("p{pid}"),
        command: format!("p{pid}"),
        connections: 0,
        bytes_sent: sent,
        bytes_received: received,
        packets_sent: 1,
        packets_received: 2,
        established_connections: 0,
        listening_ports: listening,
        last_updated: 0,
    }
}

#[test]
fn net_dev_sums_every_interface() {
    assert_eq!(parse_net_dev(NET_DEV), Some((6000, 4000, 60, 40)));
}

#[test]
fn net_dev_without_bytes_gives_nothing() {
    let zero = "h1\nh2\n  eth0: 0 5 0 0 0 0 0 0 0 7 0 0 0 0 0 0\n";
    assert_eq!(parse_net_dev(zero), None);
    assert_eq!(parse_net_dev("only\nheaders\n"), None);
}

#[test]
fn io_stats_take_the_last_values() {
    let io = "rchar: 12\nread_bytes: 4096\nwrite_bytes: 100\nwrite_bytes: 8192\n";
    assert_eq!(parse_io_stats(io), Some((4096, 8192)));
    assert_eq!(parse_io_stats("read_bytes: 0\nwrite_bytes: x\n"), None);
}

#[test]
fn netstat_reads_the_first_ip_ext_values() {
    let netstat = "IpExt: InNoRoutes InTruncatedPkts InMcastPkts OutMcastPkts InBcastPkts OutBcastPkts\nIpExt: 0 0 0 0 700 900 1\n";
    assert_eq!(parse_netstat(netstat), Some((700, 900)));
    assert_eq!(parse_netstat("TcpExt: 1 2 3 4 5 6 7\n"), None);
}

#[test]
fn traffic_comes_from_the_first_source_that_has_some() {
    assert_eq!(process_network_stats(Some(NET_DEV), None, None), (4000, 6000, 40, 60));
    let io = "read_bytes: 400\nwrite_bytes: 800\n";
    assert_eq!(process_network_stats(None, Some(io), None), (200, 100, 0, 0));
    let netstat = "IpExt: 0 0 0 0 700 900 1\n";
    assert_eq!(process_network_stats(None, Some("x"), Some(netstat)), (7, 9, 0, 0));
    assert_eq!(process_network_stats(None, None, None), (0, 0, 0, 0));
}

#[test]
fn process_info_reads_name_and_command() {
    let p = process_info_from(42, Some(" sshd\n"), Some("/usr/sbin/sshd\0-D\0"), (1, 2, 3, 4), 99);
    assert_eq!(p.pid, 42);
    assert_eq!(p.name, "sshd");
    assert_eq!(p.command, "/usr/sbin/sshd -D");
    assert_eq!((p.bytes_sent, p.bytes_received, p.packets_sent, p.packets_received), (1, 2, 3, 4));
    assert_eq!(p.last_updated, 99);
    let q = process_info_from(7, None, None, (0, 0, 0, 0), 0);
    assert_eq!(q.name, "process-7");
    assert_eq!(q.command, "process-7");
}

#[test]
fn no_socket_owner_is_found() {
    assert_eq!(find_pid_by_inode(12345), None);
    let mut counts = vec![(1u32, (1u32, 0u32, 0u32))];
    count_connections_in_file("sl local rem st\n 0: 0100007F:0050 00000000:0000 0A 0 0 0 0 0 4242\n", &mut counts);
    assert_eq!(counts, vec![(1, (1, 0, 0))]);
}

#[test]
fn lsof_listing_is_tallied_per_process() {
    let out = "COMMAND PID USER FD TYPE DEVICE SIZE/OFF NODE NAME STATE
sshd 10 root 3u IPv4 0x1 0t0 TCP *:22 (LISTEN)
sshd 10 root 4u IPv4 0x2 0t0 TCP 1.2.3.4:22->5.6.7.8:5000 (ESTABLISHED)
curl 20 me 5u IPv4 0x3 0t0 TCP 1.2.3.4:6000->9.9.9.9:443 (ESTABLISHED)
short line
";
    let ps = parse_lsof_processes(out, 5);
    assert_eq!(ps.len(), 2);
    assert_eq!(ps[0].pid, 10);
    assert_eq!(ps[0].name, "sshd");
    assert_eq!(ps[0].connections, 2);
    assert_eq!(ps[0].listening_ports, 1);
    assert_eq!(ps[0].established_connections, 1);
    assert_eq!(ps[1].pid, 20);
    assert_eq!(ps[1].connections, 1);
    assert_eq!(ps[1].established_connections, 1);
    assert_eq!(ps[1].last_updated, 5);
}

#[test]
fn ps_listing_keeps_the_last_line_per_pid() {
    let out = "  PID COMM RSS\n  1 init 10\n  2 sh 20\n  1 systemd 30\nbad\n";
    let ps = parse_ps_processes(out, 0);
    assert_eq!(ps.len(), 2);
    assert_eq!((ps[0].pid, ps[0].name.as_str()), (1, "systemd"));
    assert_eq!((ps[1].pid, ps[1].name.as_str()), (2, "sh"));
}

#[test]
fn totals_add_both_directions() {
    let p = info(1, 30, 12, 0);
    assert_eq!(p.total_bytes(), 42);
    assert_eq!(p.total_packets(), 3);
}

#[test]
fn updates_turn_counters_into_rates() {
    let mut m = ProcessMonitor::new();
    m.update(vec![info(1, 1000, 2000, 0), info(2, 10, 10, 1)], 10_000);
    // No previous counters: the counters stay.
    let ps = m.get_processes();
    assert_eq!(ps.len(), 2);
    assert_eq!(ps[0].pid, 1);
    assert_eq!(ps[0].bytes_sent, 1000);
    // One second later the counters grew.
    m.update(vec![info(1, 1500, 2100, 0), info(2, 4010, 10, 1)], 11_000);
    let ps = m.get_processes();
    assert_eq!(ps[0].pid, 2);
    assert_eq!((ps[0].bytes_sent, ps[0].bytes_received), (4000, 0));
    assert_eq!((ps[1].bytes_sent, ps[1].bytes_received), (500, 100));
}

#[test]
fn half_a_second_doubles_the_rate() {
    let mut m = ProcessMonitor::new();
    m.update(vec![info(3, 0, 0, 0)], 1_000);
    m.update(vec![info(3, 300, 50, 0)], 1_500);
    let ps = m.get_processes();
    assert_eq!((ps[0].bytes_sent, ps[0].bytes_received), (600, 100));
}

#[test]
fn a_later_scan_entry_replaces_an_earlier_one() {
    let mut m = ProcessMonitor::new();
    m.update(vec![info(1, 5, 5, 0), info(1, 9, 9, 0)], 0);
    let ps = m.get_processes();
    assert_eq!(ps.len(), 1);
    assert_eq!(ps[0].bytes_sent, 9);
}

#[test]
fn ranking_and_filters() {
    let mut m = ProcessMonitor::new();
    m.update(vec![info(1, 1, 1, 0), info(2, 50, 50, 2), info(3, 10, 10, 5), info(4, 10, 10, 2)], 0);
    let ps: Vec<u32> = m.get_processes().iter().map(|p| p.pid).collect();
    assert_eq!(ps, vec![2, 3, 4, 1]);
    let top: Vec<u32> = m.get_top_network_processes(2).iter().map(|p| p.pid).collect();
    assert_eq!(top, vec![2, 3]);
    assert_eq!(m.get_top_network_processes(10).len(), 4);
    let listening: Vec<u32> = m.get_listening_processes().iter().map(|p| p.pid).collect();
    assert_eq!(listening, vec![3, 2, 4]);
    let st = m.get_process_stats();
    assert_eq!((st.bytes_sent, st.bytes_received, st.packets_sent, st.packets_received), (71, 71, 4, 8));
}

#[test]
fn connection_counts_leave_processes_alone() {
    let mut m = ProcessMonitor::new();
    m.update(vec![info(1, 1, 1, 0)], 0);
    m.update_connection_counts(Some("hdr\n 0: a b 01 0 0 0 0 0 9\n"), None);
    assert_eq!(m.get_processes().len(), 1);
    assert_eq!(m.get_processes()[0].connections, 0);
}

#[test]
fn socket_tables_with_eight_or_nine_fields_cannot_be_counted() {
    assert!(is_socket_table_countable("sl local rem st\n 0: a b 01 0 0 0 0 0 9\n"));
    assert!(is_socket_table_countable("only a header line with eight or nine words here\n"));
    assert!(!is_socket_table_countable("hdr\n 0: a b 01 0 0 0 0\n"));
    assert!(!is_socket_table_countable("hdr\n 0: a b 01 0 0 0 0 0\n"));
    assert!(is_socket_table_countable("hdr\n 0: a b 01 0 0 0\n"));
}
