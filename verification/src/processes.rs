//! Per-process network activity: the figures gathered for each process,
//! the parsers of the sources they come from, and the monitor that keeps
//! them, turns byte counters into rates and ranks the processes.
//!
//! Reading `/proc` (or running `lsof` / `ps`) is left to the caller, who
//! hands in the text read; times are milliseconds since the Unix epoch.
use vstd::prelude::*;

use crate::clock::now_millis;
use crate::order::{is_permutation, ordering_of, sort_desc_indices};
use crate::text::{
    chars_eq, chars_of, contains, contains_exec, decimal, lines, parse_u32, parse_u32_exec,
    parse_u64, parse_u64_exec, push_all, push_decimal, split_lines, split_words, starts_with,
    starts_with_exec, string_from_chars, trim, trim_exec, words, TrimSet,
};

verus! {

/// What is known of one process's network use.
#[derive(Debug, Clone)]
pub struct ProcessNetworkInfo {
    pub pid: u32,
    pub name: String,
    pub command: String,
    pub connections: u32,
    pub bytes_sent: u64,
    pub bytes_received: u64,
    pub packets_sent: u64,
    pub packets_received: u64,
    pub established_connections: u32,
    pub listening_ports: u32,
    /// When the figures were gathered.
    pub last_updated: u64,
}

impl ProcessNetworkInfo {
    /// Bytes sent and received together.
    pub fn total_bytes(&self) -> (r: u64)
        requires
            self.bytes_sent + self.bytes_received <= u64::MAX,
        ensures
            r == self.bytes_sent + self.bytes_received,
    {
        self.bytes_sent + self.bytes_received
    }

    /// Packets sent and received together.
    pub fn total_packets(&self) -> (r: u64)
        requires
            self.packets_sent + self.packets_received <= u64::MAX,
        ensures
            r == self.packets_sent + self.packets_received,
    {
        self.packets_sent + self.packets_received
    }
}

/// Counters of one process (or of all of them) at a point in time.
#[derive(Debug, Clone, Copy, PartialEq, Eq)]
pub struct ProcessNetworkStats {
    pub bytes_sent: u64,
    pub bytes_received: u64,
    pub packets_sent: u64,
    pub packets_received: u64,
    pub timestamp: u64,
}

// ---------------------------------------------------------------------
// Sources of per-process traffic figures
// ---------------------------------------------------------------------

/// Word `k` of `w` read as a `u64`, if there is such a word and it is a
/// number.
pub open spec fn word_u64(w: Seq<Seq<char>>, k: int) -> Option<u64> {
    if 0 <= k < w.len() {
        parse_u64(w[k])
    } else {
        None
    }
}

/// The received bytes and packets and sent bytes and packets of a
/// `net/dev` line: words 1, 2, 9 and 10, when the line has more than ten
/// words and all four are numbers.
pub open spec fn net_dev_line(l: Seq<char>) -> Option<(u64, u64, u64, u64)> {
    let w = words(l);
    if w.len() >= 11 && parse_u64(w[1]) is Some && parse_u64(w[2]) is Some && parse_u64(w[9]) is Some
        && parse_u64(w[10]) is Some {
        Some((parse_u64(w[1])->0, parse_u64(w[2])->0, parse_u64(w[9])->0, parse_u64(w[10])->0))
    } else {
        None
    }
}

/// The sums of received bytes, received packets, sent bytes and sent
/// packets over the lines `ls`.
pub open spec fn net_dev_sums(ls: Seq<Seq<char>>) -> (int, int, int, int)
    decreases ls.len(),
{
    if ls.len() == 0 {
        (0, 0, 0, 0)
    } else {
        let r = net_dev_sums(ls.drop_last());
        match net_dev_line(ls.last()) {
            Some(t) => (r.0 + t.0, r.1 + t.1, r.2 + t.2, r.3 + t.3),
            None => r,
        }
    }
}

/// The lines of `net/dev` content after its two header lines.
pub open spec fn net_dev_body(content: Seq<char>) -> Seq<Seq<char>> {
    after_header(lines(content), 2)
}

/// The lines of `ls` after its first `n` (header) lines.
pub open spec fn after_header(ls: Seq<Seq<char>>, n: int) -> Seq<Seq<char>> {
    if ls.len() >= n {
        ls.skip(n)
    } else {
        Seq::empty()
    }
}

/// Content on which the parser of `net/dev` is defined: no line after the
/// headers has exactly ten words (the parser would read an eleventh), and
/// the sums fit in 64 bits.
pub open spec fn net_dev_parsable(content: Seq<char>) -> bool {
    let b = net_dev_body(content);
    let s = net_dev_sums(b);
    &&& forall|i: int| 0 <= i < b.len() ==> words(#[trigger] b[i]).len() != 10
    &&& s.0 <= u64::MAX && s.1 <= u64::MAX && s.2 <= u64::MAX && s.3 <= u64::MAX
}

/// The totals of `net/dev` content: received bytes, sent bytes, received
/// packets and sent packets, when some bytes were counted.
pub open spec fn net_dev_totals(content: Seq<char>) -> Option<(u64, u64, u64, u64)> {
    let s = net_dev_sums(net_dev_body(content));
    if s.0 > 0 || s.2 > 0 {
        Some((s.0 as u64, s.2 as u64, s.1 as u64, s.3 as u64))
    } else {
        None
    }
}

proof fn lemma_net_dev_sums_mono(ls: Seq<Seq<char>>, i: int)
    requires
        0 <= i <= ls.len(),
    ensures
        net_dev_sums(ls.take(i)).0 <= net_dev_sums(ls).0,
        net_dev_sums(ls.take(i)).1 <= net_dev_sums(ls).1,
        net_dev_sums(ls.take(i)).2 <= net_dev_sums(ls).2,
        net_dev_sums(ls.take(i)).3 <= net_dev_sums(ls).3,
        net_dev_sums(ls.take(i)).0 >= 0 && net_dev_sums(ls.take(i)).1 >= 0,
        net_dev_sums(ls.take(i)).2 >= 0 && net_dev_sums(ls.take(i)).3 >= 0,
    decreases ls.len() - i,
{
    if i == ls.len() {
        assert(ls.take(i) =~= ls);
        lemma_net_dev_sums_nonneg(ls);
    } else {
        lemma_net_dev_sums_mono(ls, i + 1);
        assert(ls.take(i + 1).drop_last() =~= ls.take(i));
        lemma_net_dev_sums_nonneg(ls.take(i));
    }
}

proof fn lemma_net_dev_sums_nonneg(ls: Seq<Seq<char>>)
    ensures
        net_dev_sums(ls).0 >= 0 && net_dev_sums(ls).1 >= 0,
        net_dev_sums(ls).2 >= 0 && net_dev_sums(ls).3 >= 0,
    decreases ls.len(),
{
    if ls.len() > 0 {
        lemma_net_dev_sums_nonneg(ls.drop_last());
    }
}

fn word_u64_exec(w: &Vec<Vec<char>>, k: usize) -> (r: Option<u64>)
    ensures
        r == word_u64(w@.map_values(|x: Vec<char>| x@), k as int),
{
    if k < w.len() {
        parse_u64_exec(w[k].as_slice())
    } else {
        None
    }
}

/// Totals over the interfaces of a process's `net/dev` content (two
/// header lines, then one line per interface): received bytes, sent
/// bytes, received packets, sent packets; `None` when no bytes were
/// counted.
pub fn parse_net_dev(content: &str) -> (r: Option<(u64, u64, u64, u64)>)
    requires
        net_dev_parsable(content@),
    ensures
        r == net_dev_totals(content@),
{
    let text = chars_of(content);
    let ls = split_lines(text.as_slice());
    let ghost gls = lines(content@);
    let ghost body = net_dev_body(content@);
    let mut rx_bytes: u64 = 0;
    let mut rx_packets: u64 = 0;
    let mut tx_bytes: u64 = 0;
    let mut tx_packets: u64 = 0;
    if ls.len() <= 2 {
        assert(body =~= Seq::<Seq<char>>::empty());
        assert(net_dev_sums(body) == (0int, 0int, 0int, 0int));
        return None;
    }
    let mut i: usize = 2;
    assert(body.take(0) =~= Seq::<Seq<char>>::empty());
    while i < ls.len()
        invariant
            2 <= i <= ls@.len(),
            ls@.len() == gls.len(),
            forall|j: int| 0 <= j < ls@.len() ==> #[trigger] ls@[j]@ == gls[j],
            gls == lines(content@),
            body == gls.skip(2),
            gls.len() > 2,
            net_dev_parsable(content@),
            body == net_dev_body(content@),
            net_dev_sums(body.take(i - 2)) == (
                rx_bytes as int,
                rx_packets as int,
                tx_bytes as int,
                tx_packets as int,
            ),
        decreases ls@.len() - i,
    {
        let w = split_words(ls[i].as_slice());
        let ghost gw = words(gls[i as int]);
        assert(w@.map_values(|x: Vec<char>| x@) =~= gw);
        assert(body[i - 2] == gls[i as int]);
        assert(gw.len() != 10);
        proof {
            let t = body.take(i - 1);
            assert(t.drop_last() =~= body.take(i - 2));
            assert(t.last() == gls[i as int]);
            lemma_net_dev_sums_mono(body, i - 1);
        }
        if w.len() >= 10 {
            let a = word_u64_exec(&w, 1);
            let b = word_u64_exec(&w, 2);
            let c = word_u64_exec(&w, 9);
            let d = word_u64_exec(&w, 10);
            match (a, b, c, d) {
                (Some(a), Some(b), Some(c), Some(d)) => {
                    rx_bytes = rx_bytes + a;
                    tx_bytes = tx_bytes + c;
                    rx_packets = rx_packets + b;
                    tx_packets = tx_packets + d;
                },
                _ => {},
            }
        }
        i = i + 1;
    }
    assert(body.take(i - 2) =~= body);
    if rx_bytes > 0 || tx_bytes > 0 {
        Some((rx_bytes, tx_bytes, rx_packets, tx_packets))
    } else {
        None
    }
}

/// The value a `read_bytes:` / `write_bytes:` line sets: its second word
/// as a number, 0 when it is not one; `None` when there is no second word.
pub open spec fn io_value(l: Seq<char>) -> Option<u64> {
    let w = words(l);
    if w.len() > 1 {
        Some(
            match parse_u64(w[1]) {
                Some(v) => v,
                None => 0,
            },
        )
    } else {
        None
    }
}

/// Read and written bytes after the lines `ls` of an `io` file: each
/// `read_bytes:` / `write_bytes:` line overrides the previous value.
pub open spec fn io_fold(ls: Seq<Seq<char>>) -> (u64, u64)
    decreases ls.len(),
{
    if ls.len() == 0 {
        (0, 0)
    } else {
        let r = io_fold(ls.drop_last());
        let l = ls.last();
        if starts_with(l, "read_bytes:"@) {
            match io_value(l) {
                Some(v) => (v, r.1),
                None => r,
            }
        } else if starts_with(l, "write_bytes:"@) {
            match io_value(l) {
                Some(v) => (r.0, v),
                None => r,
            }
        } else {
            r
        }
    }
}

pub open spec fn io_totals(content: Seq<char>) -> Option<(u64, u64)> {
    let r = io_fold(lines(content));
    if r.0 > 0 || r.1 > 0 {
        Some(r)
    } else {
        None
    }
}

fn io_value_exec(l: &[char]) -> (r: Option<u64>)
    ensures
        r == io_value(l@),
{
    let w = split_words(l);
    assert(w@.map_values(|x: Vec<char>| x@) =~= words(l@));
    if w.len() > 1 {
        match parse_u64_exec(w[1].as_slice()) {
            Some(v) => Some(v),
            None => Some(0),
        }
    } else {
        None
    }
}

/// Bytes read and written according to a process's `io` file (the last
/// `read_bytes:` and `write_bytes:` lines); `None` when both are 0.
pub fn parse_io_stats(content: &str) -> (r: Option<(u64, u64)>)
    ensures
        r == io_totals(content@),
{
    let text = chars_of(content);
    let ls = split_lines(text.as_slice());
    let ghost gls = lines(content@);
    let read_tag = chars_of("read_bytes:");
    let write_tag = chars_of("write_bytes:");
    let mut read_bytes: u64 = 0;
    let mut write_bytes: u64 = 0;
    let mut i: usize = 0;
    assert(gls.take(0) =~= Seq::<Seq<char>>::empty());
    while i < ls.len()
        invariant
            i <= ls@.len(),
            ls@.len() == gls.len(),
            forall|j: int| 0 <= j < ls@.len() ==> #[trigger] ls@[j]@ == gls[j],
            gls == lines(content@),
            read_tag@ == "read_bytes:"@,
            write_tag@ == "write_bytes:"@,
            io_fold(gls.take(i as int)) == (read_bytes, write_bytes),
        decreases ls@.len() - i,
    {
        let line = ls[i].as_slice();
        proof {
            let t = gls.take(i + 1);
            assert(t.drop_last() =~= gls.take(i as int));
            assert(t.last() == gls[i as int]);
        }
        if starts_with_exec(line, read_tag.as_slice()) {
            match io_value_exec(line) {
                Some(v) => {
                    read_bytes = v;
                },
                None => {},
            }
        } else if starts_with_exec(line, write_tag.as_slice()) {
            match io_value_exec(line) {
                Some(v) => {
                    write_bytes = v;
                },
                None => {},
            }
        }
        i = i + 1;
    }
    assert(gls.take(i as int) =~= gls);
    if read_bytes > 0 || write_bytes > 0 {
        Some((read_bytes, write_bytes))
    } else {
        None
    }
}

/// The sent and received octets of an `IpExt:` line of `netstat`
/// content: words 5 and 6, when the line has more than six words and both
/// are numbers.
pub open spec fn ip_ext_line(l: Seq<char>) -> Option<(u64, u64)> {
    let w = words(l);
    if starts_with(l, "IpExt:"@) && w.len() > 6 && parse_u64(w[5]) is Some && parse_u64(w[6]) is Some {
        Some((parse_u64(w[5])->0, parse_u64(w[6])->0))
    } else {
        None
    }
}

/// The figures of the first line of `ls` at or after `i` that gives some.
pub open spec fn first_ip_ext(ls: Seq<Seq<char>>, i: int) -> Option<(u64, u64)>
    decreases ls.len() - i,
{
    if i < 0 || i >= ls.len() {
        None
    } else {
        match ip_ext_line(ls[i]) {
            Some(t) => Some(t),
            None => first_ip_ext(ls, i + 1),
        }
    }
}

/// System-wide sent and received octets from `/proc/net/netstat`
/// content: those of the first `IpExt:` line that gives them.
pub fn parse_netstat(content: &str) -> (r: Option<(u64, u64)>)
    ensures
        r == first_ip_ext(lines(content@), 0),
{
    let text = chars_of(content);
    let ls = split_lines(text.as_slice());
    let ghost gls = lines(content@);
    let tag = chars_of("IpExt:");
    let mut i: usize = 0;
    while i < ls.len()
        invariant
            i <= ls@.len(),
            ls@.len() == gls.len(),
            forall|j: int| 0 <= j < ls@.len() ==> #[trigger] ls@[j]@ == gls[j],
            gls == lines(content@),
            tag@ == "IpExt:"@,
            first_ip_ext(gls, 0) == first_ip_ext(gls, i as int),
        decreases ls@.len() - i,
    {
        let line = ls[i].as_slice();
        if starts_with_exec(line, tag.as_slice()) {
            let w = split_words(line);
            assert(w@.map_values(|x: Vec<char>| x@) =~= words(gls[i as int]));
            if w.len() > 6 {
                let a = word_u64_exec(&w, 5);
                let b = word_u64_exec(&w, 6);
                match (a, b) {
                    (Some(s), Some(r)) => {
                        return Some((s, r));
                    },
                    _ => {},
                }
            }
        }
        i = i + 1;
    }
    None
}

/// The traffic figures of a process (bytes sent, bytes received, packets
/// sent, packets received) from the first source that gives some: its
/// `net/dev`, else a quarter of the bytes its `io` file counts, else a
/// hundredth of the system-wide `netstat` octets, else zeros.
pub open spec fn process_traffic(
    net_dev: Option<Seq<char>>,
    io: Option<Seq<char>>,
    netstat: Option<Seq<char>>,
) -> (u64, u64, u64, u64) {
    let from_dev = match net_dev {
        Some(c) => net_dev_totals(c),
        None => None,
    };
    let from_io = match io {
        Some(c) => io_totals(c),
        None => None,
    };
    let from_netstat = match netstat {
        Some(c) => first_ip_ext(lines(c), 0),
        None => None,
    };
    match from_dev {
        Some(t) => (t.1, t.0, t.3, t.2),
        None => match from_io {
            Some(t) => ((t.1 / 4) as u64, (t.0 / 4) as u64, 0, 0),
            None => match from_netstat {
                Some(t) => ((t.0 / 100) as u64, (t.1 / 100) as u64, 0, 0),
                None => (0, 0, 0, 0),
            },
        },
    }
}

/// A process's traffic figures from the contents of its `net/dev` and
/// `io` files and of `/proc/net/netstat`, each `None` when it could not
/// be read (see `process_traffic`).
pub fn process_network_stats(
    net_dev: Option<&str>,
    io: Option<&str>,
    netstat: Option<&str>,
) -> (r: (u64, u64, u64, u64))
    requires
        net_dev matches Some(c) ==> net_dev_parsable(c@),
    ensures
        r == process_traffic(
            match net_dev {
                Some(c) => Some(c@),
                None => None,
            },
            match io {
                Some(c) => Some(c@),
                None => None,
            },
            match netstat {
                Some(c) => Some(c@),
                None => None,
            },
        ),
{
    match net_dev {
        Some(c) => match parse_net_dev(c) {
            Some((brx, btx, prx, ptx)) => {
                return (btx, brx, ptx, prx);
            },
            None => {},
        },
        None => {},
    }
    match io {
        Some(c) => match parse_io_stats(c) {
            Some((rd, wr)) => {
                return (wr / 4, rd / 4, 0, 0);
            },
            None => {},
        },
        None => {},
    }
    match netstat {
        Some(c) => match parse_netstat(c) {
            Some((s, r)) => {
                return (s / 100, r / 100, 0, 0);
            },
            None => {},
        },
        None => {},
    }
    (0, 0, 0, 0)
}

/// The command line as `cmdline` stores it, with its NUL separators
/// turned into spaces.
pub open spec fn nul_to_space(s: Seq<char>) -> Seq<char> {
    s.map_values(|c: char| if c == '\0' { ' ' } else { c })
}

/// The name of a process: its trimmed `comm`, or `process-<pid>` when
/// that could not be read.
pub open spec fn process_name(pid: u32, comm: Option<Seq<char>>) -> Seq<char> {
    match comm {
        Some(c) => trim(c, TrimSet::Whitespace),
        None => "process-"@ + decimal(pid as nat),
    }
}

/// The command of a process: its `cmdline` with NULs as spaces, trimmed,
/// or its name when that could not be read.
pub open spec fn process_command(name: Seq<char>, cmdline: Option<Seq<char>>) -> Seq<char> {
    match cmdline {
        Some(c) => trim(nul_to_space(c), TrimSet::Whitespace),
        None => trim(nul_to_space(name), TrimSet::Whitespace),
    }
}

fn nul_to_space_exec(v: &[char]) -> (r: Vec<char>)
    ensures
        r@ == nul_to_space(v@),
{
    let mut r: Vec<char> = Vec::new();
    let mut i: usize = 0;
    while i < v.len()
        invariant
            i <= v@.len(),
            r@ =~= nul_to_space(v@.take(i as int)),
        decreases v@.len() - i,
    {
        if v[i] == '\0' {
            r.push(' ');
        } else {
            r.push(v[i]);
        }
        i = i + 1;
    }
    assert(v@.take(i as int) =~= v@);
    r
}

/// What is gathered of process `pid` from its `comm` and `cmdline` files
/// (`None` when unreadable) and its traffic figures, at time `now`; its
/// connection counts start at zero.
pub fn process_info_from(
    pid: u32,
    comm: Option<&str>,
    cmdline: Option<&str>,
    traffic: (u64, u64, u64, u64),
    now: u64,
) -> (p: ProcessNetworkInfo)
    ensures
        p.pid == pid,
        p.name@ == process_name(
            pid,
            match comm {
                Some(c) => Some(c@),
                None => None,
            },
        ),
        p.command@ == process_command(
            p.name@,
            match cmdline {
                Some(c) => Some(c@),
                None => None,
            },
        ),
        p.connections == 0 && p.established_connections == 0 && p.listening_ports == 0,
        p.bytes_sent == traffic.0 && p.bytes_received == traffic.1,
        p.packets_sent == traffic.2 && p.packets_received == traffic.3,
        p.last_updated == now,
{
    let name_chars: Vec<char> = match comm {
        Some(c) => {
            let t = chars_of(c);
            trim_exec(t.as_slice(), TrimSet::Whitespace)
        },
        None => {
            let mut n = chars_of("process-");
            push_decimal(&mut n, pid as u64);
            n
        },
    };
    let raw: Vec<char> = match cmdline {
        Some(c) => chars_of(c),
        None => {
            let mut n: Vec<char> = Vec::new();
            push_all(&mut n, name_chars.as_slice());
            n
        },
    };
    let spaced = nul_to_space_exec(raw.as_slice());
    let command = trim_exec(spaced.as_slice(), TrimSet::Whitespace);
    ProcessNetworkInfo {
        pid,
        name: string_from_chars(name_chars.as_slice()),
        command: string_from_chars(command.as_slice()),
        connections: 0,
        bytes_sent: traffic.0,
        bytes_received: traffic.1,
        packets_sent: traffic.2,
        packets_received: traffic.3,
        established_connections: 0,
        listening_ports: 0,
        last_updated: now,
    }
}

/// No process is found by a socket inode: finding the owner would need a
/// scan of every process's descriptors, which is not done.
pub fn find_pid_by_inode(inode: u64) -> (r: Option<u32>)
    ensures
        r is None,
{
    None
}

/// Text of a `/proc/net/{tcp,udp}` table that the connection counter
/// reads without failing: no line after the header has eight or nine
/// words (it would read a tenth).
pub open spec fn socket_table_countable(content: Seq<char>) -> bool {
    let ls = lines(content);
    forall|i: int| 1 <= i < ls.len() ==> words(#[trigger] ls[i]).len() != 8 && words(ls[i]).len()
        != 9
}

/// Whether `count_connections_in_file` can read `content` (see
/// `socket_table_countable`).
pub fn is_socket_table_countable(content: &str) -> (r: bool)
    ensures
        r == socket_table_countable(content@),
{
    let text = chars_of(content);
    let ls = split_lines(text.as_slice());
    let ghost gls = lines(content@);
    let mut i: usize = 1;
    while i < ls.len()
        invariant
            1 <= i,
            ls@.len() == gls.len(),
            forall|j: int| 0 <= j < ls@.len() ==> #[trigger] ls@[j]@ == gls[j],
            gls == lines(content@),
            forall|j: int| 1 <= j < i && j < gls.len() ==> words(#[trigger] gls[j]).len() != 8
                && words(gls[j]).len() != 9,
        decreases ls@.len() - i,
    {
        let w = split_words(ls[i].as_slice());
        assert(w@.map_values(|x: Vec<char>| x@) =~= words(gls[i as int]));
        if w.len() == 8 || w.len() == 9 {
            return false;
        }
        i = i + 1;
    }
    true
}

/// Counts, per process, the sockets of a `/proc/net/{tcp,udp}` table
/// into `(total, established, listening)`. A socket counts for the
/// process that owns its inode; since no owner is ever found (see
/// `find_pid_by_inode`), the counts are left as they are.
pub fn count_connections_in_file(
    content: &str,
    pid_connections: &mut Vec<(u32, (u32, u32, u32))>,
)
    requires
        socket_table_countable(content@),
    ensures
        final(pid_connections)@ == old(pid_connections)@,
{
    let text = chars_of(content);
    let ls = split_lines(text.as_slice());
    let ghost gls = lines(content@);
    let mut i: usize = 1;
    while i < ls.len()
        invariant
            1 <= i,
            ls@.len() == gls.len(),
            forall|j: int| 0 <= j < ls@.len() ==> #[trigger] ls@[j]@ == gls[j],
            gls == lines(content@),
            socket_table_countable(content@),
            pid_connections@ == old(pid_connections)@,
        decreases ls@.len() - i,
    {
        let w = split_words(ls[i].as_slice());
        assert(w@.map_values(|x: Vec<char>| x@) =~= words(gls[i as int]));
        if w.len() >= 8 {
            assert(w@.len() >= 10);
            match parse_u64_exec(w[9].as_slice()) {
                Some(inode) => {
                    match find_pid_by_inode(inode) {
                        Some(_) => {},
                        None => {},
                    }
                },
                None => {},
            }
        }
        i = i + 1;
    }
}

// ---------------------------------------------------------------------
// The lists that `lsof` and `ps` give
// ---------------------------------------------------------------------

/// Puts `p` in `s` in place of the entry with its pid, or at the end when
/// there is none.
pub open spec fn upsert_process(s: Seq<ProcessNetworkInfo>, p: ProcessNetworkInfo) -> Seq<
    ProcessNetworkInfo,
> {
    if exists|i: int| 0 <= i < s.len() && s[i].pid == p.pid {
        s.update(choose|i: int| 0 <= i < s.len() && s[i].pid == p.pid, p)
    } else {
        s.push(p)
    }
}

/// No two entries of `s` have the same pid.
pub open spec fn unique_pids(s: Seq<ProcessNetworkInfo>) -> bool {
    forall|i: int, j: int| 0 <= i < j < s.len() ==> s[i].pid != s[j].pid
}

/// The entries of `ps` in order, each put in with `upsert_process`.
pub open spec fn upsert_all(base: Seq<ProcessNetworkInfo>, ps: Seq<ProcessNetworkInfo>) -> Seq<
    ProcessNetworkInfo,
>
    decreases ps.len(),
{
    if ps.len() == 0 {
        base
    } else {
        upsert_process(upsert_all(base, ps.drop_last()), ps.last())
    }
}

/// Puts `p` into `v` as `upsert_process` says.
fn upsert_process_exec(v: &mut Vec<ProcessNetworkInfo>, p: ProcessNetworkInfo)
    requires
        unique_pids(old(v)@),
    ensures
        final(v)@ == upsert_process(old(v)@, p),
        unique_pids(final(v)@),
{
    let mut i: usize = 0;
    while i < v.len()
        invariant
            i <= v@.len(),
            v@ == old(v)@,
            unique_pids(v@),
            forall|j: int| 0 <= j < i ==> (#[trigger] v@[j]).pid != p.pid,
        decreases v@.len() - i,
    {
        if v[i].pid == p.pid {
            proof {
                let s = v@;
                let c = choose|k: int| 0 <= k < s.len() && s[k].pid == p.pid;
                assert(0 <= c < s.len() && s[c].pid == p.pid);
                if c != i {
                    if c < i {
                        assert(s[c].pid != s[i as int].pid);
                    } else {
                        assert(s[i as int].pid != s[c].pid);
                    }
                }
            }
            let ghost before = v@;
            v.set(i, p);
            assert(unique_pids(v@)) by {
                assert forall|a: int, b: int| 0 <= a < b < v@.len() implies v@[a].pid
                    != v@[b].pid by {
                    if a != i && b != i {
                        assert(v@[a] == before[a] && v@[b] == before[b]);
                    } else if a == i {
                        assert(v@[b] == before[b]);
                    } else {
                        assert(v@[a] == before[a]);
                    }
                }
            }
            return;
        }
        i = i + 1;
    }
    v.push(p);
}

/// The pid and name of an `lsof -i -n -P` line (words 0 and 1), when it
/// has at least ten words and its second is a pid; with whether word 9
/// (the state) says `LISTEN`, or else `ESTABLISHED`.
pub open spec fn lsof_line(l: Seq<char>) -> Option<(u32, Seq<char>, bool, bool)> {
    let w = words(l);
    if w.len() >= 10 && parse_u32(w[1]) is Some {
        let listen = contains(w[9], "LISTEN"@);
        let est = !listen && contains(w[9], "ESTABLISHED"@);
        Some((parse_u32(w[1])->0, w[0], listen, est))
    } else {
        None
    }
}

/// What the lines `ls` tell of each process: its pid, the name of its
/// first line, and its numbers of lines, of listening lines and of
/// established lines; processes in the order of their first line.
pub open spec fn lsof_tally(ls: Seq<Seq<char>>) -> Seq<(u32, Seq<char>, nat, nat, nat)>
    decreases ls.len(),
{
    if ls.len() == 0 {
        Seq::empty()
    } else {
        let t = lsof_tally(ls.drop_last());
        match lsof_line(ls.last()) {
            None => t,
            Some(x) => {
                let add_l: nat = if x.2 { 1 } else { 0 };
                let add_e: nat = if x.3 { 1 } else { 0 };
                if exists|i: int| 0 <= i < t.len() && t[i].0 == x.0 {
                    let i = choose|i: int| 0 <= i < t.len() && t[i].0 == x.0;
                    t.update(i, (t[i].0, t[i].1, t[i].2 + 1, t[i].3 + add_l, t[i].4 + add_e))
                } else {
                    t.push((x.0, x.1, 1, add_l, add_e))
                }
            },
        }
    }
}

pub open spec fn tally_unique(t: Seq<(u32, Seq<char>, nat, nat, nat)>) -> bool {
    forall|i: int, j: int| 0 <= i < j < t.len() ==> t[i].0 != t[j].0
}

/// The processes an `lsof -i -n -P` listing shows (after its header
/// line), gathered at time `now`: per pid, the name of its first line as
/// name and command, its number of lines as connections, and those of
/// lines whose state says `LISTEN` or `ESTABLISHED`; no traffic figures.
pub fn parse_lsof_processes(output: &str, now: u64) -> (r: Vec<ProcessNetworkInfo>)
    requires
        lines(output@).len() <= u32::MAX,
    ensures
        ({
            let t = lsof_tally(after_header(lines(output@), 1));
            &&& r@.len() == t.len()
            &&& forall|i: int|
                0 <= i < r@.len() ==> {
                    let p = #[trigger] r@[i];
                    &&& p.pid == t[i].0
                    &&& p.name@ == t[i].1
                    &&& p.command@ == t[i].1
                    &&& p.connections == t[i].2
                    &&& p.listening_ports == t[i].3
                    &&& p.established_connections == t[i].4
                    &&& p.bytes_sent == 0 && p.bytes_received == 0
                    &&& p.packets_sent == 0 && p.packets_received == 0
                    &&& p.last_updated == now
                }
        }),
{
    let text = chars_of(output);
    let ls = split_lines(text.as_slice());
    let ghost gls = lines(output@);
    let ghost body = after_header(gls, 1);
    let listen_tag = chars_of("LISTEN");
    let est_tag = chars_of("ESTABLISHED");
    let mut r: Vec<ProcessNetworkInfo> = Vec::new();
    if ls.len() == 0 {
        assert(body =~= Seq::<Seq<char>>::empty());
        return r;
    }
    let mut i: usize = 1;
    assert(body.take(0) =~= Seq::<Seq<char>>::empty());
    while i < ls.len()
        invariant
            1 <= i <= ls@.len(),
            ls@.len() == gls.len(),
            gls.len() <= u32::MAX,
            forall|j: int| 0 <= j < ls@.len() ==> #[trigger] ls@[j]@ == gls[j],
            gls == lines(output@),
            body == gls.skip(1),
            gls.len() >= 1,
            listen_tag@ == "LISTEN"@,
            est_tag@ == "ESTABLISHED"@,
            ({
                let t = lsof_tally(body.take(i - 1));
                &&& r@.len() == t.len()
                &&& tally_unique(t)
                &&& forall|k: int| 0 <= k < t.len() ==> t[k].2 < i
                &&& forall|k: int|
                    0 <= k < r@.len() ==> {
                        let p = #[trigger] r@[k];
                        &&& p.pid == t[k].0
                        &&& p.name@ == t[k].1
                        &&& p.command@ == t[k].1
                        &&& p.connections == t[k].2
                        &&& p.listening_ports == t[k].3
                        &&& p.established_connections == t[k].4
                        &&& p.bytes_sent == 0 && p.bytes_received == 0
                        &&& p.packets_sent == 0 && p.packets_received == 0
                        &&& p.last_updated == now
                    }
            }),
        decreases ls@.len() - i,
    {
        let ghost t0 = lsof_tally(body.take(i - 1));
        proof {
            let u = body.take(i as int);
            assert(u.drop_last() =~= body.take(i - 1));
            assert(u.last() == gls[i as int]);
            assert forall|k: int| 0 <= k < t0.len() implies t0[k].3 <= t0[k].2 && t0[k].4
                <= t0[k].2 by {
                lemma_tally_counts(body.take(i - 1), k);
            }
        }
        let w = split_words(ls[i].as_slice());
        assert(w@.map_values(|x: Vec<char>| x@) =~= words(gls[i as int]));
        if w.len() >= 10 {
            match parse_u32_exec(w[1].as_slice()) {
                Some(pid) => {
                    let listen = contains_exec(w[9].as_slice(), listen_tag.as_slice());
                    let est = !listen && contains_exec(w[9].as_slice(), est_tag.as_slice());
                    let add_l: u32 = if listen {
                        1
                    } else {
                        0
                    };
                    let add_e: u32 = if est {
                        1
                    } else {
                        0
                    };
                    let mut k: usize = 0;
                    while k < r.len() && r[k].pid != pid
                        invariant
                            k <= r@.len(),
                            r@.len() == t0.len(),
                            forall|m: int| 0 <= m < r@.len() ==> (#[trigger] r@[m]).pid == t0[m].0,
                            forall|m: int| 0 <= m < k ==> t0[m].0 != pid,
                        decreases r@.len() - k,
                    {
                        k = k + 1;
                    }
                    if k < r.len() {
                        proof {
                            let c = choose|m: int| 0 <= m < t0.len() && t0[m].0 == pid;
                            assert(0 <= c < t0.len() && t0[c].0 == pid);
                            if c != k {
                                assert(t0[k as int].0 == pid);
                            }
                        }
                        let ghost before = r@;
                        r[k].connections = r[k].connections + 1;
                        r[k].listening_ports = r[k].listening_ports + add_l;
                        r[k].established_connections = r[k].established_connections + add_e;
                        proof {
                            let t1 = lsof_tally(body.take(i as int));
                            assert(t1 == t0.update(
                                k as int,
                                (
                                    t0[k as int].0,
                                    t0[k as int].1,
                                    t0[k as int].2 + 1,
                                    (t0[k as int].3 + add_l) as nat,
                                    (t0[k as int].4 + add_e) as nat,
                                ),
                            ));
                            assert forall|m: int| 0 <= m < r@.len() && m != k implies #[trigger] r@[m]
                                == before[m] by {}
                        }
                    } else {
                        let name = string_from_chars(w[0].as_slice());
                        let command = string_from_chars(w[0].as_slice());
                        r.push(
                            ProcessNetworkInfo {
                                pid,
                                name,
                                command,
                                connections: 1,
                                bytes_sent: 0,
                                bytes_received: 0,
                                packets_sent: 0,
                                packets_received: 0,
                                established_connections: add_e,
                                listening_ports: add_l,
                                last_updated: now,
                            },
                        );
                    }
                },
                None => {},
            }
        }
        i = i + 1;
    }
    assert(body.take(i - 1) =~= body);
    r
}

proof fn lemma_tally_counts(ls: Seq<Seq<char>>, k: int)
    requires
        0 <= k < lsof_tally(ls).len(),
    ensures
        lsof_tally(ls)[k].3 <= lsof_tally(ls)[k].2,
        lsof_tally(ls)[k].4 <= lsof_tally(ls)[k].2,
        lsof_tally(ls)[k].2 <= ls.len(),
    decreases ls.len(),
{
    if ls.len() > 0 {
        let t = lsof_tally(ls.drop_last());
        match lsof_line(ls.last()) {
            None => {
                lemma_tally_counts(ls.drop_last(), k);
            },
            Some(x) => {
                if exists|i: int| 0 <= i < t.len() && t[i].0 == x.0 {
                    lemma_tally_counts(ls.drop_last(), k);
                } else {
                    if k < t.len() {
                        lemma_tally_counts(ls.drop_last(), k);
                    }
                }
            },
        }
    }
}

/// The pid and name of a `ps -eo pid,comm,rss` line (words 0 and 1),
/// when it has at least two words and its first is a pid.
pub open spec fn ps_line(l: Seq<char>) -> Option<(u32, Seq<char>)> {
    let w = words(l);
    if w.len() >= 2 && parse_u32(w[0]) is Some {
        Some((parse_u32(w[0])->0, w[1]))
    } else {
        None
    }
}

/// The pids and names the lines `ls` give, a later line replacing an
/// earlier one with the same pid in place.
pub open spec fn ps_entries(ls: Seq<Seq<char>>) -> Seq<(u32, Seq<char>)>
    decreases ls.len(),
{
    if ls.len() == 0 {
        Seq::empty()
    } else {
        let t = ps_entries(ls.drop_last());
        match ps_line(ls.last()) {
            None => t,
            Some(x) => if exists|i: int| 0 <= i < t.len() && t[i].0 == x.0 {
                t.update(choose|i: int| 0 <= i < t.len() && t[i].0 == x.0, x)
            } else {
                t.push(x)
            },
        }
    }
}

/// The processes a `ps -eo pid,comm,rss` listing shows (after its header
/// line), gathered at time `now`: per pid, the name of its last line as
/// name and command; no connections or traffic.
pub fn parse_ps_processes(output: &str, now: u64) -> (r: Vec<ProcessNetworkInfo>)
    ensures
        ({
            let t = ps_entries(after_header(lines(output@), 1));
            &&& r@.len() == t.len()
            &&& forall|i: int|
                0 <= i < r@.len() ==> {
                    let p = #[trigger] r@[i];
                    &&& p.pid == t[i].0
                    &&& p.name@ == t[i].1
                    &&& p.command@ == t[i].1
                    &&& p.connections == 0 && p.listening_ports == 0
                    &&& p.established_connections == 0
                    &&& p.bytes_sent == 0 && p.bytes_received == 0
                    &&& p.packets_sent == 0 && p.packets_received == 0
                    &&& p.last_updated == now
                }
        }),
{
    let text = chars_of(output);
    let ls = split_lines(text.as_slice());
    let ghost gls = lines(output@);
    let ghost body = after_header(gls, 1);
    let mut r: Vec<ProcessNetworkInfo> = Vec::new();
    if ls.len() == 0 {
        assert(body =~= Seq::<Seq<char>>::empty());
        return r;
    }
    let mut i: usize = 1;
    assert(body.take(0) =~= Seq::<Seq<char>>::empty());
    while i < ls.len()
        invariant
            1 <= i <= ls@.len(),
            ls@.len() == gls.len(),
            forall|j: int| 0 <= j < ls@.len() ==> #[trigger] ls@[j]@ == gls[j],
            gls == lines(output@),
            body == gls.skip(1),
            gls.len() >= 1,
            ({
                let t = ps_entries(body.take(i - 1));
                &&& r@.len() == t.len()
                &&& forall|a: int, b: int| 0 <= a < b < t.len() ==> t[a].0 != t[b].0
                &&& forall|k: int|
                    0 <= k < r@.len() ==> {
                        let p = #[trigger] r@[k];
                        &&& p.pid == t[k].0
                        &&& p.name@ == t[k].1
                        &&& p.command@ == t[k].1
                        &&& p.connections == 0 && p.listening_ports == 0
                        &&& p.established_connections == 0
                        &&& p.bytes_sent == 0 && p.bytes_received == 0
                        &&& p.packets_sent == 0 && p.packets_received == 0
                        &&& p.last_updated == now
                    }
            }),
        decreases ls@.len() - i,
    {
        let ghost t0 = ps_entries(body.take(i - 1));
        proof {
            let u = body.take(i as int);
            assert(u.drop_last() =~= body.take(i - 1));
            assert(u.last() == gls[i as int]);
        }
        let w = split_words(ls[i].as_slice());
        assert(w@.map_values(|x: Vec<char>| x@) =~= words(gls[i as int]));
        if w.len() >= 2 {
            match parse_u32_exec(w[0].as_slice()) {
                Some(pid) => {
                    let p = ProcessNetworkInfo {
                        pid,
                        name: string_from_chars(w[1].as_slice()),
                        command: string_from_chars(w[1].as_slice()),
                        connections: 0,
                        bytes_sent: 0,
                        bytes_received: 0,
                        packets_sent: 0,
                        packets_received: 0,
                        established_connections: 0,
                        listening_ports: 0,
                        last_updated: now,
                    };
                    let mut k: usize = 0;
                    while k < r.len() && r[k].pid != pid
                        invariant
                            k <= r@.len(),
                            r@.len() == t0.len(),
                            forall|m: int| 0 <= m < r@.len() ==> (#[trigger] r@[m]).pid == t0[m].0,
                            forall|m: int| 0 <= m < k ==> t0[m].0 != pid,
                        decreases r@.len() - k,
                    {
                        k = k + 1;
                    }
                    if k < r.len() {
                        proof {
                            let c = choose|m: int| 0 <= m < t0.len() && t0[m].0 == pid;
                            assert(0 <= c < t0.len() && t0[c].0 == pid);
                            if c != k {
                                assert(t0[k as int].0 == pid);
                            }
                        }
                        let ghost before = r@;
                        r.set(k, p);
                        proof {
                            assert forall|m: int| 0 <= m < r@.len() && m != k implies #[trigger] r@[m]
                                == before[m] by {}
                        }
                    } else {
                        r.push(p);
                    }
                },
                None => {},
            }
        }
        i = i + 1;
    }
    assert(body.take(i - 1) =~= body);
    r
}

} // verus!

verus! {

// ---------------------------------------------------------------------
// The monitor
// ---------------------------------------------------------------------

/// `a - b`, or 0 when `b` is larger.
pub open spec fn sat_sub(a: u64, b: u64) -> int {
    if a >= b {
        a - b
    } else {
        0
    }
}

/// Milliseconds from `since` to `now`; one second when `now` is earlier.
pub open spec fn elapsed_ms(since: u64, now: u64) -> int {
    if now >= since {
        now - since
    } else {
        1000
    }
}

/// `amount` over `ms` milliseconds as a per-second rate, rounded down and
/// capped at the largest `u64`.
pub open spec fn per_second(amount: int, ms: int) -> u64 {
    let r = amount * 1000 / ms;
    if r > u64::MAX {
        u64::MAX
    } else {
        r as u64
    }
}

/// The counters of `p` as kept for the next update at time `now`.
pub open spec fn snapshot(p: ProcessNetworkInfo, now: u64) -> ProcessNetworkStats {
    ProcessNetworkStats {
        bytes_sent: p.bytes_sent,
        bytes_received: p.bytes_received,
        packets_sent: p.packets_sent,
        packets_received: p.packets_received,
        timestamp: now,
    }
}

/// `p` with its byte counters turned into per-second rates against the
/// counters `prev` kept for it, when there are such and some time has
/// passed since.
pub open spec fn rated(p: ProcessNetworkInfo, prev: Option<ProcessNetworkStats>, now: u64) -> ProcessNetworkInfo {
    match prev {
        Some(s) => {
            let ms = elapsed_ms(s.timestamp, now);
            if ms > 0 {
                ProcessNetworkInfo {
                    bytes_sent: per_second(sat_sub(p.bytes_sent, s.bytes_sent), ms),
                    bytes_received: per_second(sat_sub(p.bytes_received, s.bytes_received), ms),
                    ..p
                }
            } else {
                p
            }
        },
        None => p,
    }
}

/// The counters kept for `pid` in `t`.
pub open spec fn stats_lookup(t: Seq<(u32, ProcessNetworkStats)>, pid: u32) -> Option<ProcessNetworkStats> {
    if exists|i: int| 0 <= i < t.len() && t[i].0 == pid {
        Some(t[choose|i: int| 0 <= i < t.len() && t[i].0 == pid].1)
    } else {
        None
    }
}

pub open spec fn unique_keys(t: Seq<(u32, ProcessNetworkStats)>) -> bool {
    forall|i: int, j: int| 0 <= i < j < t.len() ==> t[i].0 != t[j].0
}

proof fn lemma_lookup_at(t: Seq<(u32, ProcessNetworkStats)>, i: int)
    requires
        unique_keys(t),
        0 <= i < t.len(),
    ensures
        stats_lookup(t, t[i].0) == Some(t[i].1),
{
    let k = t[i].0;
    let c = choose|j: int| 0 <= j < t.len() && t[j].0 == k;
    assert(0 <= c < t.len() && t[c].0 == k);
    if c < i {
        assert(t[c].0 != t[i].0);
    } else if c > i {
        assert(t[i].0 != t[c].0);
    }
}

/// The byte totals of `s`, used to rank processes.
pub open spec fn byte_keys(s: Seq<ProcessNetworkInfo>) -> Seq<u128> {
    Seq::new(s.len(), |i: int| (s[i].bytes_sent + s[i].bytes_received) as u128)
}

/// The processes of `s` with at least one listening port, in order.
pub open spec fn listening_only(s: Seq<ProcessNetworkInfo>) -> Seq<ProcessNetworkInfo>
    decreases s.len(),
{
    if s.len() == 0 {
        Seq::empty()
    } else if s.last().listening_ports > 0 {
        listening_only(s.drop_last()).push(s.last())
    } else {
        listening_only(s.drop_last())
    }
}

/// The numbers of listening ports of `s`, used to rank processes.
pub open spec fn listening_keys(s: Seq<ProcessNetworkInfo>) -> Seq<u128> {
    Seq::new(s.len(), |i: int| s[i].listening_ports as u128)
}

/// The sums over `s` of bytes sent, bytes received, packets sent and
/// packets received.
pub open spec fn traffic_sums(s: Seq<ProcessNetworkInfo>) -> (int, int, int, int)
    decreases s.len(),
{
    if s.len() == 0 {
        (0, 0, 0, 0)
    } else {
        let r = traffic_sums(s.drop_last());
        let p = s.last();
        (r.0 + p.bytes_sent, r.1 + p.bytes_received, r.2 + p.packets_sent, r.3 + p.packets_received)
    }
}

proof fn lemma_traffic_sums_prefix(s: Seq<ProcessNetworkInfo>, i: int)
    requires
        0 <= i <= s.len(),
    ensures
        0 <= traffic_sums(s.take(i)).0 <= traffic_sums(s).0,
        0 <= traffic_sums(s.take(i)).1 <= traffic_sums(s).1,
        0 <= traffic_sums(s.take(i)).2 <= traffic_sums(s).2,
        0 <= traffic_sums(s.take(i)).3 <= traffic_sums(s).3,
    decreases s.len() - i,
{
    if i < s.len() {
        lemma_traffic_sums_prefix(s, i + 1);
        assert(s.take(i + 1).drop_last() =~= s.take(i));
        lemma_traffic_sums_nonneg(s.take(i));
    } else {
        assert(s.take(i) =~= s);
        lemma_traffic_sums_nonneg(s);
    }
}

proof fn lemma_traffic_sums_nonneg(s: Seq<ProcessNetworkInfo>)
    ensures
        traffic_sums(s).0 >= 0 && traffic_sums(s).1 >= 0,
        traffic_sums(s).2 >= 0 && traffic_sums(s).3 >= 0,
    decreases s.len(),
{
    if s.len() > 0 {
        lemma_traffic_sums_nonneg(s.drop_last());
    }
}

/// Keeps, per process, its network figures; each update turns the byte
/// counters into per-second rates against those of the previous update.
pub struct ProcessMonitor {
    processes: Vec<ProcessNetworkInfo>,
    previous_stats: Vec<(u32, ProcessNetworkStats)>,
    last_update: u64,
}

impl ProcessMonitor {
    #[verifier::type_invariant]
    spec fn inv(self) -> bool {
        unique_pids(self.processes@) && unique_keys(self.previous_stats@)
    }

    /// The processes known, one per pid.
    pub closed spec fn processes(self) -> Seq<ProcessNetworkInfo> {
        self.processes@
    }

    /// The counters kept for `pid` from the previous update.
    pub closed spec fn previous(self, pid: u32) -> Option<ProcessNetworkStats> {
        stats_lookup(self.previous_stats@, pid)
    }

    /// When the monitor was last updated.
    pub closed spec fn last_update(self) -> u64 {
        self.last_update
    }

    /// A monitor that knows no process yet.
    pub fn new() -> (m: ProcessMonitor)
        ensures
            m.processes().len() == 0,
            forall|pid: u32| m.previous(pid) is None,
    {
        ProcessMonitor { processes: Vec::new(), previous_stats: Vec::new(), last_update: now_millis() }
    }

    /// Replaces the processes known by those of a new scan (an entry
    /// replacing an earlier one with the same pid), turns their byte
    /// counters into rates against the previous update (see
    /// `calculate_rates`) and records the update time `now`.
    pub fn update(&mut self, scanned: Vec<ProcessNetworkInfo>, now: u64)
        ensures
            ({
                let base = upsert_all(Seq::empty(), scanned@);
                &&& final(self).processes().len() == base.len()
                &&& forall|i: int|
                    0 <= i < base.len() ==> #[trigger] final(self).processes()[i] == rated(
                        base[i],
                        old(self).previous(base[i].pid),
                        now,
                    )
                &&& forall|i: int|
                    0 <= i < base.len() ==> final(self).previous(#[trigger] base[i].pid) == Some(
                        snapshot(final(self).processes()[i], now),
                    )
                &&& forall|pid: u32|
                    (forall|i: int| 0 <= i < base.len() ==> base[i].pid != pid)
                        ==> #[trigger] final(self).previous(pid) == old(self).previous(pid)
                &&& final(self).last_update() == now
            }),
    {
        let ghost orig = scanned@;
        let mut rest = scanned;
        let mut procs: Vec<ProcessNetworkInfo> = Vec::new();
        let ghost mut k: int = 0;
        assert(orig.take(0) =~= Seq::<ProcessNetworkInfo>::empty());
        assert(orig.skip(0) =~= orig);
        while rest.len() > 0
            invariant
                0 <= k <= orig.len(),
                rest@ == orig.skip(k),
                procs@ == upsert_all(Seq::empty(), orig.take(k)),
                unique_pids(procs@),
            decreases rest@.len(),
        {
            let p = rest.remove(0);
            proof {
                assert(p == orig[k]);
                assert(orig.take(k + 1).drop_last() =~= orig.take(k));
                assert(orig.take(k + 1).last() == orig[k]);
            }
            upsert_process_exec(&mut procs, p);
            proof {
                k = k + 1;
                assert(rest@ =~= orig.skip(k));
            }
        }
        assert(orig.take(k) =~= orig);
        let mut prev_stats: Vec<(u32, ProcessNetworkStats)> = Vec::new();
        proof {
            use_type_invariant(&*self);
        }
        std::mem::swap(&mut prev_stats, &mut self.previous_stats);
        *self = ProcessMonitor { processes: procs, previous_stats: prev_stats, last_update: now };
        self.calculate_rates(now);
    }

    /// The processes by bytes sent and received, largest first (equal
    /// totals in the order kept).
    pub fn get_processes(&self) -> (r: Vec<&ProcessNetworkInfo>)
        ensures
            exists|q: Seq<usize>|
                ordering_of(byte_keys(self.processes()), q) && r@.len() == q.len() && forall|i: int|
                    0 <= i < q.len() ==> *r@[i] == self.processes()[#[trigger] q[i] as int],
    {
        let n = self.processes.len();
        let mut keys: Vec<u128> = Vec::new();
        let mut i: usize = 0;
        while i < n
            invariant
                n == self.processes@.len(),
                i <= n,
                keys@.len() == i,
                forall|j: int| 0 <= j < i ==> keys@[j] == byte_keys(self.processes@)[j],
            decreases n - i,
        {
            keys.push(self.processes[i].bytes_sent as u128 + self.processes[i].bytes_received as u128);
            i = i + 1;
        }
        assert(keys@ =~= byte_keys(self.processes@));
        let q = sort_desc_indices(&keys);
        let mut r: Vec<&ProcessNetworkInfo> = Vec::new();
        let mut j: usize = 0;
        while j < q.len()
            invariant
                is_permutation(q@, n as nat),
                n == self.processes@.len(),
                j <= q@.len(),
                r@.len() == j,
                forall|m: int| 0 <= m < j ==> *r@[m] == self.processes@[#[trigger] q@[m] as int],
            decreases q@.len() - j,
        {
            r.push(&self.processes[q[j]]);
            j = j + 1;
        }
        assert(ordering_of(byte_keys(self.processes()), q@));
        r
    }

    /// The `limit` processes with the most bytes sent and received, largest
    /// first (all of them when there are fewer).
    pub fn get_top_network_processes(&self, limit: usize) -> (r: Vec<&ProcessNetworkInfo>)
        ensures
            exists|q: Seq<usize>|
                ordering_of(byte_keys(self.processes()), q) && r@.len() == (if limit < q.len() {
                    limit as int
                } else {
                    q.len() as int
                }) && forall|i: int|
                    0 <= i < r@.len() ==> *r@[i] == self.processes()[#[trigger] q[i] as int],
    {
        let mut r = self.get_processes();
        let ghost full = r@;
        r.truncate(limit);
        r
    }

    /// The sums of bytes and packets sent and received over all processes,
    /// stamped with the current time.
    pub fn get_process_stats(&self) -> (st: ProcessNetworkStats)
        requires
            traffic_sums(self.processes()).0 <= u64::MAX,
            traffic_sums(self.processes()).1 <= u64::MAX,
            traffic_sums(self.processes()).2 <= u64::MAX,
            traffic_sums(self.processes()).3 <= u64::MAX,
        ensures
            st.bytes_sent == traffic_sums(self.processes()).0,
            st.bytes_received == traffic_sums(self.processes()).1,
            st.packets_sent == traffic_sums(self.processes()).2,
            st.packets_received == traffic_sums(self.processes()).3,
    {
        let mut st = ProcessNetworkStats {
            bytes_sent: 0,
            bytes_received: 0,
            packets_sent: 0,
            packets_received: 0,
            timestamp: now_millis(),
        };
        let ghost s = self.processes@;
        let mut i: usize = 0;
        assert(s.take(0) =~= Seq::<ProcessNetworkInfo>::empty());
        while i < self.processes.len()
            invariant
                s == self.processes@,
                i <= s.len(),
                traffic_sums(s).0 <= u64::MAX,
                traffic_sums(s).1 <= u64::MAX,
                traffic_sums(s).2 <= u64::MAX,
                traffic_sums(s).3 <= u64::MAX,
                traffic_sums(s.take(i as int)) == (
                    st.bytes_sent as int,
                    st.bytes_received as int,
                    st.packets_sent as int,
                    st.packets_received as int,
                ),
            decreases s.len() - i,
        {
            proof {
                assert(s.take(i + 1).drop_last() =~= s.take(i as int));
                assert(s.take(i + 1).last() == s[i as int]);
                lemma_traffic_sums_prefix(s, i + 1);
            }
            st.bytes_sent = st.bytes_sent + self.processes[i].bytes_sent;
            st.bytes_received = st.bytes_received + self.processes[i].bytes_received;
            st.packets_sent = st.packets_sent + self.processes[i].packets_sent;
            st.packets_received = st.packets_received + self.processes[i].packets_received;
            i = i + 1;
        }
        assert(s.take(i as int) =~= s);
        st
    }

    /// The processes with listening ports, by number of listening ports,
    /// largest first (equal numbers in the order kept).
    pub fn get_listening_processes(&self) -> (r: Vec<&ProcessNetworkInfo>)
        ensures
            ({
                let f = listening_only(self.processes());
                exists|q: Seq<usize>|
                    ordering_of(listening_keys(f), q) && r@.len() == q.len() && forall|i: int|
                        0 <= i < q.len() ==> *r@[i] == f[#[trigger] q[i] as int]
            }),
    {
        let ghost s = self.processes@;
        let n = self.processes.len();
        let mut sel: Vec<usize> = Vec::new();
        let ghost mut f: Seq<ProcessNetworkInfo> = Seq::empty();
        let mut i: usize = 0;
        assert(s.take(0) =~= Seq::<ProcessNetworkInfo>::empty());
        while i < n
            invariant
                s == self.processes@,
                n == s.len(),
                i <= n,
                f == listening_only(s.take(i as int)),
                sel@.len() == f.len(),
                forall|m: int| 0 <= m < sel@.len() ==> #[trigger] sel@[m] < n && s[sel@[m] as int] == f[m],
            decreases n - i,
        {
            proof {
                assert(s.take(i + 1).drop_last() =~= s.take(i as int));
                assert(s.take(i + 1).last() == s[i as int]);
            }
            if self.processes[i].listening_ports > 0 {
                sel.push(i);
                proof {
                    f = f.push(s[i as int]);
                }
            }
            i = i + 1;
        }
        assert(s.take(n as int) =~= s);
        let mut keys: Vec<u128> = Vec::new();
        let mut j: usize = 0;
        while j < sel.len()
            invariant
                s == self.processes@,
                n == s.len(),
                f == listening_only(s),
                sel@.len() == f.len(),
                forall|m: int| 0 <= m < sel@.len() ==> #[trigger] sel@[m] < n && s[sel@[m] as int] == f[m],
                j <= sel@.len(),
                keys@.len() == j,
                forall|m: int| 0 <= m < j ==> keys@[m] == listening_keys(f)[m],
            decreases sel@.len() - j,
        {
            keys.push(self.processes[sel[j]].listening_ports as u128);
            j = j + 1;
        }
        assert(keys@ =~= listening_keys(f));
        let q = sort_desc_indices(&keys);
        let mut r: Vec<&ProcessNetworkInfo> = Vec::new();
        let mut k: usize = 0;
        while k < q.len()
            invariant
                s == self.processes@,
                n == s.len(),
                sel@.len() == f.len(),
                forall|m: int| 0 <= m < sel@.len() ==> #[trigger] sel@[m] < n && s[sel@[m] as int] == f[m],
                f == listening_only(s),
                is_permutation(q@, f.len()),
                k <= q@.len(),
                r@.len() == k,
                forall|m: int| 0 <= m < k ==> *r@[m] == f[#[trigger] q@[m] as int],
            decreases q@.len() - k,
        {
            let at = sel[q[k]];
            r.push(&self.processes[at]);
            k = k + 1;
        }
        assert(ordering_of(listening_keys(f), q@));
        assert(f == listening_only(self.processes()));
        assert(r@.len() == q@.len());
        assert(forall|i: int| 0 <= i < q@.len() ==> *r@[i] == f[#[trigger] q@[i] as int]);
        r
    }

    /// Counts the sockets of the `/proc/net/tcp` and `/proc/net/udp`
    /// tables (`None` when unreadable) per process; as no socket's owner
    /// is found (see `find_pid_by_inode`), the processes stay as they are.
    pub fn update_connection_counts(&mut self, tcp: Option<&str>, udp: Option<&str>)
        requires
            tcp matches Some(c) ==> socket_table_countable(c@),
            udp matches Some(c) ==> socket_table_countable(c@),
        ensures
            final(self).processes() == old(self).processes(),
            forall|pid: u32| final(self).previous(pid) == old(self).previous(pid),
            final(self).last_update() == old(self).last_update(),
    {
        let mut counts: Vec<(u32, (u32, u32, u32))> = Vec::new();
        match tcp {
            Some(c) => count_connections_in_file(c, &mut counts),
            None => {},
        }
        match udp {
            Some(c) => count_connections_in_file(c, &mut counts),
            None => {},
        }
        assert(counts@.len() == 0);
    }

    /// Turns each process's byte counters into per-second rates against
    /// the counters kept from the previous update (see `rated`), and keeps
    /// the resulting counters, stamped `now`, for the next one.
    pub fn calculate_rates(&mut self, now: u64)
        ensures
            final(self).processes().len() == old(self).processes().len(),
            forall|i: int|
                0 <= i < old(self).processes().len() ==> #[trigger] final(self).processes()[i]
                    == rated(old(self).processes()[i], old(self).previous(old(self).processes()[i].pid), now),
            forall|i: int|
                0 <= i < old(self).processes().len() ==> final(self).previous(
                    #[trigger] old(self).processes()[i].pid,
                ) == Some(snapshot(final(self).processes()[i], now)),
            forall|pid: u32|
                (forall|i: int| 0 <= i < old(self).processes().len() ==> old(self).processes()[i].pid
                    != pid) ==> #[trigger] final(self).previous(pid) == old(self).previous(pid),
            final(self).last_update() == old(self).last_update(),
    {
        proof {
            use_type_invariant(&*self);
        }
        let mut procs: Vec<ProcessNetworkInfo> = Vec::new();
        let mut prev_stats: Vec<(u32, ProcessNetworkStats)> = Vec::new();
        std::mem::swap(&mut procs, &mut self.processes);
        std::mem::swap(&mut prev_stats, &mut self.previous_stats);
        let ghost old_procs = procs@;
        let ghost old_prev = prev_stats@;
        let n = procs.len();
        let mut i: usize = 0;
        while i < n
            invariant
                n == old_procs.len(),
                i <= n,
                procs@.len() == n,
                unique_pids(old_procs),
                unique_pids(procs@),
                unique_keys(prev_stats@),
                unique_keys(old_prev),
                forall|j: int| 0 <= j < n ==> (#[trigger] procs@[j]).pid == old_procs[j].pid,
                forall|j: int|
                    0 <= j < i ==> #[trigger] procs@[j] == rated(
                        old_procs[j],
                        stats_lookup(old_prev, old_procs[j].pid),
                        now,
                    ),
                forall|j: int| i <= j < n ==> #[trigger] procs@[j] == old_procs[j],
                forall|j: int|
                    0 <= j < i ==> stats_lookup(prev_stats@, #[trigger] old_procs[j].pid)
                        == Some(snapshot(procs@[j], now)),
                forall|pid: u32|
                    (forall|j: int| 0 <= j < i ==> old_procs[j].pid != pid) ==> #[trigger] stats_lookup(
                        prev_stats@,
                        pid,
                    ) == stats_lookup(old_prev, pid),
            decreases n - i,
        {
            let pid = procs[i].pid;
            assert(forall|j: int| 0 <= j < i ==> old_procs[j].pid != pid) by {
                assert forall|j: int| 0 <= j < i implies old_procs[j].pid != pid by {
                    assert(old_procs[j].pid != old_procs[i as int].pid);
                }
            }
            assert(stats_lookup(prev_stats@, pid) == stats_lookup(old_prev, pid));
            match find_previous(&prev_stats, pid) {
                Some(k) => {
                    let prev = prev_stats[k].1;
                    proof {
                        lemma_lookup_at(prev_stats@, k as int);
                    }
                    let ms: u64 = if now >= prev.timestamp {
                        now - prev.timestamp
                    } else {
                        1000
                    };
                    if ms > 0 {
                        let sent_diff: u64 = if procs[i].bytes_sent >= prev.bytes_sent {
                            procs[i].bytes_sent - prev.bytes_sent
                        } else {
                            0
                        };
                        let recv_diff: u64 = if procs[i].bytes_received
                            >= prev.bytes_received {
                            procs[i].bytes_received - prev.bytes_received
                        } else {
                            0
                        };
                        let sent_rate = rate_exec(sent_diff, ms);
                        let recv_rate = rate_exec(recv_diff, ms);
                        let ghost before = procs@;
                        procs[i].bytes_sent = sent_rate;
                        procs[i].bytes_received = recv_rate;
                        proof {
                            assert forall|j: int| 0 <= j < n && j != i implies #[trigger] procs@[j]
                                == before[j] by {}
                            assert(procs@[i as int] == rated(
                                old_procs[i as int],
                                stats_lookup(old_prev, pid),
                                now,
                            ));
                        }
                    }
                },
                None => {},
            }
            assert(unique_pids(procs@)) by {
                assert forall|a: int, b: int| 0 <= a < b < n implies procs@[a].pid
                    != procs@[b].pid by {
                    assert(old_procs[a].pid != old_procs[b].pid);
                }
            }
            let st = ProcessNetworkStats {
                bytes_sent: procs[i].bytes_sent,
                bytes_received: procs[i].bytes_received,
                packets_sent: procs[i].packets_sent,
                packets_received: procs[i].packets_received,
                timestamp: now,
            };
            assert(st == snapshot(procs@[i as int], now));
            let ghost prev_before = prev_stats@;
            match find_previous(&prev_stats, pid) {
                Some(k) => {
                    prev_stats.set(k, (pid, st));
                    proof {
                        let t = prev_stats@;
                        assert forall|a: int, b: int| 0 <= a < b < t.len() implies t[a].0 != t[b].0 by {
                            if a != k && b != k {
                                assert(t[a] == prev_before[a] && t[b] == prev_before[b]);
                            } else if a == k {
                                assert(t[b] == prev_before[b]);
                            } else {
                                assert(t[a] == prev_before[a]);
                            }
                        }
                        lemma_lookup_at(t, k as int);
                        assert forall|q: u32| q != pid implies #[trigger] stats_lookup(t, q)
                            == stats_lookup(prev_before, q) by {
                            if exists|j: int| 0 <= j < t.len() && t[j].0 == q {
                                let j = choose|j: int| 0 <= j < t.len() && t[j].0 == q;
                                lemma_lookup_at(t, j);
                                assert(j != k);
                                assert(prev_before[j] == t[j]);
                                lemma_lookup_at(prev_before, j);
                            } else {
                                assert forall|j: int| 0 <= j < prev_before.len() implies prev_before[j].0
                                    != q by {
                                    if j != k {
                                        assert(prev_before[j] == t[j]);
                                    }
                                }
                            }
                        }
                    }
                },
                None => {
                    prev_stats.push((pid, st));
                    proof {
                        let t = prev_stats@;
                        assert forall|a: int, b: int| 0 <= a < b < t.len() implies t[a].0 != t[b].0 by {
                            if b < t.len() - 1 {
                                assert(t[a] == prev_before[a] && t[b] == prev_before[b]);
                            } else {
                                assert(t[a] == prev_before[a]);
                            }
                        }
                        lemma_lookup_at(t, t.len() - 1);
                        assert forall|q: u32| q != pid implies #[trigger] stats_lookup(t, q)
                            == stats_lookup(prev_before, q) by {
                            if exists|j: int| 0 <= j < t.len() && t[j].0 == q {
                                let j = choose|j: int| 0 <= j < t.len() && t[j].0 == q;
                                assert(j < t.len() - 1);
                                assert(prev_before[j] == t[j]);
                                lemma_lookup_at(prev_before, j);
                            } else {
                                assert forall|j: int| 0 <= j < prev_before.len() implies prev_before[j].0
                                    != q by {
                                    assert(prev_before[j] == t[j]);
                                }
                            }
                        }
                    }
                },
            }
            proof {
                let t = prev_stats@;
                assert forall|j: int| 0 <= j < i + 1 implies stats_lookup(
                    t,
                    #[trigger] old_procs[j].pid,
                ) == Some(snapshot(procs@[j], now)) by {
                    if j < i {
                        assert(old_procs[j].pid != pid);
                    }
                }
            }
            i = i + 1;
        }
        proof {
            assert forall|pid: u32|
                (forall|j: int| 0 <= j < old_procs.len() ==> old_procs[j].pid != pid) implies #[trigger] stats_lookup(
                prev_stats@,
                pid,
            ) == stats_lookup(old_prev, pid) by {}
        }
        *self = ProcessMonitor {
            processes: procs,
            previous_stats: prev_stats,
            last_update: self.last_update,
        };
    }
}

/// Finds the counters kept for `pid` in `t`.
fn find_previous(t: &Vec<(u32, ProcessNetworkStats)>, pid: u32) -> (r: Option<usize>)
    ensures
        match r {
            Some(i) => i < t@.len() && t@[i as int].0 == pid,
            None => forall|i: int| 0 <= i < t@.len() ==> t@[i].0 != pid,
        },
{
    let mut i: usize = 0;
    while i < t.len() && t[i].0 != pid
        invariant
            i <= t@.len(),
            forall|j: int| 0 <= j < i ==> t@[j].0 != pid,
        decreases t@.len() - i,
    {
        i = i + 1;
    }
    if i < t.len() {
        Some(i)
    } else {
        None
    }
}


/// `amount` over `ms` milliseconds per second (see `per_second`).
fn rate_exec(amount: u64, ms: u64) -> (r: u64)
    requires
        ms > 0,
    ensures
        r == per_second(amount as int, ms as int),
{
    let scaled: u128 = (amount as u128) * 1000;
    let q: u128 = scaled / (ms as u128);
    if q > u64::MAX as u128 {
        u64::MAX
    } else {
        q as u64
    }
}

} // verus!

verus! {

/// A process whose counters grew by `d` bytes over exactly one second
/// since the previous update gets `d` bytes per second.
pub proof fn law_rate_over_one_second(p: ProcessNetworkInfo, s: ProcessNetworkStats)
    requires
        p.bytes_sent >= s.bytes_sent,
        p.bytes_received >= s.bytes_received,
        s.timestamp <= u64::MAX - 1000,
    ensures
        rated(p, Some(s), (s.timestamp + 1000) as u64).bytes_sent == p.bytes_sent - s.bytes_sent,
        rated(p, Some(s), (s.timestamp + 1000) as u64).bytes_received == p.bytes_received
            - s.bytes_received,
        rated(p, Some(s), (s.timestamp + 1000) as u64).pid == p.pid,
{
    let now = (s.timestamp + 1000) as u64;
    assert(now == s.timestamp + 1000);
    assert(elapsed_ms(s.timestamp, now) == 1000);
    let a = p.bytes_sent - s.bytes_sent;
    let b = p.bytes_received - s.bytes_received;
    assert(a * 1000 / 1000 == a) by (nonlinear_arith);
    assert(b * 1000 / 1000 == b) by (nonlinear_arith);
    assert(sat_sub(p.bytes_sent, s.bytes_sent) == a);
    assert(sat_sub(p.bytes_received, s.bytes_received) == b);
}

/// Without counters from a previous update, or when no time passed, a
/// process keeps its counters.
pub proof fn law_rate_needs_time(p: ProcessNetworkInfo, s: ProcessNetworkStats)
    ensures
        rated(p, None, s.timestamp) == p,
        rated(p, Some(s), s.timestamp) == p,
{
}

} // verus!

verus! {

/// The top processes are the head of the full ranking: both are read off
/// the one order of the processes by bytes (see `law_ordering_unique`).
pub proof fn law_top_is_head_of_ranking(
    s: Seq<ProcessNetworkInfo>,
    q_full: Seq<usize>,
    full: Seq<ProcessNetworkInfo>,
    q_top: Seq<usize>,
    top: Seq<ProcessNetworkInfo>,
)
    requires
        ordering_of(byte_keys(s), q_full),
        full.len() == q_full.len(),
        forall|i: int| 0 <= i < q_full.len() ==> full[i] == s[#[trigger] q_full[i] as int],
        ordering_of(byte_keys(s), q_top),
        top.len() <= q_top.len(),
        forall|i: int| 0 <= i < top.len() ==> top[i] == s[#[trigger] q_top[i] as int],
    ensures
        top.len() <= full.len(),
        forall|i: int| 0 <= i < top.len() ==> top[i] == full[i],
{
    crate::order::law_ordering_unique(byte_keys(s), q_full, q_top);
    assert forall|i: int| 0 <= i < top.len() implies top[i] == full[i] by {
        assert(q_top[i] == q_full[i]);
    }
}

} // verus!

verus! {

/// Whether `parse_net_dev` may read `content` (see `net_dev_parsable`).
pub fn is_net_dev_parsable(content: &str) -> (r: bool)
    ensures
        r == net_dev_parsable(content@),
{
    let text = chars_of(content);
    let ls = split_lines(text.as_slice());
    let ghost gls = lines(content@);
    let ghost body = net_dev_body(content@);
    if ls.len() <= 2 {
        assert(body =~= Seq::<Seq<char>>::empty());
        assert(net_dev_sums(body) == (0int, 0int, 0int, 0int));
        return true;
    }
    let mut s0: u64 = 0;
    let mut s1: u64 = 0;
    let mut s2: u64 = 0;
    let mut s3: u64 = 0;
    let mut i: usize = 2;
    assert(body.take(0) =~= Seq::<Seq<char>>::empty());
    while i < ls.len()
        invariant
            2 <= i <= ls@.len(),
            ls@.len() == gls.len(),
            gls.len() > 2,
            forall|j: int| 0 <= j < ls@.len() ==> #[trigger] ls@[j]@ == gls[j],
            gls == lines(content@),
            body == gls.skip(2),
            body == net_dev_body(content@),
            forall|j: int| 0 <= j < i - 2 ==> words(#[trigger] body[j]).len() != 10,
            net_dev_sums(body.take(i - 2)) == (s0 as int, s1 as int, s2 as int, s3 as int),
        decreases ls@.len() - i,
    {
        let w = split_words(ls[i].as_slice());
        let ghost gw = words(gls[i as int]);
        assert(w@.map_values(|x: Vec<char>| x@) =~= gw);
        assert(body[i - 2] == gls[i as int]);
        proof {
            let t = body.take(i - 1);
            assert(t.drop_last() =~= body.take(i - 2));
            assert(t.last() == gls[i as int]);
        }
        if w.len() == 10 {
            return false;
        }
        if w.len() >= 11 {
            let a = word_u64_exec(&w, 1);
            let b = word_u64_exec(&w, 2);
            let c = word_u64_exec(&w, 9);
            let d = word_u64_exec(&w, 10);
            match (a, b, c, d) {
                (Some(a), Some(b), Some(c), Some(d)) => {
                    let n0 = s0.checked_add(a);
                    let n1 = s1.checked_add(b);
                    let n2 = s2.checked_add(c);
                    let n3 = s3.checked_add(d);
                    match (n0, n1, n2, n3) {
                        (Some(x0), Some(x1), Some(x2), Some(x3)) => {
                            s0 = x0;
                            s1 = x1;
                            s2 = x2;
                            s3 = x3;
                        },
                        _ => {
                            proof {
                                lemma_net_dev_sums_mono(body, i - 1);
                            }
                            return false;
                        },
                    }
                },
                _ => {},
            }
        }
        i = i + 1;
    }
    assert(body.take(i - 2) =~= body);
    true
}


/// Processes are ranked by all the bytes they moved: in any ranking that
/// `get_processes` and `get_top_network_processes` follow, a process
/// comes before another only if its bytes sent plus bytes received are
/// at least the other's, and processes with equal totals keep their
/// order.
pub proof fn law_processes_ranked_by_total_bytes(s: Seq<ProcessNetworkInfo>, q: Seq<usize>)
    requires
        ordering_of(byte_keys(s), q),
    ensures
        q.len() == s.len(),
        forall|i: int, j: int|
            0 <= i < j < q.len() ==> s[#[trigger] q[i] as int].bytes_sent + s[q[i] as int].bytes_received
                >= s[#[trigger] q[j] as int].bytes_sent + s[q[j] as int].bytes_received,
        forall|i: int, j: int|
            0 <= i < j < q.len() && s[#[trigger] q[i] as int].bytes_sent + s[q[i] as int].bytes_received
                == s[#[trigger] q[j] as int].bytes_sent + s[q[j] as int].bytes_received ==> q[i] < q[j],
{
    assert forall|i: int, j: int| 0 <= i < j < q.len() implies s[#[trigger] q[i] as int].bytes_sent
        + s[q[i] as int].bytes_received >= s[#[trigger] q[j] as int].bytes_sent
        + s[q[j] as int].bytes_received by {
        assert(byte_keys(s)[q[i] as int] >= byte_keys(s)[q[j] as int]);
    }
    assert forall|i: int, j: int|
        0 <= i < j < q.len() && s[#[trigger] q[i] as int].bytes_sent + s[q[i] as int].bytes_received
            == s[#[trigger] q[j] as int].bytes_sent + s[q[j] as int].bytes_received implies q[i]
        < q[j] by {
        assert(byte_keys(s)[q[i] as int] == byte_keys(s)[q[j] as int]);
    }
}

} // verus!
