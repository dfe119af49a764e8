//! Connection intelligence: internal address ranges, service
//! identification, suspicious ports, sequential port runs and the
//! duration strings that `ss` prints.
use vstd::prelude::*;

use crate::text::{
    char_is_digit, chars_eq, chars_of, is_digit, parse_u64, parse_u64_exec, string_of, unicode_uppercase,
    str_to_uppercase,
};

verus! {

/// An IP address, as the number its octets spell in network order
/// (`u32::from(Ipv4Addr)`, `u128::from(Ipv6Addr)`).
#[derive(Clone, Copy, Debug, PartialEq, Eq, Structural, Hash)]
pub enum IpAddr {
    V4(u32),
    V6(u128),
}

/// The four octets `a.b.c.d` as one big-endian number.
pub open spec fn v4_value(a: u8, b: u8, c: u8, d: u8) -> int {
    a * 0x100_0000 + b * 0x1_0000 + c * 0x100 + d
}

impl IpAddr {
    /// The IPv4 address `a.b.c.d`.
    pub fn v4(a: u8, b: u8, c: u8, d: u8) -> (r: IpAddr)
        ensures
            r == IpAddr::V4(v4_value(a, b, c, d) as u32),
    {
        IpAddr::V4((a as u32) * 0x100_0000 + (b as u32) * 0x1_0000 + (c as u32) * 0x100 + (d as u32))
    }
}

/// `a` and `b` agree on their first `p` bits (of 32).
pub open spec fn v4_prefix_eq(a: u32, b: u32, p: nat) -> bool {
    p == 0 || (a >> ((32 - p) as u32)) == (b >> ((32 - p) as u32))
}

/// `a` and `b` agree on their first `p` bits (of 128); past 128 bits the
/// whole addresses are compared.
pub open spec fn v6_prefix_eq(a: u128, b: u128, p: nat) -> bool {
    if p == 0 {
        true
    } else if p >= 128 {
        a == b
    } else {
        (a >> ((128 - p) as u128)) == (b >> ((128 - p) as u128))
    }
}

/// Whether `ip` lies in the network `net`/`prefix_len`; addresses of
/// different families never match.
pub open spec fn in_cidr(ip: IpAddr, net: IpAddr, prefix_len: u8) -> bool {
    match (ip, net) {
        (IpAddr::V4(a), IpAddr::V4(b)) => v4_prefix_eq(a, b, prefix_len as nat),
        (IpAddr::V6(a), IpAddr::V6(b)) => v6_prefix_eq(a, b, prefix_len as nat),
        _ => false,
    }
}

/// Whether `ip` lies in the network `net`/`prefix_len` (see `in_cidr`).
/// An IPv4 prefix beyond 32 bits, or an IPv6 one of 136 bits or more, is
/// refused (the masks cannot be built).
pub fn ip_in_cidr(ip: &IpAddr, network: &IpAddr, prefix_len: u8) -> (r: bool)
    requires
        ip is V4 && network is V4 ==> prefix_len <= 32,
        ip is V6 && network is V6 ==> prefix_len < 136,
    ensures
        r == in_cidr(*ip, *network, prefix_len),
{
    match (ip, network) {
        (IpAddr::V4(x), IpAddr::V4(y)) => {
            let x = *x;
            let y = *y;
            if prefix_len == 0 {
                return true;
            }
            let s: u32 = (32 - prefix_len) as u32;
            assert((1u32 << s) >= 1) by (bit_vector)
                requires
                    s < 32,
            ;
            let mask: u32 = !((1u32 << s) - 1);
            let r = (x & mask) == (y & mask);
            proof {
                assert(r == ((x >> s) == (y >> s))) by (bit_vector)
                    requires
                        s < 32,
                        mask == !(((1u32 << s) - 1) as u32),
                        r == ((x & mask) == (y & mask)),
                ;
            }
            r
        },
        (IpAddr::V6(x), IpAddr::V6(y)) => {
            if prefix_len == 0 {
                true
            } else if prefix_len >= 128 {
                *x == *y
            } else {
                let s: u128 = (128 - prefix_len) as u128;
                (*x >> s) == (*y >> s)
            }
        },
        _ => false,
    }
}

/// The private, loopback and unique-local networks.
pub open spec fn internal_networks() -> Seq<(IpAddr, u8)> {
    seq![
        (IpAddr::V4(0x0a00_0000), 8u8),
        (IpAddr::V4(0xac10_0000), 12u8),
        (IpAddr::V4(0xc0a8_0000), 16u8),
        (IpAddr::V4(0x7f00_0000), 8u8),
        (IpAddr::V6(0xfc00_0000_0000_0000_0000_0000_0000_0000), 7u8),
    ]
}

/// Whether `ip` lies in one of the internal networks.
pub open spec fn is_internal(ip: IpAddr) -> bool {
    exists|i: int|
        0 <= i < internal_networks().len() && in_cidr(
            ip,
            #[trigger] internal_networks()[i].0,
            internal_networks()[i].1,
        )
}

/// The internal networks: 10/8, 172.16/12, 192.168/16, 127/8 and fc00::/7.
pub fn initialize_internal_networks() -> (r: Vec<(IpAddr, u8)>)
    ensures
        r@ == internal_networks(),
{
    let r = vec![
        (IpAddr::V4(0x0a00_0000), 8u8),
        (IpAddr::V4(0xac10_0000), 12u8),
        (IpAddr::V4(0xc0a8_0000), 16u8),
        (IpAddr::V4(0x7f00_0000), 8u8),
        (IpAddr::V6(0xfc00_0000_0000_0000_0000_0000_0000_0000), 7u8),
    ];
    assert(r@ =~= internal_networks());
    r
}

/// The internal addresses are exactly those of 10.0.0.0/8,
/// 172.16.0.0/12, 192.168.0.0/16, 127.0.0.0/8 and fc00::/7: an IPv4
/// address whose first octet is 10 or 127, whose first 12 bits are those
/// of 172.16 (172.16 to 172.31), or whose first two octets are 192.168;
/// an IPv6 address whose first 7 bits are 1111110.
pub proof fn law_internal_addresses(ip: IpAddr)
    ensures
        is_internal(ip) <==> match ip {
            IpAddr::V4(a) => a / 0x100_0000 == 10 || a / 0x10_0000 == 0xac1 || a / 0x1_0000 == 0xc0a8
                || a / 0x100_0000 == 127,
            IpAddr::V6(x) => x / 0x200_0000_0000_0000_0000_0000_0000_0000 == 0x7e,
        },
{
    let n = internal_networks();
    match ip {
        IpAddr::V4(a) => {
            assert((a >> 24u32) == a / 0x100_0000) by (bit_vector);
            assert((a >> 20u32) == a / 0x10_0000) by (bit_vector);
            assert((a >> 16u32) == a / 0x1_0000) by (bit_vector);
            assert((0x0a00_0000u32 >> 24u32) == 10) by (bit_vector);
            assert((0xac10_0000u32 >> 20u32) == 0xac1) by (bit_vector);
            assert((0xc0a8_0000u32 >> 16u32) == 0xc0a8) by (bit_vector);
            assert((0x7f00_0000u32 >> 24u32) == 127) by (bit_vector);
            assert(in_cidr(ip, n[0].0, n[0].1) <==> a / 0x100_0000 == 10);
            assert(in_cidr(ip, n[1].0, n[1].1) <==> a / 0x10_0000 == 0xac1);
            assert(in_cidr(ip, n[2].0, n[2].1) <==> a / 0x1_0000 == 0xc0a8);
            assert(in_cidr(ip, n[3].0, n[3].1) <==> a / 0x100_0000 == 127);
            assert(!in_cidr(ip, n[4].0, n[4].1));
        },
        IpAddr::V6(x) => {
            assert((x >> 121u128) == x / 0x200_0000_0000_0000_0000_0000_0000_0000) by (bit_vector);
            assert((0xfc00_0000_0000_0000_0000_0000_0000_0000u128 >> 121u128) == 0x7e) by (bit_vector);
            assert(!in_cidr(ip, n[0].0, n[0].1));
            assert(!in_cidr(ip, n[1].0, n[1].1));
            assert(!in_cidr(ip, n[2].0, n[2].1));
            assert(!in_cidr(ip, n[3].0, n[3].1));
            assert(in_cidr(ip, n[4].0, n[4].1) <==> x / 0x200_0000_0000_0000_0000_0000_0000_0000 == 0x7e);
        },
    }
    if is_internal(ip) {
        let i = choose|i: int|
            0 <= i < n.len() && in_cidr(ip, #[trigger] internal_networks()[i].0, internal_networks()[i].1);
        assert(0 <= i < 5);
    }
}

/// The first, second, third and fourth octets of an IPv4 address.
pub open spec fn octets(n: u32) -> (int, int, int, int) {
    let v = n as int;
    (v / 0x100_0000, (v / 0x1_0000) % 0x100, (v / 0x100) % 0x100, v % 0x100)
}

/// A rough hint of where an address belongs: loopback, private ranges,
/// a few well-known services, else a region by the first octet.
pub open spec fn geographic_hint(ip: IpAddr) -> Seq<char> {
    match ip {
        IpAddr::V4(n) => {
            let (a, b, c, d) = octets(n);
            if a == 127 {
                "🏠 localhost"@
            } else if (a == 192 && b == 168) || a == 10 || (a == 172 && 16 <= b <= 31) {
                "🏢 private"@
            } else if a == 8 && b == 8 && ((c == 8 && d == 8) || (c == 4 && d == 4)) {
                "🌐 Google DNS"@
            } else if a == 1 && ((b == 1 && c == 1 && d == 1) || (b == 0 && c == 0 && d == 1)) {
                "🛡️ Cloudflare"@
            } else if a == 142 && b == 250 {
                "🔍 Google"@
            } else if a == 157 && b == 240 {
                "📘 Facebook"@
            } else if a == 13 && b == 107 {
                "☁️ AWS"@
            } else if a == 40 || a == 20 {
                "🔷 Microsoft"@
            } else if 1 <= a <= 126 {
                "🌍 global"@
            } else if 128 <= a <= 191 {
                "🌎 americas"@
            } else if 192 <= a <= 223 {
                "🌏 asia-pac"@
            } else {
                "🌐 other"@
            }
        },
        IpAddr::V6(_) => "🌐 IPv6"@,
    }
}

/// The hint of where `ip` belongs (see `geographic_hint`).
pub fn get_geographic_hint(ip: &IpAddr) -> (r: String)
    ensures
        r@ == geographic_hint(*ip),
{
    match ip {
        IpAddr::V4(n) => {
            let a: u32 = *n / 0x100_0000;
            let b: u32 = (*n / 0x1_0000) % 0x100;
            let c: u32 = (*n / 0x100) % 0x100;
            let d: u32 = *n % 0x100;
            let hint = if a == 127 {
                "🏠 localhost"
            } else if (a == 192 && b == 168) || a == 10 || (a == 172 && 16 <= b && b <= 31) {
                "🏢 private"
            } else if a == 8 && b == 8 && ((c == 8 && d == 8) || (c == 4 && d == 4)) {
                "🌐 Google DNS"
            } else if a == 1 && ((b == 1 && c == 1 && d == 1) || (b == 0 && c == 0 && d == 1)) {
                "🛡️ Cloudflare"
            } else if a == 142 && b == 250 {
                "🔍 Google"
            } else if a == 157 && b == 240 {
                "📘 Facebook"
            } else if a == 13 && b == 107 {
                "☁️ AWS"
            } else if a == 40 || a == 20 {
                "🔷 Microsoft"
            } else if 1 <= a && a <= 126 {
                "🌍 global"
            } else if 128 <= a && a <= 191 {
                "🌎 americas"
            } else if 192 <= a && a <= 223 {
                "🌏 asia-pac"
            } else {
                "🌐 other"
            };
            string_of(hint)
        },
        IpAddr::V6(_) => string_of("🌐 IPv6"),
    }
}

/// Whether `ip` is a private, loopback or unique-local address.
pub fn is_internal_ip(ip: &IpAddr) -> (r: bool)
    ensures
        r == is_internal(*ip),
{
    let nets = initialize_internal_networks();
    let mut i: usize = 0;
    while i < nets.len()
        invariant
            nets@ == internal_networks(),
            i <= nets@.len(),
            forall|j: int| 0 <= j < i ==> !in_cidr(*ip, #[trigger] nets@[j].0, nets@[j].1),
        decreases nets@.len() - i,
    {
        if ip_in_cidr(ip, &nets[i].0, nets[i].1) {
            return true;
        }
        i = i + 1;
    }
    false
}

// ---------------------------------------------------------------------
// Services and ports
// ---------------------------------------------------------------------

/// Names of well-known services, and of ports known from malware.
pub open spec fn known_service(port: u16) -> Option<Seq<char>> {
    if port == 22 {
        Some("SSH"@)
    } else if port == 23 {
        Some("Telnet"@)
    } else if port == 25 {
        Some("SMTP"@)
    } else if port == 53 {
        Some("DNS"@)
    } else if port == 80 {
        Some("HTTP"@)
    } else if port == 110 {
        Some("POP3"@)
    } else if port == 143 {
        Some("IMAP"@)
    } else if port == 443 {
        Some("HTTPS"@)
    } else if port == 993 {
        Some("IMAPS"@)
    } else if port == 995 {
        Some("POP3S"@)
    } else if port == 3389 {
        Some("RDP"@)
    } else if port == 5432 {
        Some("PostgreSQL"@)
    } else if port == 3306 {
        Some("MySQL"@)
    } else if port == 27017 {
        Some("MongoDB"@)
    } else if port == 6379 {
        Some("Redis"@)
    } else if port == 9200 {
        Some("Elasticsearch"@)
    } else if port == 8080 {
        Some("HTTP-Alt"@)
    } else if port == 8443 {
        Some("HTTPS-Alt"@)
    } else if port == 1337 {
        Some("Elite/Leet (Suspicious)"@)
    } else if port == 31337 {
        Some("Back Orifice (Malware)"@)
    } else if port == 12345 {
        Some("NetBus (Malware)"@)
    } else if port == 54321 {
        Some("Back Orifice 2000 (Malware)"@)
    } else {
        None
    }
}

/// The service name of a port: a known one, else its range's name.
pub open spec fn service_name(port: u16) -> Seq<char> {
    match known_service(port) {
        Some(n) => n,
        None => if port < 1024 {
            "System Service"@
        } else if port < 49152 {
            "Registered Service"@
        } else {
            "Dynamic/Ephemeral"@
        },
    }
}

/// The name of a well-known service on `port`, if any.
pub fn known_service_name(port: u16) -> (r: Option<&'static str>)
    ensures
        match r {
            Some(n) => known_service(port) == Some(n@),
            None => known_service(port) is None,
        },
{
    match port {
        22 => Some("SSH"),
        23 => Some("Telnet"),
        25 => Some("SMTP"),
        53 => Some("DNS"),
        80 => Some("HTTP"),
        110 => Some("POP3"),
        143 => Some("IMAP"),
        443 => Some("HTTPS"),
        993 => Some("IMAPS"),
        995 => Some("POP3S"),
        3389 => Some("RDP"),
        5432 => Some("PostgreSQL"),
        3306 => Some("MySQL"),
        27017 => Some("MongoDB"),
        6379 => Some("Redis"),
        9200 => Some("Elasticsearch"),
        8080 => Some("HTTP-Alt"),
        8443 => Some("HTTPS-Alt"),
        1337 => Some("Elite/Leet (Suspicious)"),
        31337 => Some("Back Orifice (Malware)"),
        12345 => Some("NetBus (Malware)"),
        54321 => Some("Back Orifice 2000 (Malware)"),
        _ => None,
    }
}

/// The protocol (upper-cased) and service of a connection: the service of
/// the local port when it is a system port (below 1024), else of the
/// remote port.
pub fn identify_service(local_port: u16, remote_port: u16, protocol: &str) -> (r: (String, String))
    ensures
        r.0@ == unicode_uppercase(protocol@),
        r.1@ == service_name(
            if local_port < 1024 {
                local_port
            } else {
                remote_port
            },
        ),
{
    let port = if local_port < 1024 {
        local_port
    } else {
        remote_port
    };
    let service = match known_service_name(port) {
        Some(n) => string_of(n),
        None => if port < 1024 {
            string_of("System Service")
        } else if port < 49152 {
            string_of("Registered Service")
        } else {
            string_of("Dynamic/Ephemeral")
        },
    };
    (str_to_uppercase(protocol), service)
}

/// Ports known from malware and IRC botnets.
pub open spec fn suspicious_port(port: u16) -> bool {
    port == 1337 || port == 31337 || port == 12345 || port == 54321 || port == 6667 || port == 6668
        || port == 6669
}

pub fn is_suspicious_port(port: u16) -> (r: bool)
    ensures
        r == suspicious_port(port),
{
    port == 1337 || port == 31337 || port == 12345 || port == 54321 || port == 6667 || port == 6668
        || port == 6669
}

/// Length of the run of ports each one above the previous that ends at
/// index `i`.
pub open spec fn run_ending_at(ports: Seq<u16>, i: int) -> nat
    decreases i,
{
    if i <= 0 {
        1
    } else if ports[i] == ports[i - 1] + 1 {
        run_ending_at(ports, i - 1) + 1
    } else {
        1
    }
}

/// Length of the longest such run among the first `n` ports.
pub open spec fn longest_run(ports: Seq<u16>, n: int) -> nat
    decreases n,
{
    if n <= 0 {
        0
    } else {
        let a = longest_run(ports, n - 1);
        let b = run_ending_at(ports, n - 1);
        if a >= b {
            a
        } else {
            b
        }
    }
}

pub proof fn lemma_run_bounds(ports: Seq<u16>, i: int)
    requires
        0 <= i,
    ensures
        1 <= run_ending_at(ports, i) <= i + 1,
    decreases i,
{
    if i > 0 {
        lemma_run_bounds(ports, i - 1);
    }
}

pub proof fn lemma_longest_bounds(ports: Seq<u16>, n: int)
    requires
        0 <= n,
    ensures
        longest_run(ports, n) <= n,
    decreases n,
{
    if n > 0 {
        lemma_longest_bounds(ports, n - 1);
        lemma_run_bounds(ports, n - 1);
    }
}

/// The length of the longest run of consecutive port numbers (each one
/// above the previous) in `ports`; 0 for fewer than two ports.
pub fn count_sequential_ports(ports: &[u16]) -> (r: usize)
    requires
        forall|i: int| 0 <= i < ports@.len() - 1 ==> #[trigger] ports@[i] < u16::MAX,
    ensures
        r == if ports@.len() < 2 {
            0
        } else {
            longest_run(ports@, ports@.len() as int)
        },
{
    if ports.len() < 2 {
        return 0;
    }
    let mut best: usize = 0;
    let mut current: usize = 1;
    let mut i: usize = 1;
    proof {
        reveal_with_fuel(longest_run, 2);
    }
    while i < ports.len()
        invariant
            1 <= i <= ports@.len(),
            forall|k: int| 0 <= k < ports@.len() - 1 ==> #[trigger] ports@[k] < u16::MAX,
            current == run_ending_at(ports@, i - 1),
            (if best >= current {
                best
            } else {
                current
            }) == longest_run(ports@, i as int),
            best <= i,
            current <= i,
        decreases ports@.len() - i,
    {
        assert(ports@[i - 1] < u16::MAX);
        if ports[i] == ports[i - 1] + 1 {
            current = current + 1;
        } else {
            if current > best {
                best = current;
            }
            current = 1;
        }
        i = i + 1;
    }
    if current > best {
        current
    } else {
        best
    }
}

// ---------------------------------------------------------------------
// Duration strings such as "1h30m" or "45s"
// ---------------------------------------------------------------------

/// Seconds that a number followed by unit `c` stands for (`h`, `m`, `s`;
/// 0 for other characters and for a digit string that is not a number).
pub open spec fn unit_seconds(digits: Seq<char>, c: char) -> int {
    match parse_u64(digits) {
        Some(n) => if c == 'h' {
            n * 3600
        } else if c == 'm' {
            n * 60
        } else if c == 's' {
            n as int
        } else {
            0
        },
        None => 0,
    }
}

/// Reading a duration string: the seconds counted so far and the digits
/// not yet followed by a unit.
pub open spec fn duration_scan(s: Seq<char>) -> (int, Seq<char>)
    decreases s.len(),
{
    if s.len() == 0 {
        (0, Seq::empty())
    } else {
        let (t, d) = duration_scan(s.drop_last());
        let c = s.last();
        if is_digit(c) {
            (t, d.push(c))
        } else {
            (t + unit_seconds(d, c), Seq::empty())
        }
    }
}

/// The seconds of a duration string, `None` when it comes to zero.
pub open spec fn duration_secs(s: Seq<char>) -> Option<u64> {
    let t = duration_scan(s).0;
    if t > 0 {
        Some(t as u64)
    } else {
        None
    }
}

pub proof fn lemma_unit_nonneg(d: Seq<char>, c: char)
    ensures
        unit_seconds(d, c) >= 0,
{
    if parse_u64(d) is Some {
        let n = parse_u64(d)->0;
        assert(n * 3600 >= 0 && n * 60 >= 0) by (nonlinear_arith)
            requires
                n >= 0,
        ;
    }
}

pub proof fn lemma_scan_nonneg(s: Seq<char>)
    ensures
        duration_scan(s).0 >= 0,
    decreases s.len(),
{
    if s.len() > 0 {
        lemma_scan_nonneg(s.drop_last());
        lemma_unit_nonneg(duration_scan(s.drop_last()).1, s.last());
    }
}

pub proof fn lemma_scan_monotone(s: Seq<char>, i: int)
    requires
        0 <= i <= s.len(),
    ensures
        0 <= duration_scan(s.take(i)).0 <= duration_scan(s).0,
    decreases s.len() - i,
{
    lemma_scan_nonneg(s.take(i));
    if i < s.len() {
        lemma_scan_monotone(s, i + 1);
        let p = s.take(i + 1);
        assert(p.drop_last() =~= s.take(i));
        lemma_unit_nonneg(duration_scan(s.take(i)).1, p.last());
    } else {
        assert(s.take(i) =~= s);
    }
}

/// The seconds of a duration string such as `"1h30m"`: each number
/// followed by `h`, `m` or `s` counts hours, minutes or seconds; other
/// characters end a number without counting it. `None` when nothing
/// counted.
pub fn parse_duration(duration_str: &str) -> (r: Option<u64>)
    requires
        duration_scan(duration_str@).0 <= u64::MAX,
    ensures
        r == duration_secs(duration_str@),
{
    let s = chars_of(duration_str);
    let mut total: u64 = 0;
    let mut digits: Vec<char> = Vec::new();
    let mut i: usize = 0;
    assert(s@.take(0) =~= Seq::<char>::empty());
    while i < s.len()
        invariant
            i <= s@.len(),
            s@ == duration_str@,
            duration_scan(s@).0 <= u64::MAX,
            (total as int, digits@) == duration_scan(s@.take(i as int)),
        decreases s@.len() - i,
    {
        let c = s[i];
        proof {
            assert(s@.take(i + 1).drop_last() =~= s@.take(i as int));
            assert(s@.take(i + 1).last() == c);
            lemma_scan_monotone(s@, i + 1);
        }
        if char_is_digit(c) {
            digits.push(c);
        } else {
            let ghost d = digits@;
            match parse_u64_exec(digits.as_slice()) {
                Some(n) => {
                    assert(total + unit_seconds(d, c) <= u64::MAX);
                    if c == 'h' {
                        assert(n * 3600 <= u64::MAX);
                        total = total + n * 3600;
                    } else if c == 'm' {
                        assert(n * 60 <= u64::MAX);
                        total = total + n * 60;
                    } else if c == 's' {
                        total = total + n;
                    }
                },
                None => {},
            }
            digits = Vec::new();
        }
        i = i + 1;
    }
    assert(s@.take(i as int) =~= s@);
    if total > 0 {
        Some(total)
    } else {
        None
    }
}

// ---------------------------------------------------------------------
// Geographic information
// ---------------------------------------------------------------------

#[derive(Clone, Copy, Debug, PartialEq, Eq, Structural)]
pub enum ThreatLevel {
    Clean,
    Suspicious,
    Malicious,
    Critical,
}

/// What is known of where an address is.
#[derive(Debug, Clone)]
pub struct GeoIpInfo {
    pub country: String,
    pub country_code: String,
    pub city: String,
    pub region: String,
    pub is_internal: bool,
    pub is_suspicious: bool,
    pub threat_level: ThreatLevel,
    pub organization: String,
    pub asn: u32,
}

impl GeoIpInfo {
    /// The record of an address in an internal network.
    pub fn internal() -> (g: GeoIpInfo)
        ensures
            g.country@ == "Internal"@,
            g.country_code@ == "INT"@,
            g.city@ == "Local Network"@,
            g.region@ == "Private"@,
            g.is_internal && !g.is_suspicious,
            g.threat_level == ThreatLevel::Clean,
            g.organization@ == "Internal Network"@,
            g.asn == 0,
    {
        GeoIpInfo {
            country: string_of("Internal"),
            country_code: string_of("INT"),
            city: string_of("Local Network"),
            region: string_of("Private"),
            is_internal: true,
            is_suspicious: false,
            threat_level: ThreatLevel::Clean,
            organization: string_of("Internal Network"),
            asn: 0,
        }
    }

    /// The record of an external address of unknown location; a suspicious
    /// address is rated malicious.
    pub fn unknown(is_suspicious: bool) -> (g: GeoIpInfo)
        ensures
            g.country@ == "Unknown"@,
            g.country_code@ == "UN"@,
            g.city@ == "Unknown"@,
            g.region@ == "Unknown"@,
            !g.is_internal,
            g.is_suspicious == is_suspicious,
            g.threat_level == if is_suspicious {
                ThreatLevel::Malicious
            } else {
                ThreatLevel::Clean
            },
            g.organization@ == "Unknown"@,
            g.asn == 0,
    {
        GeoIpInfo {
            country: string_of("Unknown"),
            country_code: string_of("UN"),
            city: string_of("Unknown"),
            region: string_of("Unknown"),
            is_internal: false,
            is_suspicious,
            threat_level: if is_suspicious {
                ThreatLevel::Malicious
            } else {
                ThreatLevel::Clean
            },
            organization: string_of("Unknown"),
            asn: 0,
        }
    }

    /// Whether a connection to this location is a geographic anomaly.
    pub fn is_anomalous(&self) -> (r: bool)
        ensures
            r == (self.is_suspicious || self.threat_level != ThreatLevel::Clean),
    {
        self.is_suspicious || self.threat_level != ThreatLevel::Clean
    }
}

/// The geographic record of `ip`: internal, or unknown and rated by
/// whether the address is listed as suspicious.
pub fn geo_info_for(ip: &IpAddr, suspicious: &Vec<IpAddr>) -> (g: GeoIpInfo)
    ensures
        g.is_internal == is_internal(*ip),
        !is_internal(*ip) ==> g.is_suspicious == suspicious@.contains(*ip),
        g.threat_level == if !is_internal(*ip) && suspicious@.contains(*ip) {
            ThreatLevel::Malicious
        } else {
            ThreatLevel::Clean
        },
{
    if is_internal_ip(ip) {
        return GeoIpInfo::internal();
    }
    let mut found = false;
    let mut i: usize = 0;
    while i < suspicious.len()
        invariant
            i <= suspicious@.len(),
            found == exists|j: int| 0 <= j < i && suspicious@[j] == *ip,
        decreases suspicious@.len() - i,
    {
        if suspicious[i] == *ip {
            found = true;
        }
        i = i + 1;
    }
    GeoIpInfo::unknown(found)
}

} // verus!

verus! {

// ---------------------------------------------------------------------
// Threat indicators and connection summaries
// ---------------------------------------------------------------------

/// A sign that a connection may be hostile. Time windows and durations
/// are in seconds.
#[derive(Debug, Clone)]
pub enum ThreatIndicator {
    PortScanAttempt { ports_scanned: u16, time_window: u64 },
    UnusualTrafficVolume { bytes_per_second: u64, baseline: u64 },
    SuspiciousPort { port: u16, reason: String },
    GeoAnomalyConnection { country: String, reason: String },
    RapidConnections { count: u32, time_window: u64 },
    LongLivedConnection { duration: u64 },
    HighBandwidthUsage { bandwidth: u64, threshold: u64 },
}

/// The kind of a detected anomaly.
#[derive(Debug, Clone, Copy, PartialEq, Eq, Structural)]
pub enum AnomalyType {
    PortScan,
    TrafficSpike,
    UnusualGeoLocation,
    SuspiciousProtocol,
    BandwidthAnomaly,
    ConnectionFlood,
    DnsAnomaly,
    TunnelDetection,
}

/// How serious an anomaly is.
#[derive(Debug, Clone, Copy, PartialEq, Eq, Structural)]
pub enum Severity {
    Info,
    Low,
    Medium,
    High,
    Critical,
}

/// Above this many bytes per second a connection uses a high bandwidth.
pub const HIGH_BANDWIDTH: u64 = 10_000_000;

/// The bytes-per-second figure a connection is rated by: the bytes sent
/// plus the bytes received per second of its duration (0 for a duration
/// under a second).
pub open spec fn rated_bandwidth(sent: u64, received: u64, secs: u64) -> int {
    if secs > 0 {
        sent + received / secs
    } else {
        0
    }
}

/// An indicator as plain values: its kind (in declaration order), its
/// first and second figures (ports, rate, port, count, duration or
/// bandwidth; then the time window, baseline or threshold, 0 where there
/// is none), its reason and its country.
pub open spec fn indicator_view(t: ThreatIndicator) -> (nat, int, int, Seq<char>, Seq<char>) {
    match t {
        ThreatIndicator::PortScanAttempt { ports_scanned, time_window } => (
            0,
            ports_scanned as int,
            time_window as int,
            Seq::empty(),
            Seq::empty(),
        ),
        ThreatIndicator::UnusualTrafficVolume { bytes_per_second, baseline } => (
            1,
            bytes_per_second as int,
            baseline as int,
            Seq::empty(),
            Seq::empty(),
        ),
        ThreatIndicator::SuspiciousPort { port, reason } => (
            2,
            port as int,
            0,
            reason@,
            Seq::empty(),
        ),
        ThreatIndicator::GeoAnomalyConnection { country, reason } => (3, 0, 0, reason@, country@),
        ThreatIndicator::RapidConnections { count, time_window } => (
            4,
            count as int,
            time_window as int,
            Seq::empty(),
            Seq::empty(),
        ),
        ThreatIndicator::LongLivedConnection { duration } => (
            5,
            duration as int,
            0,
            Seq::empty(),
            Seq::empty(),
        ),
        ThreatIndicator::HighBandwidthUsage { bandwidth, threshold } => (
            6,
            bandwidth as int,
            threshold as int,
            Seq::empty(),
            Seq::empty(),
        ),
    }
}

/// The indicators a connection raises, in order: a port scan detected
/// from its remote address (`scan`: ports seen and over how many
/// seconds), a suspicious remote port, a bandwidth over `HIGH_BANDWIDTH`,
/// and a geographic anomaly of its remote location.
pub open spec fn indicators_of(
    remote_port: u16,
    sent: u64,
    received: u64,
    secs: u64,
    geo: Option<GeoIpInfo>,
    scan: Option<(u16, u64)>,
) -> Seq<(nat, int, int, Seq<char>, Seq<char>)> {
    let a: Seq<(nat, int, int, Seq<char>, Seq<char>)> = match scan {
        Some(s) => seq![(0nat, s.0 as int, s.1 as int, Seq::<char>::empty(), Seq::<char>::empty())],
        None => Seq::empty(),
    };
    let b = if suspicious_port(remote_port) {
        a.push(
            (2nat, remote_port as int, 0int, "Known malicious or uncommon port"@, Seq::<char>::empty()),
        )
    } else {
        a
    };
    let bw = rated_bandwidth(sent, received, secs);
    let c = if bw > HIGH_BANDWIDTH {
        b.push((6nat, bw, HIGH_BANDWIDTH as int, Seq::<char>::empty(), Seq::<char>::empty()))
    } else {
        b
    };
    match geo {
        Some(g) => if g.is_suspicious || g.threat_level != ThreatLevel::Clean {
            c.push((3nat, 0int, 0int, "Connection from suspicious geographic location"@, g.country@))
        } else {
            c
        },
        None => c,
    }
}

/// The threat indicators of a connection to `remote_port` that sent and
/// received the given bytes over `secs` seconds, with the location of its
/// remote address and the port scan detected from it, if any (see
/// `indicators_of`).
pub fn connection_indicators(
    remote_port: u16,
    bytes_sent: u64,
    bytes_received: u64,
    secs: u64,
    geo: &Option<GeoIpInfo>,
    scan: Option<(u16, u64)>,
) -> (r: Vec<ThreatIndicator>)
    requires
        rated_bandwidth(bytes_sent, bytes_received, secs) <= u64::MAX,
    ensures
        r@.map_values(|t: ThreatIndicator| indicator_view(t)) == indicators_of(
            remote_port,
            bytes_sent,
            bytes_received,
            secs,
            *geo,
            scan,
        ),
{
    let mut r: Vec<ThreatIndicator> = Vec::new();
    match scan {
        Some((n, window)) => {
            r.push(ThreatIndicator::PortScanAttempt { ports_scanned: n, time_window: window });
        },
        None => {},
    }
    if is_suspicious_port(remote_port) {
        r.push(
            ThreatIndicator::SuspiciousPort {
                port: remote_port,
                reason: string_of("Known malicious or uncommon port"),
            },
        );
    }
    let bytes_per_second: u64 = if secs > 0 {
        bytes_sent + bytes_received / secs
    } else {
        0
    };
    if bytes_per_second > HIGH_BANDWIDTH {
        r.push(
            ThreatIndicator::HighBandwidthUsage {
                bandwidth: bytes_per_second,
                threshold: HIGH_BANDWIDTH,
            },
        );
    }
    match geo {
        Some(g) => {
            if g.is_anomalous() {
                r.push(
                    ThreatIndicator::GeoAnomalyConnection {
                        country: g.country.clone(),
                        reason: string_of("Connection from suspicious geographic location"),
                    },
                );
            }
        },
        None => {},
    }
    assert(r@.map_values(|t: ThreatIndicator| indicator_view(t)) =~= indicators_of(
        remote_port,
        bytes_sent,
        bytes_received,
        secs,
        *geo,
        scan,
    ));
    r
}

/// What is learnt of one connection.
#[derive(Debug, Clone)]
pub struct ConnectionIntelligence {
    pub remote_ip: IpAddr,
    pub local_port: u16,
    pub remote_port: u16,
    pub protocol: String,
    pub service_name: String,
    pub geo_info: Option<GeoIpInfo>,
    /// Seconds.
    pub connection_duration: u64,
    pub bytes_transferred: u64,
    pub packet_count: u64,
    /// Seconds since the Unix epoch.
    pub first_seen: u64,
    /// Seconds since the Unix epoch.
    pub last_activity: u64,
    pub is_outbound: bool,
    pub threat_indicators: Vec<ThreatIndicator>,
}

/// Counts over the connections seen.
#[derive(Debug, Clone, Copy, PartialEq, Eq)]
pub struct ConnectionStats {
    pub total_connections: usize,
    pub external_connections: usize,
    pub suspicious_connections: usize,
    pub unique_countries: usize,
    pub active_port_scans: usize,
}

/// A connection whose remote location is known and not internal.
pub open spec fn is_external(c: ConnectionIntelligence) -> bool {
    c.geo_info matches Some(g) && !g.is_internal
}

/// The external connections, the connections that raised an indicator,
/// and the distinct countries of the external ones (in order of first
/// appearance) among `s`.
pub open spec fn history_counts(s: Seq<ConnectionIntelligence>) -> (nat, nat, Seq<Seq<char>>)
    decreases s.len(),
{
    if s.len() == 0 {
        (0, 0, Seq::empty())
    } else {
        let r = history_counts(s.drop_last());
        let c = s.last();
        let ext: nat = if is_external(c) { 1 } else { 0 };
        let sus: nat = if c.threat_indicators@.len() > 0 { 1 } else { 0 };
        let countries = match c.geo_info {
            Some(g) => if !g.is_internal && !r.2.contains(g.country@) {
                r.2.push(g.country@)
            } else {
                r.2
            },
            None => r.2,
        };
        (r.0 + ext, r.1 + sus, countries)
    }
}

proof fn lemma_history_counts_bounded(s: Seq<ConnectionIntelligence>)
    ensures
        history_counts(s).0 <= s.len(),
        history_counts(s).1 <= s.len(),
        history_counts(s).2.len() <= s.len(),
    decreases s.len(),
{
    if s.len() > 0 {
        lemma_history_counts_bounded(s.drop_last());
    }
}

/// The counts over the connections `history` with `port_scans` scans under
/// watch: all connections, the external ones, those that raised an
/// indicator, and the distinct countries of the external ones.
pub fn get_connection_stats(history: &[ConnectionIntelligence], port_scans: usize) -> (st: ConnectionStats)
    ensures
        st.total_connections == history@.len(),
        st.external_connections == history_counts(history@).0,
        st.suspicious_connections == history_counts(history@).1,
        st.unique_countries == history_counts(history@).2.len(),
        st.active_port_scans == port_scans,
{
    let mut external: usize = 0;
    let mut suspicious: usize = 0;
    let mut countries: Vec<Vec<char>> = Vec::new();
    let mut i: usize = 0;
    assert(history@.take(0) =~= Seq::<ConnectionIntelligence>::empty());
    while i < history.len()
        invariant
            i <= history@.len(),
            external == history_counts(history@.take(i as int)).0,
            suspicious == history_counts(history@.take(i as int)).1,
            countries@.len() == history_counts(history@.take(i as int)).2.len(),
            forall|k: int| 0 <= k < countries@.len() ==> #[trigger] countries@[k]@ == history_counts(history@.take(i as int)).2[k],
        decreases history@.len() - i,
    {
        let ghost prev = history_counts(history@.take(i as int));
        proof {
            assert(history@.take(i + 1).drop_last() =~= history@.take(i as int));
            assert(history@.take(i + 1).last() == history@[i as int]);
            lemma_history_counts_bounded(history@.take(i as int));
        }
        let c = &history[i];
        if c.threat_indicators.len() > 0 {
            suspicious = suspicious + 1;
        }
        match &c.geo_info {
            Some(g) => {
                if !g.is_internal {
                    external = external + 1;
                    let name = chars_of(g.country.as_str());
                    let mut k: usize = 0;
                    while k < countries.len() && !chars_eq(countries[k].as_slice(), name.as_slice())
                        invariant
                            k <= countries@.len(),
                            countries@.len() == prev.2.len(),
                            forall|m: int| 0 <= m < countries@.len() ==> #[trigger] countries@[m]@ == prev.2[m],
                            forall|m: int| 0 <= m < k ==> prev.2[m] != name@,
                        decreases countries@.len() - k,
                    {
                        k = k + 1;
                    }
                    if k == countries.len() {
                        assert(!prev.2.contains(name@));
                        countries.push(name);
                    } else {
                        assert(prev.2[k as int] == name@);
                        assert(prev.2.contains(name@));
                    }
                }
            },
            None => {},
        }
        i = i + 1;
    }
    assert(history@.take(i as int) =~= history@);
    ConnectionStats {
        total_connections: history.len(),
        external_connections: external,
        suspicious_connections: suspicious,
        unique_countries: countries.len(),
        active_port_scans: port_scans,
    }
}

} // verus!

verus! {

/// Whether `parse_duration` may read `duration_str`: its seconds fit in
/// 64 bits.
pub fn duration_fits(duration_str: &str) -> (r: bool)
    ensures
        r == (duration_scan(duration_str@).0 <= u64::MAX),
{
    let s = chars_of(duration_str);
    let mut total: u128 = 0;
    let mut digits: Vec<char> = Vec::new();
    let mut i: usize = 0;
    assert(s@.take(0) =~= Seq::<char>::empty());
    while i < s.len()
        invariant
            i <= s@.len(),
            s@ == duration_str@,
            total <= u64::MAX,
            (total as int, digits@) == duration_scan(s@.take(i as int)),
        decreases s@.len() - i,
    {
        let c = s[i];
        proof {
            assert(s@.take(i + 1).drop_last() =~= s@.take(i as int));
            assert(s@.take(i + 1).last() == c);
            lemma_unit_nonneg(digits@, c);
        }
        if char_is_digit(c) {
            digits.push(c);
        } else {
            match parse_u64_exec(digits.as_slice()) {
                Some(n) => {
                    if c == 'h' {
                        total = total + (n as u128) * 3600;
                    } else if c == 'm' {
                        total = total + (n as u128) * 60;
                    } else if c == 's' {
                        total = total + n as u128;
                    }
                },
                None => {},
            }
            digits = Vec::new();
            if total > u64::MAX as u128 {
                proof {
                    lemma_scan_monotone(s@, i + 1);
                }
                return false;
            }
        }
        i = i + 1;
    }
    assert(s@.take(i as int) =~= s@);
    true
}

/// Whether the bandwidth figure of a connection fits in 64 bits (see
/// `rated_bandwidth`).
pub fn rated_bandwidth_fits(sent: u64, received: u64, secs: u64) -> (r: bool)
    ensures
        r == (rated_bandwidth(sent, received, secs) <= u64::MAX),
{
    if secs > 0 {
        sent.checked_add(received / secs).is_some()
    } else {
        true
    }
}

} // verus!
