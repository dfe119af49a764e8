//! Network connections: their states and protocols, the parser of the
//! kernel's socket tables (`/proc/net/{tcp,udp}{,6}`), the fields of the
//! lines of `ss`, `netstat` and `lsof`, and the summaries drawn from a
//! list of connections.
//!
//! Running the tools and reading the tables is left to the caller, as is
//! reading an IP address written as text.
use vstd::prelude::*;
use vstd::string::StringSliceAdditionalSpecFns;
use vstd::utf8::encode_utf8;

use crate::error::{ErrorKind, NetwatchError};
use crate::intelligence::IpAddr;
use crate::order::{is_permutation, ordering_of, sort_desc_indices};
use crate::validation::{rfind_char, segment_start};
use crate::text::{
    chars_eq, chars_of, contains, contains_exec, find_char, find_char_exec, lemma_find_char_bounds, lines, occurs_at,
    occurs_at_exec, find_sub_from, find_sub_exec, lemma_find_sub_bounds, parse_u32,
    parse_u32_exec, lemma_parse_uint_bound, parse_uint, parse_uint_exec, slice_chars, split_lines, split_words,
    starts_with, starts_with_exec, string_from_chars, string_of, trim, trim_exec,
    uint_error_message, uint_error_message_exec, words, TrimSet,
};

verus! {

/// The state of a connection.
#[derive(Clone, Copy, Debug, PartialEq, Eq, Structural)]
pub enum ConnectionState {
    Established,
    Listen,
    SynSent,
    SynReceived,
    FinWait1,
    FinWait2,
    TimeWait,
    Close,
    CloseWait,
    LastAck,
    Closing,
    Unknown,
}

/// The name of a state, as the kernel's tables call it.
pub open spec fn state_name(s: ConnectionState) -> Seq<char> {
    match s {
        ConnectionState::Established => "ESTABLISHED"@,
        ConnectionState::Listen => "LISTEN"@,
        ConnectionState::SynSent => "SYN_SENT"@,
        ConnectionState::SynReceived => "SYN_RECV"@,
        ConnectionState::FinWait1 => "FIN_WAIT1"@,
        ConnectionState::FinWait2 => "FIN_WAIT2"@,
        ConnectionState::TimeWait => "TIME_WAIT"@,
        ConnectionState::Close => "CLOSE"@,
        ConnectionState::CloseWait => "CLOSE_WAIT"@,
        ConnectionState::LastAck => "LAST_ACK"@,
        ConnectionState::Closing => "CLOSING"@,
        ConnectionState::Unknown => "UNKNOWN"@,
    }
}

/// The state a `/proc/net/tcp` state code (two hex digits) stands for.
pub open spec fn state_of_proc_code(code: Seq<char>) -> ConnectionState {
    if code == "01"@ {
        ConnectionState::Established
    } else if code == "02"@ {
        ConnectionState::SynSent
    } else if code == "03"@ {
        ConnectionState::SynReceived
    } else if code == "04"@ {
        ConnectionState::FinWait1
    } else if code == "05"@ {
        ConnectionState::FinWait2
    } else if code == "06"@ {
        ConnectionState::TimeWait
    } else if code == "07"@ {
        ConnectionState::Close
    } else if code == "08"@ {
        ConnectionState::CloseWait
    } else if code == "09"@ {
        ConnectionState::LastAck
    } else if code == "0A"@ || code == "10"@ {
        ConnectionState::Listen
    } else if code == "0B"@ || code == "11"@ {
        ConnectionState::Closing
    } else {
        ConnectionState::Unknown
    }
}

/// The state a word of `ss` output names.
pub open spec fn state_of_ss(w: Seq<char>) -> ConnectionState {
    if w == "ESTAB"@ {
        ConnectionState::Established
    } else if w == "LISTEN"@ {
        ConnectionState::Listen
    } else if w == "SYN-SENT"@ {
        ConnectionState::SynSent
    } else if w == "SYN-RECV"@ {
        ConnectionState::SynReceived
    } else if w == "FIN-WAIT-1"@ {
        ConnectionState::FinWait1
    } else if w == "FIN-WAIT-2"@ {
        ConnectionState::FinWait2
    } else if w == "TIME-WAIT"@ {
        ConnectionState::TimeWait
    } else if w == "CLOSE"@ {
        ConnectionState::Close
    } else if w == "CLOSE-WAIT"@ {
        ConnectionState::CloseWait
    } else if w == "LAST-ACK"@ {
        ConnectionState::LastAck
    } else if w == "CLOSING"@ {
        ConnectionState::Closing
    } else {
        ConnectionState::Unknown
    }
}

/// The state a word of macOS `netstat` output names.
pub open spec fn state_of_netstat(w: Seq<char>) -> ConnectionState {
    if w == "ESTABLISHED"@ {
        ConnectionState::Established
    } else if w == "LISTEN"@ {
        ConnectionState::Listen
    } else if w == "TIME_WAIT"@ {
        ConnectionState::TimeWait
    } else if w == "CLOSE_WAIT"@ {
        ConnectionState::CloseWait
    } else if w == "FIN_WAIT_1"@ {
        ConnectionState::FinWait1
    } else if w == "FIN_WAIT_2"@ {
        ConnectionState::FinWait2
    } else if w == "SYN_SENT"@ {
        ConnectionState::SynSent
    } else if w == "SYN_RECV"@ {
        ConnectionState::SynReceived
    } else if w == "CLOSING"@ {
        ConnectionState::Closing
    } else if w == "LAST_ACK"@ {
        ConnectionState::LastAck
    } else {
        ConnectionState::Unknown
    }
}

/// The state the last word of an `lsof` line names, once its parentheses
/// are trimmed.
pub open spec fn state_of_lsof(w: Seq<char>) -> ConnectionState {
    let u = lsof_unparen(w);
    if u == "ESTABLISHED"@ {
        ConnectionState::Established
    } else if u == "LISTEN"@ {
        ConnectionState::Listen
    } else if u == "TIME_WAIT"@ {
        ConnectionState::TimeWait
    } else if u == "CLOSE_WAIT"@ {
        ConnectionState::CloseWait
    } else if u == "SYN_SENT"@ {
        ConnectionState::SynSent
    } else if u == "SYN_RECV"@ {
        ConnectionState::SynReceived
    } else if u == "FIN_WAIT1"@ {
        ConnectionState::FinWait1
    } else if u == "FIN_WAIT2"@ {
        ConnectionState::FinWait2
    } else if u == "CLOSING"@ {
        ConnectionState::Closing
    } else if u == "LAST_ACK"@ {
        ConnectionState::LastAck
    } else {
        ConnectionState::Unknown
    }
}

/// `w` with the parentheses at both its ends removed.
pub open spec fn lsof_unparen(w: Seq<char>) -> Seq<char> {
    paren_trim_end(paren_trim_start(w))
}

pub open spec fn is_paren(c: char) -> bool {
    c == '(' || c == ')'
}

pub open spec fn paren_trim_start(s: Seq<char>) -> Seq<char>
    decreases s.len(),
{
    if s.len() > 0 && is_paren(s[0]) {
        paren_trim_start(s.drop_first())
    } else {
        s
    }
}

pub open spec fn paren_trim_end(s: Seq<char>) -> Seq<char>
    decreases s.len(),
{
    if s.len() > 0 && is_paren(s.last()) {
        paren_trim_end(s.drop_last())
    } else {
        s
    }
}

fn unparen_exec(v: &[char]) -> (r: Vec<char>)
    ensures
        r@ == lsof_unparen(v@),
{
    let mut a: usize = 0;
    assert(v@.skip(0) =~= v@);
    while a < v.len() && (v[a] == '(' || v[a] == ')')
        invariant
            a <= v@.len(),
            paren_trim_start(v@.skip(a as int)) == paren_trim_start(v@),
        decreases v@.len() - a,
    {
        assert(v@.skip(a as int).drop_first() =~= v@.skip(a + 1));
        a = a + 1;
    }
    let mut b: usize = v.len();
    assert(v@.skip(a as int).take(b - a) =~= v@.skip(a as int));
    while b > a && (v[b - 1] == '(' || v[b - 1] == ')')
        invariant
            a <= b <= v@.len(),
            paren_trim_end(v@.subrange(a as int, b as int)) == paren_trim_end(paren_trim_start(v@)),
        decreases b - a,
    {
        assert(v@.subrange(a as int, b as int).drop_last() =~= v@.subrange(a as int, b - 1));
        b = b - 1;
    }
    assert(v@.skip(a as int) =~= v@.subrange(a as int, v@.len() as int));
    let r = slice_chars(v, a, b);
    r
}

/// The colours the displays give connection states.
#[derive(Clone, Copy, Debug, PartialEq, Eq, Structural)]
pub enum StateColor {
    Green,
    Blue,
    Yellow,
    Red,
    Gray,
    Magenta,
}

/// Established connections green, listening ones blue, half-open ones
/// yellow, closing ones red, closed ones gray, unknown ones magenta.
pub open spec fn state_color(s: ConnectionState) -> StateColor {
    match s {
        ConnectionState::Established => StateColor::Green,
        ConnectionState::Listen => StateColor::Blue,
        ConnectionState::SynSent | ConnectionState::SynReceived => StateColor::Yellow,
        ConnectionState::FinWait1 | ConnectionState::FinWait2 | ConnectionState::TimeWait
        | ConnectionState::CloseWait | ConnectionState::LastAck | ConnectionState::Closing => {
            StateColor::Red
        },
        ConnectionState::Close => StateColor::Gray,
        ConnectionState::Unknown => StateColor::Magenta,
    }
}

impl ConnectionState {
    /// The name of the state (see `state_name`).
    pub fn as_str(&self) -> (r: &'static str)
        ensures
            r@ == state_name(*self),
    {
        match self {
            ConnectionState::Established => "ESTABLISHED",
            ConnectionState::Listen => "LISTEN",
            ConnectionState::SynSent => "SYN_SENT",
            ConnectionState::SynReceived => "SYN_RECV",
            ConnectionState::FinWait1 => "FIN_WAIT1",
            ConnectionState::FinWait2 => "FIN_WAIT2",
            ConnectionState::TimeWait => "TIME_WAIT",
            ConnectionState::Close => "CLOSE",
            ConnectionState::CloseWait => "CLOSE_WAIT",
            ConnectionState::LastAck => "LAST_ACK",
            ConnectionState::Closing => "CLOSING",
            ConnectionState::Unknown => "UNKNOWN",
        }
    }

    /// The colour the state is shown in (see `state_color`).
    pub fn color(&self) -> (c: StateColor)
        ensures
            c == state_color(*self),
    {
        match self {
            ConnectionState::Established => StateColor::Green,
            ConnectionState::Listen => StateColor::Blue,
            ConnectionState::SynSent | ConnectionState::SynReceived => StateColor::Yellow,
            ConnectionState::FinWait1 | ConnectionState::FinWait2 | ConnectionState::TimeWait
            | ConnectionState::CloseWait | ConnectionState::LastAck | ConnectionState::Closing => {
                StateColor::Red
            },
            ConnectionState::Close => StateColor::Gray,
            ConnectionState::Unknown => StateColor::Magenta,
        }
    }

    /// The state a `/proc/net/tcp` state code stands for; any other text
    /// is `Unknown`.
    pub fn from_proc_code(code: &str) -> (r: ConnectionState)
        ensures
            r == state_of_proc_code(code@),
    {
        let c = chars_of(code);
        let v = c.as_slice();
        if chars_eq(v, chars_of("01").as_slice()) {
            ConnectionState::Established
        } else if chars_eq(v, chars_of("02").as_slice()) {
            ConnectionState::SynSent
        } else if chars_eq(v, chars_of("03").as_slice()) {
            ConnectionState::SynReceived
        } else if chars_eq(v, chars_of("04").as_slice()) {
            ConnectionState::FinWait1
        } else if chars_eq(v, chars_of("05").as_slice()) {
            ConnectionState::FinWait2
        } else if chars_eq(v, chars_of("06").as_slice()) {
            ConnectionState::TimeWait
        } else if chars_eq(v, chars_of("07").as_slice()) {
            ConnectionState::Close
        } else if chars_eq(v, chars_of("08").as_slice()) {
            ConnectionState::CloseWait
        } else if chars_eq(v, chars_of("09").as_slice()) {
            ConnectionState::LastAck
        } else if chars_eq(v, chars_of("0A").as_slice()) || chars_eq(v, chars_of("10").as_slice()) {
            ConnectionState::Listen
        } else if chars_eq(v, chars_of("0B").as_slice()) || chars_eq(v, chars_of("11").as_slice()) {
            ConnectionState::Closing
        } else {
            ConnectionState::Unknown
        }
    }

    /// The state a word of `ss` output names (see `state_of_ss`).
    pub fn from_ss_state(w: &[char]) -> (r: ConnectionState)
        ensures
            r == state_of_ss(w@),
    {
        if chars_eq(w, chars_of("ESTAB").as_slice()) {
            ConnectionState::Established
        } else if chars_eq(w, chars_of("LISTEN").as_slice()) {
            ConnectionState::Listen
        } else if chars_eq(w, chars_of("SYN-SENT").as_slice()) {
            ConnectionState::SynSent
        } else if chars_eq(w, chars_of("SYN-RECV").as_slice()) {
            ConnectionState::SynReceived
        } else if chars_eq(w, chars_of("FIN-WAIT-1").as_slice()) {
            ConnectionState::FinWait1
        } else if chars_eq(w, chars_of("FIN-WAIT-2").as_slice()) {
            ConnectionState::FinWait2
        } else if chars_eq(w, chars_of("TIME-WAIT").as_slice()) {
            ConnectionState::TimeWait
        } else if chars_eq(w, chars_of("CLOSE").as_slice()) {
            ConnectionState::Close
        } else if chars_eq(w, chars_of("CLOSE-WAIT").as_slice()) {
            ConnectionState::CloseWait
        } else if chars_eq(w, chars_of("LAST-ACK").as_slice()) {
            ConnectionState::LastAck
        } else if chars_eq(w, chars_of("CLOSING").as_slice()) {
            ConnectionState::Closing
        } else {
            ConnectionState::Unknown
        }
    }

    /// The state a word of macOS `netstat` output names (see
    /// `state_of_netstat`).
    pub fn from_netstat_state(w: &[char]) -> (r: ConnectionState)
        ensures
            r == state_of_netstat(w@),
    {
        if chars_eq(w, chars_of("ESTABLISHED").as_slice()) {
            ConnectionState::Established
        } else if chars_eq(w, chars_of("LISTEN").as_slice()) {
            ConnectionState::Listen
        } else if chars_eq(w, chars_of("TIME_WAIT").as_slice()) {
            ConnectionState::TimeWait
        } else if chars_eq(w, chars_of("CLOSE_WAIT").as_slice()) {
            ConnectionState::CloseWait
        } else if chars_eq(w, chars_of("FIN_WAIT_1").as_slice()) {
            ConnectionState::FinWait1
        } else if chars_eq(w, chars_of("FIN_WAIT_2").as_slice()) {
            ConnectionState::FinWait2
        } else if chars_eq(w, chars_of("SYN_SENT").as_slice()) {
            ConnectionState::SynSent
        } else if chars_eq(w, chars_of("SYN_RECV").as_slice()) {
            ConnectionState::SynReceived
        } else if chars_eq(w, chars_of("CLOSING").as_slice()) {
            ConnectionState::Closing
        } else if chars_eq(w, chars_of("LAST_ACK").as_slice()) {
            ConnectionState::LastAck
        } else {
            ConnectionState::Unknown
        }
    }

    /// The state the last word of an `lsof` line names (see
    /// `state_of_lsof`).
    pub fn from_lsof_state(w: &[char]) -> (r: ConnectionState)
        ensures
            r == state_of_lsof(w@),
    {
        let u = unparen_exec(w);
        let v = u.as_slice();
        if chars_eq(v, chars_of("ESTABLISHED").as_slice()) {
            ConnectionState::Established
        } else if chars_eq(v, chars_of("LISTEN").as_slice()) {
            ConnectionState::Listen
        } else if chars_eq(v, chars_of("TIME_WAIT").as_slice()) {
            ConnectionState::TimeWait
        } else if chars_eq(v, chars_of("CLOSE_WAIT").as_slice()) {
            ConnectionState::CloseWait
        } else if chars_eq(v, chars_of("SYN_SENT").as_slice()) {
            ConnectionState::SynSent
        } else if chars_eq(v, chars_of("SYN_RECV").as_slice()) {
            ConnectionState::SynReceived
        } else if chars_eq(v, chars_of("FIN_WAIT1").as_slice()) {
            ConnectionState::FinWait1
        } else if chars_eq(v, chars_of("FIN_WAIT2").as_slice()) {
            ConnectionState::FinWait2
        } else if chars_eq(v, chars_of("CLOSING").as_slice()) {
            ConnectionState::Closing
        } else if chars_eq(v, chars_of("LAST_ACK").as_slice()) {
            ConnectionState::LastAck
        } else {
            ConnectionState::Unknown
        }
    }
}

/// The transport protocol of a connection.
#[derive(Clone, Copy, Debug, PartialEq, Eq, Structural)]
pub enum Protocol {
    Tcp,
    Udp,
    Tcp6,
    Udp6,
}

pub open spec fn protocol_name(p: Protocol) -> Seq<char> {
    match p {
        Protocol::Tcp => "TCP"@,
        Protocol::Udp => "UDP"@,
        Protocol::Tcp6 => "TCP6"@,
        Protocol::Udp6 => "UDP6"@,
    }
}

impl Protocol {
    pub fn as_str(&self) -> (r: &'static str)
        ensures
            r@ == protocol_name(*self),
    {
        match self {
            Protocol::Tcp => "TCP",
            Protocol::Udp => "UDP",
            Protocol::Tcp6 => "TCP6",
            Protocol::Udp6 => "UDP6",
        }
    }
}

/// Extended TCP figures of a socket.
#[derive(Debug, Clone, Copy, PartialEq, Eq)]
pub struct TcpInfo {
    /// Maximum segment size.
    pub mss: u32,
    /// Path MTU.
    pub pmtu: u32,
    pub rcv_mss: u32,
    pub advmss: u32,
    pub cwnd_clamp: u32,
    pub delivery_rate: Option<u64>,
    pub app_limited: bool,
    pub reordering: u32,
}

/// An IP address and a port.
#[derive(Debug, Clone, Copy, PartialEq, Eq, Structural)]
pub struct SocketAddr {
    pub ip: IpAddr,
    pub port: u16,
}

// ---------------------------------------------------------------------
// Addresses of the kernel's socket tables
// ---------------------------------------------------------------------

/// Bytes read as the characters of the same code (so that ASCII digits
/// stay digits and no other byte is one).
pub open spec fn latin1(b: Seq<u8>) -> Seq<char> {
    Seq::new(b.len(), |i: int| b[i] as char)
}

/// How many bytes of `b` are `x`.
pub open spec fn count_byte(b: Seq<u8>, x: u8) -> nat
    decreases b.len(),
{
    if b.len() == 0 {
        0
    } else {
        count_byte(b.drop_last(), x) + if b.last() == x {
            1nat
        } else {
            0nat
        }
    }
}

/// Index of the first byte `x` of `b`, or its length.
pub open spec fn find_byte(b: Seq<u8>, x: u8) -> int
    decreases b.len(),
{
    if b.len() == 0 {
        0
    } else if b[0] == x {
        0
    } else {
        1 + find_byte(b.drop_first(), x)
    }
}

/// A byte that continues a UTF-8 sequence (no character starts there).
pub open spec fn is_continuation(x: u8) -> bool {
    0x80 <= x < 0xc0
}

/// The number the four bytes of a little-endian `u32` spell in network
/// order.
pub open spec fn swap32(n: int) -> int {
    (n % 256) * 0x100_0000 + ((n / 256) % 256) * 0x1_0000 + ((n / 0x1_0000) % 256) * 256 + (n
        / 0x100_0000) % 256
}

/// Reading the 32 hex digits of an IPv6 address two by two from pair
/// `i` on, the address so far being `acc`: the address, or the message of
/// the first pair that is not a byte.
pub open spec fn v6_from(ip: Seq<u8>, i: nat, acc: int) -> Result<int, Seq<char>>
    decreases 16 - i,
{
    if i >= 16 {
        Ok(acc)
    } else {
        let pair = latin1(ip.subrange(2 * i as int, 2 * i as int + 2));
        match parse_uint(pair, 16, 255) {
            Some(v) => v6_from(ip, i + 1, acc * 256 + v),
            None => Err(uint_error_message(pair, 16, 255)),
        }
    }
}

/// Whether reading the pairs from `i` on would cut a character in two:
/// the pair being read ends inside a multi-byte character.
pub open spec fn v6_cuts(ip: Seq<u8>, i: nat) -> bool
    decreases 16 - i,
{
    if i >= 16 {
        false
    } else if i < 15 && is_continuation(ip[2 * i as int + 2]) {
        true
    } else {
        match parse_uint(latin1(ip.subrange(2 * i as int, 2 * i as int + 2)), 16, 255) {
            Some(_) => v6_cuts(ip, i + 1),
            None => false,
        }
    }
}

/// The address a socket-table entry `b` (the UTF-8 bytes of
/// `<hex ip>:<hex port>`) gives, or the message of why it gives none: the
/// IPv4 address is the little-endian hex of its four bytes, the IPv6 one
/// its sixteen bytes in order.
pub open spec fn socket_addr_of(b: Seq<u8>) -> Result<SocketAddr, Seq<char>> {
    if count_byte(b, 0x3a) != 1 {
        Err("Invalid socket address format"@)
    } else {
        let k = find_byte(b, 0x3a);
        let ip = b.take(k);
        let port = latin1(b.skip(k + 1));
        match parse_uint(port, 16, 0xffff) {
            None => Err(uint_error_message(port, 16, 0xffff)),
            Some(p) => if ip.len() == 8 {
                match parse_uint(latin1(ip), 16, 0xffff_ffff) {
                    None => Err(uint_error_message(latin1(ip), 16, 0xffff_ffff)),
                    Some(n) => Ok(SocketAddr { ip: IpAddr::V4(swap32(n as int) as u32), port: p as u16 }),
                }
            } else if ip.len() == 32 {
                match v6_from(ip, 0, 0) {
                    Ok(n) => Ok(SocketAddr { ip: IpAddr::V6(n as u128), port: p as u16 }),
                    Err(m) => Err(m),
                }
            } else {
                Err("Invalid IP address length"@)
            },
        }
    }
}

/// Entries on which reading the address would cut a character in two
/// (an IPv6 address of 32 bytes that are not all ASCII).
pub open spec fn socket_addr_cuts(b: Seq<u8>) -> bool {
    let k = find_byte(b, 0x3a);
    let ip = b.take(k);
    &&& count_byte(b, 0x3a) == 1
    &&& parse_uint(latin1(b.skip(k + 1)), 16, 0xffff) is Some
    &&& ip.len() == 32
    &&& v6_cuts(ip, 0)
}

proof fn lemma_find_byte(b: Seq<u8>, x: u8, k: int)
    requires
        0 <= k <= b.len(),
        forall|j: int| 0 <= j < k ==> b[j] != x,
        k < b.len() ==> b[k] == x,
    ensures
        find_byte(b, x) == k,
    decreases b.len(),
{
    if b.len() > 0 && k > 0 {
        lemma_find_byte(b.drop_first(), x, k - 1);
    }
}

/// 256 to the power `n`.
pub open spec fn pow256(n: nat) -> int
    decreases n,
{
    if n == 0 {
        1
    } else {
        256 * pow256((n - 1) as nat)
    }
}

fn latin1_exec(b: &[u8], from: usize, to: usize) -> (r: Vec<char>)
    requires
        from <= to <= b@.len(),
    ensures
        r@ == latin1(b@.subrange(from as int, to as int)),
{
    let mut r: Vec<char> = Vec::new();
    let mut i = from;
    while i < to
        invariant
            from <= i <= to <= b@.len(),
            r@ =~= latin1(b@.subrange(from as int, i as int)),
        decreases to - i,
    {
        r.push(b[i] as char);
        i = i + 1;
    }
    r
}

fn parse_error(msg: Vec<char>) -> (e: NetwatchError)
    ensures
        e.kind() == ErrorKind::Parse,
        e.msg() == msg@,
{
    NetwatchError::Parse(string_from_chars(msg.as_slice()))
}

/// The address an entry of the kernel's socket tables gives (see
/// `socket_addr_of`); a `Parse` error with the reason otherwise.
pub fn parse_socket_addr(addr: &str) -> (r: Result<SocketAddr, NetwatchError>)
    requires
        !socket_addr_cuts(addr.spec_bytes()),
    ensures
        match socket_addr_of(addr.spec_bytes()) {
            Ok(a) => r == Ok::<SocketAddr, NetwatchError>(a),
            Err(m) => r matches Err(e) && e.kind() == ErrorKind::Parse && e.msg() == m,
        },
{
    let b = addr.as_bytes();
    let ghost gb = addr.spec_bytes();
    let mut colons: usize = 0;
    let mut k: usize = b.len();
    let mut i: usize = 0;
    assert(gb.take(0) =~= Seq::<u8>::empty());
    while i < b.len()
        invariant
            b@ == gb,
            i <= b@.len(),
            colons == count_byte(gb.take(i as int), 0x3a),
            colons <= i,
            colons == 0 ==> k == b@.len() && forall|j: int| 0 <= j < i ==> gb[j] != 0x3a,
            colons > 0 ==> k < i && gb[k as int] == 0x3a && forall|j: int| 0 <= j < k ==> gb[j]
                != 0x3a,
        decreases b@.len() - i,
    {
        assert(gb.take(i + 1).drop_last() =~= gb.take(i as int));
        if b[i] == 0x3a {
            if colons == 0 {
                k = i;
            }
            colons = colons + 1;
        }
        i = i + 1;
    }
    assert(gb.take(i as int) =~= gb);
    if colons != 1 {
        return Err(parse_error(chars_of("Invalid socket address format")));
    }
    proof {
        lemma_find_byte(gb, 0x3a, k as int);
    }
    let port_chars = latin1_exec(b, k + 1, b.len());
    assert(port_chars@ =~= latin1(gb.skip(k + 1)));
    let port = match parse_uint_exec(port_chars.as_slice(), 16, 0xffff) {
        Some(p) => p,
        None => {
            let m = uint_error_message_exec(port_chars.as_slice(), 16, 0xffff);
            return Err(parse_error(chars_of(m.as_str())));
        },
    };
    proof {
        lemma_parse_uint_bound(latin1(gb.skip(k + 1)), 16, 0xffff);
    }
    let ghost ip = gb.take(k as int);
    if k == 8 {
        let ip_chars = latin1_exec(b, 0, 8);
        assert(ip_chars@ =~= latin1(ip));
        match parse_uint_exec(ip_chars.as_slice(), 16, 0xffff_ffff) {
            Some(n) => {
                proof {
                    lemma_parse_uint_bound(latin1(ip), 16, 0xffff_ffff);
                }
                assert(n <= 0xffff_ffff);
                let a = n % 256;
                let bb = (n / 256) % 256;
                let c = (n / 0x1_0000) % 256;
                let d = n / 0x100_0000;
                assert(d < 256) by (nonlinear_arith)
                    requires
                        n <= 0xffff_ffff,
                        d == n / 0x100_0000,
                ;
                let v: u64 = a * 0x100_0000 + bb * 0x1_0000 + c * 256 + d;
                assert(v == swap32(n as int));
                Ok(SocketAddr { ip: IpAddr::V4(v as u32), port: port as u16 })
            },
            None => {
                let m = uint_error_message_exec(ip_chars.as_slice(), 16, 0xffff_ffff);
                Err(parse_error(chars_of(m.as_str())))
            },
        }
    } else if k == 32 {
        let mut acc: u128 = 0;
        let mut j: usize = 0;
        assert(pow256(0) == 1);
        while j < 16
            invariant
                b@ == gb,
                gb == addr.spec_bytes(),
                k == 32,
                k < b@.len(),
                ip == gb.take(32),
                count_byte(gb, 0x3a) == 1,
                find_byte(gb, 0x3a) == 32,
                parse_uint(latin1(gb.skip(33)), 16, 0xffff) == Some(port as nat),
                port <= 0xffff,
                j <= 16,
                v6_from(ip, 0, 0) == v6_from(ip, j as nat, acc as int),
                0 <= acc < pow256(j as nat),
            decreases 16 - j,
        {
            let pair = latin1_exec(b, 2 * j, 2 * j + 2);
            assert(pair@ =~= latin1(ip.subrange(2 * j, 2 * j + 2)));
            match parse_uint_exec(pair.as_slice(), 16, 255) {
                Some(v) => {
                    proof {
                        lemma_parse_uint_bound(latin1(ip.subrange(2 * j as int, 2 * j as int + 2)), 16, 255);
                    }
                    assert(v <= 255);
                    proof {
                        assert(acc * 256 + v < pow256((j + 1) as nat)) by (nonlinear_arith)
                            requires
                                0 <= acc < pow256(j as nat),
                                0 <= v <= 255,
                                pow256((j + 1) as nat) == pow256(j as nat) * 256,
                        ;
                        lemma_pow256_16();
                        lemma_pow256_mono((j + 1) as nat);
                    }
                    acc = acc * 256 + v as u128;
                },
                None => {
                    let m = uint_error_message_exec(pair.as_slice(), 16, 255);
                    return Err(parse_error(chars_of(m.as_str())));
                },
            }
            j = j + 1;
        }
        Ok(SocketAddr { ip: IpAddr::V6(acc), port: port as u16 })
    } else {
        Err(parse_error(chars_of("Invalid IP address length")))
    }
}

proof fn lemma_pow256_16()
    ensures
        pow256(16) == 0x1_0000_0000_0000_0000_0000_0000_0000_0000,
{
    reveal_with_fuel(pow256, 17);
}

proof fn lemma_pow256_mono(n: nat)
    requires
        n <= 16,
    ensures
        pow256(n) <= pow256(16),
        pow256(n) >= 1,
    decreases 16 - n,
{
    if n < 16 {
        lemma_pow256_mono(n + 1);
    }
    lemma_pow256_pos(n);
}

proof fn lemma_pow256_pos(n: nat)
    ensures
        pow256(n) >= 1,
    decreases n,
{
    if n > 0 {
        lemma_pow256_pos((n - 1) as nat);
    }
}

} // verus!

verus! {

// ---------------------------------------------------------------------
// Connections and the kernel's socket tables
// ---------------------------------------------------------------------

/// A connection between a local and a remote address.
#[derive(Debug, Clone)]
pub struct NetworkConnection {
    pub local_addr: SocketAddr,
    pub remote_addr: SocketAddr,
    pub state: ConnectionState,
    pub protocol: Protocol,
    pub pid: Option<u32>,
    pub process_name: Option<String>,
    pub bytes_sent: u64,
    pub bytes_received: u64,
}

/// What a row of a socket table (words: index, local address, remote
/// address, state, ..., seven of them at least after the addresses)
/// gives: nothing for a row of fewer than ten words, else its addresses,
/// state and word 7 as the owner's pid, or the message of the first
/// address that cannot be read.
pub open spec fn table_row(l: Seq<char>) -> Option<
    Result<(SocketAddr, SocketAddr, ConnectionState, Option<u32>), Seq<char>>,
> {
    let w = words(l);
    if w.len() < 10 {
        None
    } else {
        match socket_addr_of(encode_utf8(w[1])) {
            Err(m) => Some(Err(m)),
            Ok(a) => match socket_addr_of(encode_utf8(w[2])) {
                Err(m) => Some(Err(m)),
                Ok(b) => Some(Ok((a, b, state_of_proc_code(w[3]), parse_u32(w[7])))),
            },
        }
    }
}

/// The rows read from `ls` up to the first one that cannot be, and that
/// one's message.
pub open spec fn table_rows(ls: Seq<Seq<char>>) -> (
    Seq<(SocketAddr, SocketAddr, ConnectionState, Option<u32>)>,
    Option<Seq<char>>,
)
    decreases ls.len(),
{
    if ls.len() == 0 {
        (Seq::empty(), None)
    } else {
        let r = table_rows(ls.drop_last());
        if r.1 is Some {
            r
        } else {
            match table_row(ls.last()) {
                None => r,
                Some(Ok(x)) => (r.0.push(x), None),
                Some(Err(m)) => (r.0, Some(m)),
            }
        }
    }
}

/// Whether reading a row would cut a character of an address in two.
pub open spec fn row_cuts(l: Seq<char>) -> bool {
    let w = words(l);
    &&& w.len() >= 10
    &&& (socket_addr_cuts(encode_utf8(w[1])) || (socket_addr_of(encode_utf8(w[1])) is Ok
        && socket_addr_cuts(encode_utf8(w[2]))))
}

/// Whether reading the rows `ls`, up to the first error, would cut a
/// character of an address in two.
pub open spec fn table_cuts(ls: Seq<Seq<char>>) -> bool
    decreases ls.len(),
{
    if ls.len() == 0 {
        false
    } else {
        table_cuts(ls.drop_last()) || (table_rows(ls.drop_last()).1 is None && row_cuts(ls.last()))
    }
}

/// The lines of `ls` after its first `n`.
pub open spec fn after_header(ls: Seq<Seq<char>>, n: int) -> Seq<Seq<char>> {
    if ls.len() >= n {
        ls.skip(n)
    } else {
        Seq::empty()
    }
}

/// `c` is the connection of protocol `p` that row `x` describes.
pub open spec fn is_row_connection(
    c: NetworkConnection,
    x: (SocketAddr, SocketAddr, ConnectionState, Option<u32>),
    p: Protocol,
) -> bool {
    &&& c.local_addr == x.0
    &&& c.remote_addr == x.1
    &&& c.state == x.2
    &&& c.protocol == p
    &&& c.pid == x.3
    &&& c.process_name is None
    &&& c.bytes_sent == 0
    &&& c.bytes_received == 0
}

/// Appends to `out` the connections of a socket table (its rows after the
/// header line, see `table_row`), of protocol `protocol`, up to the first
/// row whose address cannot be read; that row's `Parse` error is returned.
pub fn parse_connections(
    content: &str,
    protocol: Protocol,
    out: &mut Vec<NetworkConnection>,
) -> (r: Result<(), NetwatchError>)
    requires
        !table_cuts(after_header(lines(content@), 1)),
    ensures
        ({
            let t = table_rows(after_header(lines(content@), 1));
            &&& final(out)@.len() == old(out)@.len() + t.0.len()
            &&& forall|i: int| 0 <= i < old(out)@.len() ==> #[trigger] final(out)@[i] == old(out)@[i]
            &&& forall|i: int|
                0 <= i < t.0.len() ==> is_row_connection(
                    #[trigger] final(out)@[old(out)@.len() + i],
                    t.0[i],
                    protocol,
                )
            &&& match t.1 {
                None => r is Ok,
                Some(m) => r matches Err(e) && e.kind() == ErrorKind::Parse && e.msg() == m,
            }
        }),
{
    let text = chars_of(content);
    let ls = split_lines(text.as_slice());
    let ghost gls = lines(content@);
    let ghost body = after_header(gls, 1);
    let ghost start = out@.len();
    if ls.len() == 0 {
        assert(body =~= Seq::<Seq<char>>::empty());
        return Ok(());
    }
    let mut i: usize = 1;
    assert(body.take(0) =~= Seq::<Seq<char>>::empty());
    while i < ls.len()
        invariant
            1 <= i <= ls@.len(),
            ls@.len() == gls.len(),
            forall|j: int| 0 <= j < ls@.len() ==> #[trigger] ls@[j]@ == gls[j],
            gls == lines(content@),
            body == gls.skip(1),
            body == after_header(lines(content@), 1),
            !table_cuts(body),
            start == old(out)@.len(),
            ({
                let t = table_rows(body.take(i - 1));
                &&& t.1 is None
                &&& !table_cuts(body.take(i - 1))
                &&& out@.len() == start + t.0.len()
                &&& forall|k: int| 0 <= k < start ==> #[trigger] out@[k] == old(out)@[k]
                &&& forall|k: int|
                    0 <= k < t.0.len() ==> is_row_connection(
                        #[trigger] out@[start + k],
                        t.0[k],
                        protocol,
                    )
            }),
        decreases ls@.len() - i,
    {
        proof {
            let u = body.take(i as int);
            assert(u.drop_last() =~= body.take(i - 1));
            assert(u.last() == gls[i as int]);
            lemma_table_prefix(body, i as int);
        }
        let w = split_words(ls[i].as_slice());
        assert(w@.map_values(|x: Vec<char>| x@) =~= words(gls[i as int]));
        if w.len() >= 10 {
            let s1 = string_from_chars(w[1].as_slice());
            let local = match parse_socket_addr(s1.as_str()) {
                Ok(a) => a,
                Err(e) => {
                    proof {
                        assert(table_rows(body.take(i as int)).1 is Some);
                        lemma_table_error_sticks(body, i as int);
                    }
                    return Err(e);
                },
            };
            let s2 = string_from_chars(w[2].as_slice());
            let remote = match parse_socket_addr(s2.as_str()) {
                Ok(a) => a,
                Err(e) => {
                    proof {
                        lemma_table_error_sticks(body, i as int);
                    }
                    return Err(e);
                },
            };
            let state = ConnectionState::from_proc_code(string_from_chars(w[3].as_slice()).as_str());
            let pid = parse_u32_exec(w[7].as_slice());
            let ghost before = out@;
            out.push(
                NetworkConnection {
                    local_addr: local,
                    remote_addr: remote,
                    state,
                    protocol,
                    pid,
                    process_name: None,
                    bytes_sent: 0,
                    bytes_received: 0,
                },
            );
            assert forall|k: int| 0 <= k < start implies #[trigger] out@[k] == old(out)@[k] by {
                assert(out@[k] == before[k]);
            }
        }
        i = i + 1;
    }
    assert(body.take(i - 1) =~= body);
    Ok(())
}

proof fn lemma_table_prefix(body: Seq<Seq<char>>, i: int)
    requires
        1 <= i <= body.len(),
        !table_cuts(body),
    ensures
        !table_cuts(body.take(i)),
    decreases body.len() - i,
{
    if i < body.len() {
        lemma_table_prefix(body, i + 1);
        assert(body.take(i + 1).drop_last() =~= body.take(i));
    } else {
        assert(body.take(i) =~= body);
    }
}

/// Once a row fails, the rows read and the error stay as they are.
proof fn lemma_table_error_sticks(body: Seq<Seq<char>>, i: int)
    requires
        1 <= i <= body.len(),
        table_rows(body.take(i)).1 is Some,
    ensures
        table_rows(body) == table_rows(body.take(i)),
    decreases body.len() - i,
{
    if i < body.len() {
        assert(body.take(i + 1).drop_last() =~= body.take(i));
        lemma_table_error_sticks(body, i + 1);
    } else {
        assert(body.take(i) =~= body);
    }
}

// ---------------------------------------------------------------------
// Summaries of a list of connections
// ---------------------------------------------------------------------

/// Counts of connections: all of them, by state and by transport.
#[derive(Debug, Clone, Copy, PartialEq, Eq)]
pub struct ConnectionStats {
    pub total: u32,
    pub established: u32,
    pub listening: u32,
    pub time_wait: u32,
    pub other: u32,
    pub tcp: u32,
    pub udp: u32,
}

impl Default for ConnectionStats {
    fn default() -> (s: ConnectionStats)
        ensures
            s == (ConnectionStats {
                total: 0,
                established: 0,
                listening: 0,
                time_wait: 0,
                other: 0,
                tcp: 0,
                udp: 0,
            }),
    {
        ConnectionStats {
            total: 0,
            established: 0,
            listening: 0,
            time_wait: 0,
            other: 0,
            tcp: 0,
            udp: 0,
        }
    }
}

pub open spec fn is_tcp(p: Protocol) -> bool {
    p == Protocol::Tcp || p == Protocol::Tcp6
}

/// The counts over `s`: all, established, listening, in time-wait, in
/// another state, over TCP and over UDP.
pub open spec fn connection_counts(s: Seq<NetworkConnection>) -> (nat, nat, nat, nat, nat, nat, nat)
    decreases s.len(),
{
    if s.len() == 0 {
        (0, 0, 0, 0, 0, 0, 0)
    } else {
        let r = connection_counts(s.drop_last());
        let c = s.last();
        let est: nat = if c.state == ConnectionState::Established { 1 } else { 0 };
        let lis: nat = if c.state == ConnectionState::Listen { 1 } else { 0 };
        let tw: nat = if c.state == ConnectionState::TimeWait { 1 } else { 0 };
        let oth: nat = if c.state != ConnectionState::Established && c.state != ConnectionState::Listen
            && c.state != ConnectionState::TimeWait { 1 } else { 0 };
        let tcp: nat = if is_tcp(c.protocol) { 1 } else { 0 };
        let udp: nat = if is_tcp(c.protocol) { 0 } else { 1 };
        (r.0 + 1, r.1 + est, r.2 + lis, r.3 + tw, r.4 + oth, r.5 + tcp, r.6 + udp)
    }
}

proof fn lemma_counts_bounded(s: Seq<NetworkConnection>)
    ensures
        connection_counts(s).0 == s.len(),
        connection_counts(s).1 <= s.len() && connection_counts(s).2 <= s.len(),
        connection_counts(s).3 <= s.len() && connection_counts(s).4 <= s.len(),
        connection_counts(s).5 <= s.len() && connection_counts(s).6 <= s.len(),
    decreases s.len(),
{
    if s.len() > 0 {
        lemma_counts_bounded(s.drop_last());
    }
}

/// The counts of `conns` by state and transport (see
/// `connection_counts`).
pub fn get_connection_stats(conns: &[NetworkConnection]) -> (st: ConnectionStats)
    requires
        conns@.len() <= u32::MAX,
    ensures
        ({
            let c = connection_counts(conns@);
            &&& st.total == c.0 && st.established == c.1 && st.listening == c.2
            &&& st.time_wait == c.3 && st.other == c.4 && st.tcp == c.5 && st.udp == c.6
        }),
        st.total == conns@.len(),
        st.total == st.established + st.listening + st.time_wait + st.other,
        st.total == st.tcp + st.udp,
{
    let mut st = ConnectionStats::default();
    let mut i: usize = 0;
    assert(conns@.take(0) =~= Seq::<NetworkConnection>::empty());
    while i < conns.len()
        invariant
            i <= conns@.len(),
            conns@.len() <= u32::MAX,
            ({
                let c = connection_counts(conns@.take(i as int));
                &&& st.total == c.0 && st.established == c.1 && st.listening == c.2
                &&& st.time_wait == c.3 && st.other == c.4 && st.tcp == c.5 && st.udp == c.6
            }),
        decreases conns@.len() - i,
    {
        proof {
            assert(conns@.take(i + 1).drop_last() =~= conns@.take(i as int));
            assert(conns@.take(i + 1).last() == conns@[i as int]);
            lemma_counts_bounded(conns@.take(i as int));
        }
        match conns[i].state {
            ConnectionState::Established => {
                st.established = st.established + 1;
            },
            ConnectionState::Listen => {
                st.listening = st.listening + 1;
            },
            ConnectionState::TimeWait => {
                st.time_wait = st.time_wait + 1;
            },
            _ => {
                st.other = st.other + 1;
            },
        }
        match conns[i].protocol {
            Protocol::Tcp | Protocol::Tcp6 => {
                st.tcp = st.tcp + 1;
            },
            Protocol::Udp | Protocol::Udp6 => {
                st.udp = st.udp + 1;
            },
        }
        st.total = st.total + 1;
        i = i + 1;
    }
    assert(conns@.take(i as int) =~= conns@);
    proof {
        lemma_counts_bounded(conns@);
        law_connection_counts_partition(conns@);
    }
    st
}

/// How many connections each process name has in `s`, names in the order
/// of their first connection.
pub open spec fn name_tally(s: Seq<NetworkConnection>) -> Seq<(Seq<char>, nat)>
    decreases s.len(),
{
    if s.len() == 0 {
        Seq::empty()
    } else {
        let t = name_tally(s.drop_last());
        match s.last().process_name {
            None => t,
            Some(n) => if exists|i: int| 0 <= i < t.len() && t[i].0 == n@ {
                let i = choose|i: int| 0 <= i < t.len() && t[i].0 == n@;
                t.update(i, (t[i].0, t[i].1 + 1))
            } else {
                t.push((n@, 1))
            },
        }
    }
}

/// How many established connections each remote address has in `s`,
/// addresses in the order of their first one.
pub open spec fn host_tally(s: Seq<NetworkConnection>) -> Seq<(IpAddr, nat)>
    decreases s.len(),
{
    if s.len() == 0 {
        Seq::empty()
    } else {
        let t = host_tally(s.drop_last());
        let c = s.last();
        if c.state != ConnectionState::Established {
            t
        } else if exists|i: int| 0 <= i < t.len() && t[i].0 == c.remote_addr.ip {
            let i = choose|i: int| 0 <= i < t.len() && t[i].0 == c.remote_addr.ip;
            t.update(i, (t[i].0, t[i].1 + 1))
        } else {
            t.push((c.remote_addr.ip, 1))
        }
    }
}

pub open spec fn name_keys(t: Seq<(Seq<char>, nat)>) -> Seq<u128> {
    Seq::new(t.len(), |i: int| t[i].1 as u128)
}

pub open spec fn host_keys(t: Seq<(IpAddr, nat)>) -> Seq<u128> {
    Seq::new(t.len(), |i: int| t[i].1 as u128)
}

/// At most ten.
pub open spec fn top_ten(n: nat) -> nat {
    if n < 10 {
        n
    } else {
        10
    }
}

proof fn lemma_name_tally_bounded(s: Seq<NetworkConnection>, k: int)
    requires
        0 <= k < name_tally(s).len(),
    ensures
        name_tally(s)[k].1 <= s.len(),
    decreases s.len(),
{
    if s.len() > 0 {
        let t = name_tally(s.drop_last());
        match s.last().process_name {
            None => lemma_name_tally_bounded(s.drop_last(), k),
            Some(n) => {
                if k < t.len() {
                    lemma_name_tally_bounded(s.drop_last(), k);
                }
            },
        }
    }
}

proof fn lemma_host_tally_bounded(s: Seq<NetworkConnection>, k: int)
    requires
        0 <= k < host_tally(s).len(),
    ensures
        host_tally(s)[k].1 <= s.len(),
    decreases s.len(),
{
    if s.len() > 0 {
        let t = host_tally(s.drop_last());
        if k < t.len() {
            lemma_host_tally_bounded(s.drop_last(), k);
        }
    }
}

/// The ten process names with the most connections, with their numbers of
/// connections, most first (equal numbers in order of first connection).
pub fn get_top_processes(conns: &[NetworkConnection]) -> (r: Vec<(String, u32)>)
    requires
        conns@.len() <= u32::MAX,
    ensures
        ({
            let t = name_tally(conns@);
            exists|q: Seq<usize>|
                ordering_of(name_keys(t), q) && r@.len() == top_ten(t.len()) && forall|i: int|
                    0 <= i < r@.len() ==> (#[trigger] r@[i]).0@ == t[q[i] as int].0 && r@[i].1
                        == t[q[i] as int].1
        }),
{
    let mut names: Vec<Vec<char>> = Vec::new();
    let mut counts: Vec<u32> = Vec::new();
    let mut i: usize = 0;
    assert(conns@.take(0) =~= Seq::<NetworkConnection>::empty());
    while i < conns.len()
        invariant
            i <= conns@.len(),
            conns@.len() <= u32::MAX,
            ({
                let t = name_tally(conns@.take(i as int));
                &&& names@.len() == t.len() && counts@.len() == t.len()
                &&& forall|k: int| 0 <= k < t.len() ==> #[trigger] names@[k]@ == t[k].0
                &&& forall|k: int| 0 <= k < t.len() ==> #[trigger] counts@[k] == t[k].1
                &&& forall|a: int, b: int| 0 <= a < b < t.len() ==> t[a].0 != t[b].0
            }),
        decreases conns@.len() - i,
    {
        let ghost t0 = name_tally(conns@.take(i as int));
        proof {
            assert(conns@.take(i + 1).drop_last() =~= conns@.take(i as int));
            assert(conns@.take(i + 1).last() == conns@[i as int]);
        }
        match &conns[i].process_name {
            None => {},
            Some(n) => {
                let nc = chars_of(n.as_str());
                let mut k: usize = 0;
                while k < names.len() && !chars_eq(names[k].as_slice(), nc.as_slice())
                    invariant
                        k <= names@.len(),
                        names@.len() == t0.len(),
                        forall|m: int| 0 <= m < t0.len() ==> #[trigger] names@[m]@ == t0[m].0,
                        forall|m: int| 0 <= m < k ==> t0[m].0 != nc@,
                    decreases names@.len() - k,
                {
                    k = k + 1;
                }
                if k < names.len() {
                    proof {
                        let c = choose|m: int| 0 <= m < t0.len() && t0[m].0 == nc@;
                        assert(0 <= c < t0.len() && t0[c].0 == nc@);
                        if c != k {
                            assert(t0[k as int].0 == nc@);
                        }
                        lemma_name_tally_bounded(conns@.take(i as int), k as int);
                    }
                    counts.set(k, counts[k] + 1);
                    proof {
                        let t1 = name_tally(conns@.take(i + 1));
                        assert(t1 == t0.update(k as int, (t0[k as int].0, t0[k as int].1 + 1)));
                    }
                } else {
                    names.push(nc);
                    counts.push(1);
                    proof {
                        let t1 = name_tally(conns@.take(i + 1));
                        assert(t1 == t0.push((nc@, 1nat)));
                    }
                }
            },
        }
        i = i + 1;
    }
    assert(conns@.take(i as int) =~= conns@);
    let ghost t = name_tally(conns@);
    let mut keys: Vec<u128> = Vec::new();
    let mut j: usize = 0;
    while j < counts.len()
        invariant
            j <= counts@.len(),
            counts@.len() == t.len(),
            forall|k: int| 0 <= k < t.len() ==> counts@[k] == t[k].1,
            keys@.len() == j,
            forall|k: int| 0 <= k < j ==> keys@[k] == name_keys(t)[k],
        decreases counts@.len() - j,
    {
        keys.push(counts[j] as u128);
        j = j + 1;
    }
    assert(keys@ =~= name_keys(t));
    let q = sort_desc_indices(&keys);
    let mut r: Vec<(String, u32)> = Vec::new();
    let mut m: usize = 0;
    while m < q.len() && m < 10
        invariant
            is_permutation(q@, t.len()),
            names@.len() == t.len(),
            counts@.len() == t.len(),
            forall|k: int| 0 <= k < t.len() ==> #[trigger] names@[k]@ == t[k].0,
            forall|k: int| 0 <= k < t.len() ==> #[trigger] counts@[k] == t[k].1,
            m <= q@.len(),
            m <= 10,
            r@.len() == m,
            forall|k: int| 0 <= k < m ==> (#[trigger] r@[k]).0@ == t[q@[k] as int].0 && r@[k].1 == t[q@[k] as int].1,
        decreases q@.len() - m,
    {
        let at = q[m];
        r.push((string_from_chars(names[at].as_slice()), counts[at]));
        m = m + 1;
    }
    assert(ordering_of(name_keys(t), q@));
    r
}

/// The ten remote addresses with the most established connections, with
/// their numbers of connections, most first (equal numbers in order of
/// first connection).
pub fn get_remote_hosts(conns: &[NetworkConnection]) -> (r: Vec<(IpAddr, u32)>)
    requires
        conns@.len() <= u32::MAX,
    ensures
        ({
            let t = host_tally(conns@);
            exists|q: Seq<usize>|
                ordering_of(host_keys(t), q) && r@.len() == top_ten(t.len()) && forall|i: int|
                    0 <= i < r@.len() ==> (#[trigger] r@[i]).0 == t[q[i] as int].0 && r@[i].1
                        == t[q[i] as int].1
        }),
{
    let mut hosts: Vec<IpAddr> = Vec::new();
    let mut counts: Vec<u32> = Vec::new();
    let mut i: usize = 0;
    assert(conns@.take(0) =~= Seq::<NetworkConnection>::empty());
    while i < conns.len()
        invariant
            i <= conns@.len(),
            conns@.len() <= u32::MAX,
            ({
                let t = host_tally(conns@.take(i as int));
                &&& hosts@.len() == t.len() && counts@.len() == t.len()
                &&& forall|k: int| 0 <= k < t.len() ==> #[trigger] hosts@[k] == t[k].0
                &&& forall|k: int| 0 <= k < t.len() ==> #[trigger] counts@[k] == t[k].1
                &&& forall|a: int, b: int| 0 <= a < b < t.len() ==> t[a].0 != t[b].0
            }),
        decreases conns@.len() - i,
    {
        let ghost t0 = host_tally(conns@.take(i as int));
        proof {
            assert(conns@.take(i + 1).drop_last() =~= conns@.take(i as int));
            assert(conns@.take(i + 1).last() == conns@[i as int]);
        }
        if conns[i].state == ConnectionState::Established {
            let ip = conns[i].remote_addr.ip;
            let mut k: usize = 0;
            while k < hosts.len() && hosts[k] != ip
                invariant
                    k <= hosts@.len(),
                    hosts@.len() == t0.len(),
                    forall|m: int| 0 <= m < t0.len() ==> #[trigger] hosts@[m] == t0[m].0,
                    forall|m: int| 0 <= m < k ==> t0[m].0 != ip,
                decreases hosts@.len() - k,
            {
                k = k + 1;
            }
            if k < hosts.len() {
                proof {
                    let c = choose|m: int| 0 <= m < t0.len() && t0[m].0 == ip;
                    assert(0 <= c < t0.len() && t0[c].0 == ip);
                    if c != k {
                        assert(t0[k as int].0 == ip);
                    }
                    lemma_host_tally_bounded(conns@.take(i as int), k as int);
                }
                counts.set(k, counts[k] + 1);
            } else {
                hosts.push(ip);
                counts.push(1);
            }
        }
        i = i + 1;
    }
    assert(conns@.take(i as int) =~= conns@);
    let ghost t = host_tally(conns@);
    let mut keys: Vec<u128> = Vec::new();
    let mut j: usize = 0;
    while j < counts.len()
        invariant
            j <= counts@.len(),
            counts@.len() == t.len(),
            forall|k: int| 0 <= k < t.len() ==> counts@[k] == t[k].1,
            keys@.len() == j,
            forall|k: int| 0 <= k < j ==> keys@[k] == host_keys(t)[k],
        decreases counts@.len() - j,
    {
        keys.push(counts[j] as u128);
        j = j + 1;
    }
    assert(keys@ =~= host_keys(t));
    let q = sort_desc_indices(&keys);
    let mut r: Vec<(IpAddr, u32)> = Vec::new();
    let mut m: usize = 0;
    while m < q.len() && m < 10
        invariant
            is_permutation(q@, t.len()),
            hosts@.len() == t.len(),
            counts@.len() == t.len(),
            forall|k: int| 0 <= k < t.len() ==> #[trigger] hosts@[k] == t[k].0,
            forall|k: int| 0 <= k < t.len() ==> #[trigger] counts@[k] == t[k].1,
            m <= q@.len(),
            m <= 10,
            r@.len() == m,
            forall|k: int| 0 <= k < m ==> (#[trigger] r@[k]).0 == t[q@[k] as int].0 && r@[k].1 == t[q@[k] as int].1,
        decreases q@.len() - m,
    {
        let at = q[m];
        r.push((hosts[at], counts[at]));
        m = m + 1;
    }
    assert(ordering_of(host_keys(t), q@));
    r
}

} // verus!

verus! {

// ---------------------------------------------------------------------
// Fields of the lines of `ss`, `netstat` and `lsof`
// ---------------------------------------------------------------------

/// The owner an `ss` `users:` field names, as in
/// `users:(("sshd",pid=1234,fd=3))`: the number between `pid=` and the
/// next comma, and the text between the first two double quotes; no
/// owner when the number is missing.
pub open spec fn process_info_of(s: Seq<char>) -> (Option<u32>, Option<Seq<char>>) {
    match find_sub_from(s, "pid="@, 0) {
        None => (None, None),
        Some(start) => {
            let pid_part = s.skip(start + 4);
            let e = find_char(pid_part, ',');
            if e < pid_part.len() {
                match parse_u32(pid_part.take(e)) {
                    Some(pid) => {
                        let ns = find_char(s, '"');
                        if ns < s.len() {
                            let after = s.skip(ns + 1);
                            let ne = find_char(after, '"');
                            if ne < after.len() {
                                (Some(pid), Some(after.take(ne)))
                            } else {
                                (Some(pid), None)
                            }
                        } else {
                            (Some(pid), None)
                        }
                    },
                    None => (None, None),
                }
            } else {
                (None, None)
            }
        },
    }
}

/// The pid and name of the owner an `ss` `users:` field names (see
/// `process_info_of`).
pub fn parse_process_info(process_part: &[char]) -> (r: (Option<u32>, Option<String>))
    ensures
        r.0 == process_info_of(process_part@).0,
        match process_info_of(process_part@).1 {
            Some(n) => r.1 matches Some(x) && x@ == n,
            None => r.1 is None,
        },
{
    let s = process_part;
    let tag = chars_of("pid=");
    match find_sub_exec(s, tag.as_slice()) {
        None => (None, None),
        Some(start) => {
            proof {
                reveal_strlit("pid=");
                lemma_find_sub_bounds(s@, "pid="@, 0);
            }
            let slen = s.len();
            assert(start + 4 <= slen);
            let pid_part = slice_chars(s, start + 4, slen);
            assert(pid_part@ =~= s@.skip(start + 4));
            let e = find_char_exec(pid_part.as_slice(), ',');
            if e < pid_part.len() {
                let pid_str = slice_chars(pid_part.as_slice(), 0, e);
                assert(pid_str@ =~= pid_part@.take(e as int));
                match parse_u32_exec(pid_str.as_slice()) {
                    Some(pid) => {
                        let ns = find_char_exec(s, '"');
                        if ns < s.len() {
                            let after = slice_chars(s, ns + 1, s.len());
                            assert(after@ =~= s@.skip(ns + 1));
                            let ne = find_char_exec(after.as_slice(), '"');
                            if ne < after.len() {
                                let name = slice_chars(after.as_slice(), 0, ne);
                                assert(name@ =~= after@.take(ne as int));
                                (Some(pid), Some(string_from_chars(name.as_slice())))
                            } else {
                                (Some(pid), None)
                            }
                        } else {
                            (Some(pid), None)
                        }
                    },
                    None => (None, None),
                }
            } else {
                (None, None)
            }
        },
    }
}

/// The fields of a connection line of `ss -tupln -i -e -p`.
#[derive(Debug, Clone)]
pub struct SsFields {
    pub protocol: Protocol,
    pub state: ConnectionState,
    pub recv_queue: u32,
    pub send_queue: u32,
    /// The local address, as written.
    pub local: String,
    /// The remote address, as written; `None` when missing or `*:*`.
    pub remote: Option<String>,
    pub pid: Option<u32>,
    pub process_name: Option<String>,
}

/// The protocol an `ss` line starts with.
pub open spec fn ss_protocol(w: Seq<char>) -> Option<Protocol> {
    if w == "tcp"@ {
        Some(Protocol::Tcp)
    } else if w == "udp"@ {
        Some(Protocol::Udp)
    } else if w == "tcp6"@ {
        Some(Protocol::Tcp6)
    } else if w == "udp6"@ {
        Some(Protocol::Udp6)
    } else {
        None
    }
}

/// Index of the first word of `w` at or after `i` that starts with
/// `users:`.
pub open spec fn users_word(w: Seq<Seq<char>>, i: int) -> Option<int>
    decreases w.len() - i,
{
    if i < 0 || i >= w.len() {
        None
    } else if starts_with(w[i], "users:"@) {
        Some(i)
    } else {
        users_word(w, i + 1)
    }
}

/// The owner named by the words of an `ss` line.
pub open spec fn ss_owner(w: Seq<Seq<char>>) -> (Option<u32>, Option<Seq<char>>) {
    match users_word(w, 0) {
        Some(k) => process_info_of(w[k]),
        None => (None, None),
    }
}

/// `r` holds the fields of the `ss` line `l`: a line of at least five
/// words whose first names a protocol; then its state, its receive and
/// send queues (0 when not numbers), its local address, its remote one
/// unless missing or `*:*`, and the owner of its first `users:` word.
pub open spec fn is_ss_fields(r: SsFields, l: Seq<char>) -> bool {
    let w = words(l);
    &&& w.len() >= 5
    &&& ss_protocol(w[0]) == Some(r.protocol)
    &&& r.state == state_of_ss(w[1])
    &&& r.recv_queue == (match parse_u32(w[2]) {
        Some(v) => v,
        None => 0,
    })
    &&& r.send_queue == (match parse_u32(w[3]) {
        Some(v) => v,
        None => 0,
    })
    &&& r.local@ == w[4]
    &&& (if w.len() > 5 && w[5] != "*:*"@ {
        r.remote matches Some(x) && x@ == w[5]
    } else {
        r.remote is None
    })
    &&& r.pid == ss_owner(w).0
    &&& match ss_owner(w).1 {
        Some(n) => r.process_name matches Some(x) && x@ == n,
        None => r.process_name is None,
    }
}

fn u32_or_zero(v: &[char]) -> (r: u32)
    ensures
        r == (match parse_u32(v@) {
            Some(x) => x,
            None => 0,
        }),
{
    match parse_u32_exec(v) {
        Some(x) => x,
        None => 0,
    }
}

/// The fields of an `ss` connection line (see `is_ss_fields`); `None` for
/// a line with fewer than five words or of another protocol.
pub fn ss_line_fields(line: &str) -> (r: Option<SsFields>)
    ensures
        match r {
            Some(f) => is_ss_fields(f, line@),
            None => words(line@).len() < 5 || ss_protocol(words(line@)[0]) is None,
        },
{
    let text = chars_of(line);
    let w = split_words(text.as_slice());
    let ghost gw = words(line@);
    assert(w@.map_values(|x: Vec<char>| x@) =~= gw);
    if w.len() < 5 {
        return None;
    }
    let p0 = w[0].as_slice();
    let protocol = if chars_eq(p0, chars_of("tcp").as_slice()) {
        Protocol::Tcp
    } else if chars_eq(p0, chars_of("udp").as_slice()) {
        Protocol::Udp
    } else if chars_eq(p0, chars_of("tcp6").as_slice()) {
        Protocol::Tcp6
    } else if chars_eq(p0, chars_of("udp6").as_slice()) {
        Protocol::Udp6
    } else {
        return None;
    };
    let state = ConnectionState::from_ss_state(w[1].as_slice());
    let recv_queue = u32_or_zero(w[2].as_slice());
    let send_queue = u32_or_zero(w[3].as_slice());
    let local = string_from_chars(w[4].as_slice());
    let remote = if w.len() > 5 && !chars_eq(w[5].as_slice(), chars_of("*:*").as_slice()) {
        Some(string_from_chars(w[5].as_slice()))
    } else {
        None
    };
    let users = chars_of("users:");
    let mut k: usize = 0;
    while k < w.len() && !starts_with_exec(w[k].as_slice(), users.as_slice())
        invariant
            k <= w@.len(),
            w@.len() == gw.len(),
            forall|j: int| 0 <= j < w@.len() ==> #[trigger] w@[j]@ == gw[j],
            users@ == "users:"@,
            users_word(gw, 0) == users_word(gw, k as int),
        decreases w@.len() - k,
    {
        k = k + 1;
    }
    let (pid, process_name) = if k < w.len() {
        parse_process_info(w[k].as_slice())
    } else {
        (None, None)
    };
    Some(
        SsFields {
            protocol,
            state,
            recv_queue,
            send_queue,
            local,
            remote,
            pid,
            process_name,
        },
    )
}

/// The local address, remote address and state of a macOS `netstat`
/// line: words 3, 4 and 5 of a line of at least six words that is not a
/// header (first word `Proto` or `Active`).
pub open spec fn netstat_fields_of(l: Seq<char>) -> Option<(Seq<char>, Seq<char>, ConnectionState)> {
    let w = words(l);
    if w.len() < 6 || w[0] == "Proto"@ || w[0] == "Active"@ {
        None
    } else {
        Some((w[3], w[4], state_of_netstat(w[5])))
    }
}

/// The fields of a macOS `netstat` line (see `netstat_fields_of`).
pub fn netstat_line_fields(line: &str) -> (r: Option<(String, String, ConnectionState)>)
    ensures
        match netstat_fields_of(line@) {
            Some(f) => r matches Some(x) && x.0@ == f.0 && x.1@ == f.1 && x.2 == f.2,
            None => r is None,
        },
{
    let text = chars_of(line);
    let w = split_words(text.as_slice());
    assert(w@.map_values(|x: Vec<char>| x@) =~= words(line@));
    if w.len() < 6 || chars_eq(w[0].as_slice(), chars_of("Proto").as_slice()) || chars_eq(
        w[0].as_slice(),
        chars_of("Active").as_slice(),
    ) {
        return None;
    }
    Some(
        (
            string_from_chars(w[3].as_slice()),
            string_from_chars(w[4].as_slice()),
            ConnectionState::from_netstat_state(w[5].as_slice()),
        ),
    )
}

/// The fields of an `lsof -i` line.
#[derive(Debug, Clone)]
pub struct LsofFields {
    pub process_name: String,
    pub pid: Option<u32>,
    /// The local address, as written.
    pub local: String,
    /// The remote address, as written; `None` for a listening socket.
    pub remote: Option<String>,
    pub state: ConnectionState,
}

/// A word of an `lsof` line that holds the addresses: one with `->`, or
/// with a colon and no `0x`.
pub open spec fn is_network_word(w: Seq<char>) -> bool {
    contains(w, "->"@) || (contains(w, ":"@) && !contains(w, "0x"@))
}

pub open spec fn network_word(w: Seq<Seq<char>>, i: int) -> Option<int>
    decreases w.len() - i,
{
    if i < 0 || i >= w.len() {
        None
    } else if is_network_word(w[i]) {
        Some(i)
    } else {
        network_word(w, i + 1)
    }
}

/// The fields of an `lsof -i` line of at least eight words that is not
/// the header: the command and pid (words 0 and 1), the addresses of its
/// first address word (split at its first `->`, else a listening
/// address), and the state its last word names.
pub open spec fn lsof_fields_of(l: Seq<char>) -> Option<
    (Seq<char>, Option<u32>, Seq<char>, Option<Seq<char>>, ConnectionState),
> {
    let w = words(l);
    if w.len() < 8 || w[0] == "COMMAND"@ {
        None
    } else {
        match network_word(w, 0) {
            None => None,
            Some(k) => {
                let n = w[k];
                let state = state_of_lsof(w.last());
                match find_sub_from(n, "->"@, 0) {
                    Some(j) => Some((w[0], parse_u32(w[1]), n.take(j), Some(n.skip(j + 2)), state)),
                    None => Some((w[0], parse_u32(w[1]), n, None, state)),
                }
            },
        }
    }
}

/// The fields of an `lsof -i` line (see `lsof_fields_of`).
pub fn lsof_line_fields(line: &str) -> (r: Option<LsofFields>)
    ensures
        match lsof_fields_of(line@) {
            Some(f) => r matches Some(x) && x.process_name@ == f.0 && x.pid == f.1 && x.local@
                == f.2 && x.state == f.4 && match f.3 {
                Some(rm) => x.remote matches Some(y) && y@ == rm,
                None => x.remote is None,
            },
            None => r is None,
        },
{
    let text = chars_of(line);
    let w = split_words(text.as_slice());
    let ghost gw = words(line@);
    assert(w@.map_values(|x: Vec<char>| x@) =~= gw);
    if w.len() < 8 || chars_eq(w[0].as_slice(), chars_of("COMMAND").as_slice()) {
        return None;
    }
    let arrow = chars_of("->");
    let colon = chars_of(":");
    let hex = chars_of("0x");
    let mut k: usize = 0;
    while k < w.len() && !(contains_exec(w[k].as_slice(), arrow.as_slice()) || (contains_exec(
        w[k].as_slice(),
        colon.as_slice(),
    ) && !contains_exec(w[k].as_slice(), hex.as_slice())))
        invariant
            k <= w@.len(),
            w@.len() == gw.len(),
            forall|j: int| 0 <= j < w@.len() ==> #[trigger] w@[j]@ == gw[j],
            arrow@ == "->"@,
            colon@ == ":"@,
            hex@ == "0x"@,
            network_word(gw, 0) == network_word(gw, k as int),
        decreases w@.len() - k,
    {
        k = k + 1;
    }
    if k >= w.len() {
        return None;
    }
    let n = w[k].as_slice();
    let state = ConnectionState::from_lsof_state(w[w.len() - 1].as_slice());
    let name = string_from_chars(w[0].as_slice());
    let pid = parse_u32_exec(w[1].as_slice());
    match find_sub_exec(n, arrow.as_slice()) {
        Some(j) => {
            proof {
                reveal_strlit("->");
                lemma_find_sub_bounds(n@, "->"@, 0);
            }
            let local = slice_chars(n, 0, j);
            let nlen = n.len();
            assert(j + 2 <= nlen);
            let remote = slice_chars(n, j + 2, nlen);
            assert(local@ =~= n@.take(j as int));
            assert(remote@ =~= n@.skip(j + 2));
            Some(
                LsofFields {
                    process_name: name,
                    pid,
                    local: string_from_chars(local.as_slice()),
                    remote: Some(string_from_chars(remote.as_slice())),
                    state,
                },
            )
        },
        None => Some(
            LsofFields {
                process_name: name,
                pid,
                local: string_from_chars(n),
                remote: None,
                state,
            },
        ),
    }
}

} // verus!

verus! {

/// Every connection is counted once and in exactly one state bucket and
/// over exactly one transport: the total is the number of connections,
/// the sum of the established, listening, time-wait and other counts, and
/// the sum of the TCP and UDP counts.
pub proof fn law_connection_counts_partition(s: Seq<NetworkConnection>)
    ensures
        ({
            let c = connection_counts(s);
            &&& c.0 == s.len()
            &&& c.0 == c.1 + c.2 + c.3 + c.4
            &&& c.0 == c.5 + c.6
        }),
    decreases s.len(),
{
    if s.len() > 0 {
        law_connection_counts_partition(s.drop_last());
    }
}


// ---------------------------------------------------------------------
// Addresses of `lsof` lines
// ---------------------------------------------------------------------

/// How an address word of `lsof` splits into a host and a port: `*:port`
/// names every local address (no host); `[host]:port` a bracketed host
/// (the port read after the character that follows the first `]`); any
/// other word is cut at its last colon. `None` when the port is not a
/// number up to 65535 or a bracketed word has no `]` or the word no colon.
pub open spec fn lsof_address_parts(s: Seq<char>) -> Option<(Option<Seq<char>>, u16)> {
    if starts_with(s, "*:"@) {
        match parse_uint(s.skip(2), 10, 65535) {
            Some(p) => Some((None, p as u16)),
            None => None,
        }
    } else if starts_with(s, "["@) {
        let k = find_char(s, ']');
        if k >= s.len() {
            None
        } else {
            match parse_uint(s.skip(k + 2), 10, 65535) {
                Some(p) => Some((Some(s.subrange(1, k)), p as u16)),
                None => None,
            }
        }
    } else {
        let i = rfind_char(s, ':');
        if i < 0 {
            None
        } else {
            match parse_uint(s.skip(i + 1), 10, 65535) {
                Some(p) => Some((Some(s.take(i)), p as u16)),
                None => None,
            }
        }
    }
}

/// A word whose port can be cut out: a bracketed word with a `]` has at
/// least one more character after it, of a single byte.
pub open spec fn lsof_address_cuttable(s: Seq<char>) -> bool {
    let k = find_char(s, ']');
    !(starts_with(s, "["@) && !starts_with(s, "*:"@) && k < s.len()) || (k + 1 < s.len() && (s[k
        + 1] as u32) < 0x80)
}

/// Whether `word` can be cut (see `lsof_address_cuttable`).
pub fn lsof_address_ok(word: &str) -> (r: bool)
    ensures
        r == lsof_address_cuttable(word@),
{
    let v = chars_of(word);
    let k = find_char_exec(v.as_slice(), ']');
    if starts_with_exec(v.as_slice(), chars_of("[").as_slice()) && !starts_with_exec(
        v.as_slice(),
        chars_of("*:").as_slice(),
    ) && k < v.len() {
        k + 1 < v.len() && (v[k + 1] as u32) < 0x80
    } else {
        true
    }
}

/// The host text and port of an `lsof` address word (see
/// `lsof_address_parts`).
pub fn split_lsof_address(word: &str) -> (r: Option<(Option<String>, u16)>)
    requires
        lsof_address_cuttable(word@),
    ensures
        match lsof_address_parts(word@) {
            None => r is None,
            Some((h, p)) => r matches Some((h2, p2)) && p2 == p && match h {
                None => h2 is None,
                Some(x) => h2 matches Some(y) && y@ == x,
            },
        },
{
    proof {
        reveal_strlit("*:");
        reveal_strlit("[");
    }
    let v = chars_of(word);
    let n = v.len();
    if starts_with_exec(v.as_slice(), chars_of("*:").as_slice()) {
        let rest = slice_chars(v.as_slice(), 2, n);
        assert(rest@ =~= v@.skip(2));
        match parse_uint_exec(rest.as_slice(), 10, 65535) {
            Some(p) => Some((None, p as u16)),
            None => None,
        }
    } else if starts_with_exec(v.as_slice(), chars_of("[").as_slice()) {
        let k = find_char_exec(v.as_slice(), ']');
        proof {
            lemma_find_char_bounds(v@, ']');
            assert(v@.take(1)[0] == "["@[0]);
            assert(v@[0] == '[');
        }
        if k >= n {
            None
        } else {
            let rest = slice_chars(v.as_slice(), k + 2, n);
            assert(rest@ =~= v@.skip(k + 2));
            match parse_uint_exec(rest.as_slice(), 10, 65535) {
                Some(p) => {
                    let host = slice_chars(v.as_slice(), 1, k);
                    assert(host@ =~= v@.subrange(1, k as int));
                    Some((Some(string_from_chars(host.as_slice())), p as u16))
                },
                None => None,
            }
        }
    } else {
        let a = segment_start(v.as_slice(), n, ':');
        assert(v@.take(n as int) =~= v@);
        if a == 0 {
            None
        } else {
            let i = a - 1;
            let rest = slice_chars(v.as_slice(), a, n);
            assert(rest@ =~= v@.skip(i + 1));
            match parse_uint_exec(rest.as_slice(), 10, 65535) {
                Some(p) => {
                    let host = slice_chars(v.as_slice(), 0, i);
                    assert(host@ =~= v@.take(i as int));
                    Some((Some(string_from_chars(host.as_slice())), p as u16))
                },
                None => None,
            }
        }
    }
}

/// The address of a split `lsof` address word: the host `ip` at `port`,
/// or every local IPv4 address (`0.0.0.0`) for the wildcard.
pub fn lsof_socket_addr(ip: Option<IpAddr>, port: u16) -> (r: SocketAddr)
    ensures
        r == (SocketAddr {
            ip: match ip {
                Some(i) => i,
                None => IpAddr::V4(0),
            },
            port,
        }),
{
    match ip {
        Some(i) => SocketAddr { ip: i, port },
        None => SocketAddr { ip: IpAddr::V4(0), port },
    }
}

/// The connection of an `lsof` line with fields `f` and its addresses;
/// a line without a remote address (a listening socket) gets
/// `0.0.0.0:0`; no bytes are known.
pub fn lsof_connection(f: LsofFields, local: SocketAddr, remote: Option<SocketAddr>, protocol: Protocol) -> (c:
    NetworkConnection)
    ensures
        c.local_addr == local,
        c.remote_addr == match remote {
            Some(r) => r,
            None => SocketAddr { ip: IpAddr::V4(0), port: 0 },
        },
        c.state == f.state,
        c.protocol == protocol,
        c.pid == f.pid,
        c.process_name == Some(f.process_name),
        c.bytes_sent == 0 && c.bytes_received == 0,
{
    NetworkConnection {
        local_addr: local,
        remote_addr: match remote {
            Some(r) => r,
            None => SocketAddr { ip: IpAddr::V4(0), port: 0 },
        },
        state: f.state,
        protocol,
        pid: f.pid,
        process_name: Some(f.process_name),
        bytes_sent: 0,
        bytes_received: 0,
    }
}


/// The two hex digits of the kernel's TCP state number `n + 1`.
pub open spec fn kernel_code(n: int) -> Seq<char> {
    if n == 0 {
        "01"@
    } else if n == 1 {
        "02"@
    } else if n == 2 {
        "03"@
    } else if n == 3 {
        "04"@
    } else if n == 4 {
        "05"@
    } else if n == 5 {
        "06"@
    } else if n == 6 {
        "07"@
    } else if n == 7 {
        "08"@
    } else if n == 8 {
        "09"@
    } else if n == 9 {
        "0A"@
    } else if n == 10 {
        "0B"@
    } else {
        "00"@
    }
}


spec fn state_rank(s: ConnectionState) -> int {
    match s {
        ConnectionState::Established => 0,
        ConnectionState::SynSent => 1,
        ConnectionState::SynReceived => 2,
        ConnectionState::FinWait1 => 3,
        ConnectionState::FinWait2 => 4,
        ConnectionState::TimeWait => 5,
        ConnectionState::Close => 6,
        ConnectionState::CloseWait => 7,
        ConnectionState::LastAck => 8,
        ConnectionState::Listen => 9,
        ConnectionState::Closing => 10,
        ConnectionState::Unknown => 11,
    }
}

/// The kernel's TCP state numbers (`include/net/tcp_states.h`), written
/// as two hex digits in `/proc/net/tcp`, name their states: 01
/// ESTABLISHED, 02 SYN_SENT, 03 SYN_RECV, 04 FIN_WAIT1, 05 FIN_WAIT2, 06
/// TIME_WAIT, 07 CLOSE, 08 CLOSE_WAIT, 09 LAST_ACK, 0A LISTEN, 0B
/// CLOSING; each gives the same state as the word `ss` prints for it, and
/// distinct numbers give distinct states.
pub proof fn law_proc_codes_are_kernel_states()
    ensures
        state_name(state_of_proc_code("01"@)) == "ESTABLISHED"@,
        state_name(state_of_proc_code("02"@)) == "SYN_SENT"@,
        state_name(state_of_proc_code("03"@)) == "SYN_RECV"@,
        state_name(state_of_proc_code("04"@)) == "FIN_WAIT1"@,
        state_name(state_of_proc_code("05"@)) == "FIN_WAIT2"@,
        state_name(state_of_proc_code("06"@)) == "TIME_WAIT"@,
        state_name(state_of_proc_code("07"@)) == "CLOSE"@,
        state_name(state_of_proc_code("08"@)) == "CLOSE_WAIT"@,
        state_name(state_of_proc_code("09"@)) == "LAST_ACK"@,
        state_name(state_of_proc_code("0A"@)) == "LISTEN"@,
        state_name(state_of_proc_code("0B"@)) == "CLOSING"@,
        state_of_proc_code("01"@) == state_of_ss("ESTAB"@),
        state_of_proc_code("02"@) == state_of_ss("SYN-SENT"@),
        state_of_proc_code("03"@) == state_of_ss("SYN-RECV"@),
        state_of_proc_code("04"@) == state_of_ss("FIN-WAIT-1"@),
        state_of_proc_code("05"@) == state_of_ss("FIN-WAIT-2"@),
        state_of_proc_code("06"@) == state_of_ss("TIME-WAIT"@),
        state_of_proc_code("07"@) == state_of_ss("CLOSE"@),
        state_of_proc_code("08"@) == state_of_ss("CLOSE-WAIT"@),
        state_of_proc_code("09"@) == state_of_ss("LAST-ACK"@),
        state_of_proc_code("0A"@) == state_of_ss("LISTEN"@),
        state_of_proc_code("0B"@) == state_of_ss("CLOSING"@),
        forall|i: int, j: int|
            0 <= i < j < 11 ==> state_of_proc_code(#[trigger] kernel_code(i)) != state_of_proc_code(
                #[trigger] kernel_code(j),
            ),
{
    assert(state_of_proc_code("01"@) == ConnectionState::Established) by { reveal_strlit("01"); }
    assert(state_of_ss("ESTAB"@) == ConnectionState::Established) by { reveal_strlit("ESTAB"); }
    assert(kernel_code(0) == "01"@);
    assert(state_of_proc_code("02"@) == ConnectionState::SynSent) by { reveal_strlit("01"); reveal_strlit("02"); assert("02"@[1] != "01"@[1]); }
    assert(state_of_ss("SYN-SENT"@) == ConnectionState::SynSent) by { reveal_strlit("ESTAB"); reveal_strlit("LISTEN"); reveal_strlit("SYN-SENT"); assert("SYN-SENT"@.len() != "ESTAB"@.len()); assert("SYN-SENT"@.len() != "LISTEN"@.len()); }
    assert(kernel_code(1) == "02"@);
    assert(state_of_proc_code("03"@) == ConnectionState::SynReceived) by { reveal_strlit("01"); reveal_strlit("02"); reveal_strlit("03"); assert("03"@[1] != "01"@[1]); assert("03"@[1] != "02"@[1]); }
    assert(state_of_ss("SYN-RECV"@) == ConnectionState::SynReceived) by { reveal_strlit("ESTAB"); reveal_strlit("LISTEN"); reveal_strlit("SYN-SENT"); reveal_strlit("SYN-RECV"); assert("SYN-RECV"@.len() != "ESTAB"@.len()); assert("SYN-RECV"@.len() != "LISTEN"@.len()); assert("SYN-RECV"@[4] != "SYN-SENT"@[4]); }
    assert(kernel_code(2) == "03"@);
    assert(state_of_proc_code("04"@) == ConnectionState::FinWait1) by { reveal_strlit("01"); reveal_strlit("02"); reveal_strlit("03"); reveal_strlit("04"); assert("04"@[1] != "01"@[1]); assert("04"@[1] != "02"@[1]); assert("04"@[1] != "03"@[1]); }
    assert(state_of_ss("FIN-WAIT-1"@) == ConnectionState::FinWait1) by { reveal_strlit("ESTAB"); reveal_strlit("LISTEN"); reveal_strlit("SYN-SENT"); reveal_strlit("SYN-RECV"); reveal_strlit("FIN-WAIT-1"); assert("FIN-WAIT-1"@.len() != "ESTAB"@.len()); assert("FIN-WAIT-1"@.len() != "LISTEN"@.len()); assert("FIN-WAIT-1"@.len() != "SYN-SENT"@.len()); assert("FIN-WAIT-1"@.len() != "SYN-RECV"@.len()); }
    assert(kernel_code(3) == "04"@);
    assert(state_of_proc_code("05"@) == ConnectionState::FinWait2) by { reveal_strlit("01"); reveal_strlit("02"); reveal_strlit("03"); reveal_strlit("04"); reveal_strlit("05"); assert("05"@[1] != "01"@[1]); assert("05"@[1] != "02"@[1]); assert("05"@[1] != "03"@[1]); assert("05"@[1] != "04"@[1]); }
    assert(state_of_ss("FIN-WAIT-2"@) == ConnectionState::FinWait2) by { reveal_strlit("ESTAB"); reveal_strlit("LISTEN"); reveal_strlit("SYN-SENT"); reveal_strlit("SYN-RECV"); reveal_strlit("FIN-WAIT-1"); reveal_strlit("FIN-WAIT-2"); assert("FIN-WAIT-2"@.len() != "ESTAB"@.len()); assert("FIN-WAIT-2"@.len() != "LISTEN"@.len()); assert("FIN-WAIT-2"@.len() != "SYN-SENT"@.len()); assert("FIN-WAIT-2"@.len() != "SYN-RECV"@.len()); assert("FIN-WAIT-2"@[9] != "FIN-WAIT-1"@[9]); }
    assert(kernel_code(4) == "05"@);
    assert(state_of_proc_code("06"@) == ConnectionState::TimeWait) by { reveal_strlit("01"); reveal_strlit("02"); reveal_strlit("03"); reveal_strlit("04"); reveal_strlit("05"); reveal_strlit("06"); assert("06"@[1] != "01"@[1]); assert("06"@[1] != "02"@[1]); assert("06"@[1] != "03"@[1]); assert("06"@[1] != "04"@[1]); assert("06"@[1] != "05"@[1]); }
    assert(state_of_ss("TIME-WAIT"@) == ConnectionState::TimeWait) by { reveal_strlit("ESTAB"); reveal_strlit("LISTEN"); reveal_strlit("SYN-SENT"); reveal_strlit("SYN-RECV"); reveal_strlit("FIN-WAIT-1"); reveal_strlit("FIN-WAIT-2"); reveal_strlit("TIME-WAIT"); assert("TIME-WAIT"@.len() != "ESTAB"@.len()); assert("TIME-WAIT"@.len() != "LISTEN"@.len()); assert("TIME-WAIT"@.len() != "SYN-SENT"@.len()); assert("TIME-WAIT"@.len() != "SYN-RECV"@.len()); assert("TIME-WAIT"@.len() != "FIN-WAIT-1"@.len()); assert("TIME-WAIT"@.len() != "FIN-WAIT-2"@.len()); }
    assert(kernel_code(5) == "06"@);
    assert(state_of_proc_code("07"@) == ConnectionState::Close) by { reveal_strlit("01"); reveal_strlit("02"); reveal_strlit("03"); reveal_strlit("04"); reveal_strlit("05"); reveal_strlit("06"); reveal_strlit("07"); assert("07"@[1] != "01"@[1]); assert("07"@[1] != "02"@[1]); assert("07"@[1] != "03"@[1]); assert("07"@[1] != "04"@[1]); assert("07"@[1] != "05"@[1]); assert("07"@[1] != "06"@[1]); }
    assert(state_of_ss("CLOSE"@) == ConnectionState::Close) by { reveal_strlit("ESTAB"); reveal_strlit("LISTEN"); reveal_strlit("SYN-SENT"); reveal_strlit("SYN-RECV"); reveal_strlit("FIN-WAIT-1"); reveal_strlit("FIN-WAIT-2"); reveal_strlit("TIME-WAIT"); reveal_strlit("CLOSE"); assert("CLOSE"@[0] != "ESTAB"@[0]); assert("CLOSE"@.len() != "LISTEN"@.len()); assert("CLOSE"@.len() != "SYN-SENT"@.len()); assert("CLOSE"@.len() != "SYN-RECV"@.len()); assert("CLOSE"@.len() != "FIN-WAIT-1"@.len()); assert("CLOSE"@.len() != "FIN-WAIT-2"@.len()); assert("CLOSE"@.len() != "TIME-WAIT"@.len()); }
    assert(kernel_code(6) == "07"@);
    assert(state_of_proc_code("08"@) == ConnectionState::CloseWait) by { reveal_strlit("01"); reveal_strlit("02"); reveal_strlit("03"); reveal_strlit("04"); reveal_strlit("05"); reveal_strlit("06"); reveal_strlit("07"); reveal_strlit("08"); assert("08"@[1] != "01"@[1]); assert("08"@[1] != "02"@[1]); assert("08"@[1] != "03"@[1]); assert("08"@[1] != "04"@[1]); assert("08"@[1] != "05"@[1]); assert("08"@[1] != "06"@[1]); assert("08"@[1] != "07"@[1]); }
    assert(state_of_ss("CLOSE-WAIT"@) == ConnectionState::CloseWait) by { reveal_strlit("ESTAB"); reveal_strlit("LISTEN"); reveal_strlit("SYN-SENT"); reveal_strlit("SYN-RECV"); reveal_strlit("FIN-WAIT-1"); reveal_strlit("FIN-WAIT-2"); reveal_strlit("TIME-WAIT"); reveal_strlit("CLOSE"); reveal_strlit("CLOSE-WAIT"); assert("CLOSE-WAIT"@.len() != "ESTAB"@.len()); assert("CLOSE-WAIT"@.len() != "LISTEN"@.len()); assert("CLOSE-WAIT"@.len() != "SYN-SENT"@.len()); assert("CLOSE-WAIT"@.len() != "SYN-RECV"@.len()); assert("CLOSE-WAIT"@[0] != "FIN-WAIT-1"@[0]); assert("CLOSE-WAIT"@[0] != "FIN-WAIT-2"@[0]); assert("CLOSE-WAIT"@.len() != "TIME-WAIT"@.len()); assert("CLOSE-WAIT"@.len() != "CLOSE"@.len()); }
    assert(kernel_code(7) == "08"@);
    assert(state_of_proc_code("09"@) == ConnectionState::LastAck) by { reveal_strlit("01"); reveal_strlit("02"); reveal_strlit("03"); reveal_strlit("04"); reveal_strlit("05"); reveal_strlit("06"); reveal_strlit("07"); reveal_strlit("08"); reveal_strlit("09"); assert("09"@[1] != "01"@[1]); assert("09"@[1] != "02"@[1]); assert("09"@[1] != "03"@[1]); assert("09"@[1] != "04"@[1]); assert("09"@[1] != "05"@[1]); assert("09"@[1] != "06"@[1]); assert("09"@[1] != "07"@[1]); assert("09"@[1] != "08"@[1]); }
    assert(state_of_ss("LAST-ACK"@) == ConnectionState::LastAck) by { reveal_strlit("ESTAB"); reveal_strlit("LISTEN"); reveal_strlit("SYN-SENT"); reveal_strlit("SYN-RECV"); reveal_strlit("FIN-WAIT-1"); reveal_strlit("FIN-WAIT-2"); reveal_strlit("TIME-WAIT"); reveal_strlit("CLOSE"); reveal_strlit("CLOSE-WAIT"); reveal_strlit("LAST-ACK"); assert("LAST-ACK"@.len() != "ESTAB"@.len()); assert("LAST-ACK"@.len() != "LISTEN"@.len()); assert("LAST-ACK"@[0] != "SYN-SENT"@[0]); assert("LAST-ACK"@[0] != "SYN-RECV"@[0]); assert("LAST-ACK"@.len() != "FIN-WAIT-1"@.len()); assert("LAST-ACK"@.len() != "FIN-WAIT-2"@.len()); assert("LAST-ACK"@.len() != "TIME-WAIT"@.len()); assert("LAST-ACK"@.len() != "CLOSE"@.len()); assert("LAST-ACK"@.len() != "CLOSE-WAIT"@.len()); }
    assert(kernel_code(8) == "09"@);
    assert(state_of_proc_code("0A"@) == ConnectionState::Listen) by { reveal_strlit("01"); reveal_strlit("02"); reveal_strlit("03"); reveal_strlit("04"); reveal_strlit("05"); reveal_strlit("06"); reveal_strlit("07"); reveal_strlit("08"); reveal_strlit("09"); reveal_strlit("0A"); assert("0A"@[1] != "01"@[1]); assert("0A"@[1] != "02"@[1]); assert("0A"@[1] != "03"@[1]); assert("0A"@[1] != "04"@[1]); assert("0A"@[1] != "05"@[1]); assert("0A"@[1] != "06"@[1]); assert("0A"@[1] != "07"@[1]); assert("0A"@[1] != "08"@[1]); assert("0A"@[1] != "09"@[1]); }
    assert(state_of_ss("LISTEN"@) == ConnectionState::Listen) by { reveal_strlit("ESTAB"); reveal_strlit("LISTEN"); assert("LISTEN"@.len() != "ESTAB"@.len()); }
    assert(kernel_code(9) == "0A"@);
    assert(state_of_proc_code("0B"@) == ConnectionState::Closing) by { reveal_strlit("01"); reveal_strlit("02"); reveal_strlit("03"); reveal_strlit("04"); reveal_strlit("05"); reveal_strlit("06"); reveal_strlit("07"); reveal_strlit("08"); reveal_strlit("09"); reveal_strlit("0A"); reveal_strlit("0B"); assert("0B"@[1] != "01"@[1]); assert("0B"@[1] != "02"@[1]); assert("0B"@[1] != "03"@[1]); assert("0B"@[1] != "04"@[1]); assert("0B"@[1] != "05"@[1]); assert("0B"@[1] != "06"@[1]); assert("0B"@[1] != "07"@[1]); assert("0B"@[1] != "08"@[1]); assert("0B"@[1] != "09"@[1]); assert("0B"@[1] != "0A"@[1]);  reveal_strlit("10"); assert("0B"@[0] != "10"@[0]); }
    assert(state_of_ss("CLOSING"@) == ConnectionState::Closing) by { reveal_strlit("ESTAB"); reveal_strlit("LISTEN"); reveal_strlit("SYN-SENT"); reveal_strlit("SYN-RECV"); reveal_strlit("FIN-WAIT-1"); reveal_strlit("FIN-WAIT-2"); reveal_strlit("TIME-WAIT"); reveal_strlit("CLOSE"); reveal_strlit("CLOSE-WAIT"); reveal_strlit("LAST-ACK"); reveal_strlit("CLOSING"); assert("CLOSING"@.len() != "ESTAB"@.len()); assert("CLOSING"@.len() != "LISTEN"@.len()); assert("CLOSING"@.len() != "SYN-SENT"@.len()); assert("CLOSING"@.len() != "SYN-RECV"@.len()); assert("CLOSING"@.len() != "FIN-WAIT-1"@.len()); assert("CLOSING"@.len() != "FIN-WAIT-2"@.len()); assert("CLOSING"@.len() != "TIME-WAIT"@.len()); assert("CLOSING"@.len() != "CLOSE"@.len()); assert("CLOSING"@.len() != "CLOSE-WAIT"@.len()); assert("CLOSING"@.len() != "LAST-ACK"@.len()); }
    assert(kernel_code(10) == "0B"@);
    assert forall|i: int| 0 <= i < 11 implies state_rank(state_of_proc_code(#[trigger] kernel_code(i)))
        == i by {
        if i == 0 {
            assert(kernel_code(i) == "01"@);
        } else if i == 1 {
            assert(kernel_code(i) == "02"@);
        } else if i == 2 {
            assert(kernel_code(i) == "03"@);
        } else if i == 3 {
            assert(kernel_code(i) == "04"@);
        } else if i == 4 {
            assert(kernel_code(i) == "05"@);
        } else if i == 5 {
            assert(kernel_code(i) == "06"@);
        } else if i == 6 {
            assert(kernel_code(i) == "07"@);
        } else if i == 7 {
            assert(kernel_code(i) == "08"@);
        } else if i == 8 {
            assert(kernel_code(i) == "09"@);
        } else if i == 9 {
            assert(kernel_code(i) == "0A"@);
        } else if i == 10 {
            assert(kernel_code(i) == "0B"@);
        }
    }
}

} // verus!
