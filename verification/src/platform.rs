//! Parsing of the platforms' interface counter sources: Linux's
//! `/proc/net/dev` and the output of macOS's `netstat -I <dev> -b`.
//! Reading those sources is left to the caller.
use vstd::prelude::*;

use crate::clock::now_millis;
use crate::device::NetworkStats;
use crate::error::{ErrorKind, NetwatchError, Result};
use crate::text::{
    chars_eq, chars_of, find_char, lemma_find_char, lines, parse_u64, parse_u64_exec,
    parse_u64_or, parse_u64_or_exec, slice_chars, split_lines, split_words, starts_with,
    starts_with_exec, string_from_chars, string_of, trim, trim_end, trim_end_exec, trim_exec, words,
    TrimSet,
};

verus! {

// ---------------------------------------------------------------------
// /proc/net/dev
// ---------------------------------------------------------------------

/// The interface a `/proc/net/dev` line describes: its first word
/// without trailing colons.
pub open spec fn line_iface(line: Seq<char>) -> Option<Seq<char>> {
    let w = words(line);
    if w.len() > 0 {
        Some(trim_end(w[0], TrimSet::Char(':')))
    } else {
        None
    }
}

/// Word `k` of a line read as a counter, 0 when absent or not a number.
pub open spec fn counter(w: Seq<Seq<char>>, k: int) -> u64 {
    if 0 <= k < w.len() {
        parse_u64_or(w[k], 0)
    } else {
        0
    }
}

/// Index of the first line at or after `i` that describes `dev`, or -1.
pub open spec fn first_iface_line(ls: Seq<Seq<char>>, dev: Seq<char>, i: int) -> int
    decreases ls.len() - i,
{
    if i < 0 || i >= ls.len() {
        -1
    } else if line_iface(ls[i]) == Some(dev) {
        i
    } else {
        first_iface_line(ls, dev, i + 1)
    }
}

/// The counters a `/proc/net/dev` line holds: received bytes, packets,
/// errors and drops in words 1 to 4, sent ones in words 9 to 12.
pub open spec fn proc_line_stats(line: Seq<char>, timestamp: u64) -> NetworkStats {
    let w = words(line);
    NetworkStats {
        timestamp,
        bytes_in: counter(w, 1),
        packets_in: counter(w, 2),
        errors_in: counter(w, 3),
        drops_in: counter(w, 4),
        bytes_out: counter(w, 9),
        packets_out: counter(w, 10),
        errors_out: counter(w, 11),
        drops_out: counter(w, 12),
    }
}

/// The counters of `dev` in `/proc/net/dev` content: those of the first
/// line after the two header lines that names it, if any.
pub open spec fn proc_net_dev_stats(content: Seq<char>, dev: Seq<char>, timestamp: u64) -> Option<
    NetworkStats,
> {
    let ls = lines(content);
    let i = first_iface_line(ls, dev, 2);
    if i >= 0 {
        Some(proc_line_stats(ls[i], timestamp))
    } else {
        None
    }
}

fn counter_exec(w: &Vec<Vec<char>>, k: usize) -> (r: u64)
    ensures
        r == counter(w@.map_values(|x: Vec<char>| x@), k as int),
{
    if k < w.len() {
        parse_u64_or_exec(w[k].as_slice(), 0)
    } else {
        0
    }
}

/// Names of interfaces whose counters are not reported by default:
/// loopback, Docker bridges and virtual Ethernet pairs.
pub open spec fn is_virtual_iface(name: Seq<char>) -> bool {
    ||| starts_with(name, "lo"@)
    ||| starts_with(name, "docker"@)
    ||| starts_with(name, "veth"@)
    ||| starts_with(name, "br-"@)
}

/// The interface a `/proc/net/dev` line lists: what precedes its first
/// colon, trimmed.
pub open spec fn listed_name(line: Seq<char>) -> Seq<char> {
    trim(line.take(find_char(line, ':')), TrimSet::Whitespace)
}

/// The interfaces named by a sequence of `/proc/net/dev` lines, without
/// blank names and virtual interfaces, in order.
pub open spec fn listed_devices(ls: Seq<Seq<char>>) -> Seq<Seq<char>>
    decreases ls.len(),
{
    if ls.len() == 0 {
        Seq::empty()
    } else {
        let rest = listed_devices(ls.drop_last());
        let n = listed_name(ls.last());
        if n.len() > 0 && !is_virtual_iface(n) {
            rest.push(n)
        } else {
            rest
        }
    }
}

pub open spec fn proc_net_dev_devices(content: Seq<char>) -> Seq<Seq<char>> {
    let ls = lines(content);
    if ls.len() >= 2 {
        listed_devices(ls.skip(2))
    } else {
        Seq::empty()
    }
}

/// The reader of Linux's `/proc/net/dev`.
#[derive(Debug)]
pub struct LinuxReader;

impl LinuxReader {
    pub fn new() -> (r: LinuxReader) {
        LinuxReader
    }

    /// The counters of `device` in `/proc/net/dev` content `content`,
    /// stamped `timestamp`; `DeviceNotFound` with the device's name when
    /// no line after the two header lines names it.
    pub fn parse_proc_net_dev_at(&self, content: &str, device: &str, timestamp: u64) -> (r: Result<
        NetworkStats,
    >)
        ensures
            match proc_net_dev_stats(content@, device@, timestamp) {
                Some(s) => r == Ok::<NetworkStats, NetwatchError>(s),
                None => r matches Err(e) && e.kind() == ErrorKind::DeviceNotFound && e.msg()
                    == device@,
            },
    {
        let text = chars_of(content);
        let dev = chars_of(device);
        let ls = split_lines(text.as_slice());
        let ghost gls = lines(content@);
        let mut i: usize = 2;
        while i < ls.len()
            invariant
                2 <= i,
                ls@.len() == gls.len(),
                forall|j: int| 0 <= j < ls@.len() ==> #[trigger] ls@[j]@ == gls[j],
                gls == lines(content@),
                dev@ == device@,
                first_iface_line(gls, device@, 2) == first_iface_line(gls, device@, i as int),
            decreases ls@.len() - i,
        {
            let w = split_words(ls[i].as_slice());
            let ghost gw = words(gls[i as int]);
            assert(w@.map_values(|x: Vec<char>| x@) =~= gw);
            if w.len() > 0 {
                let name = trim_end_exec(w[0].as_slice(), TrimSet::Char(':'));
                if chars_eq(name.as_slice(), dev.as_slice()) {
                    assert(line_iface(gls[i as int]) == Some(device@));
                    let s = NetworkStats {
                        timestamp,
                        bytes_in: counter_exec(&w, 1),
                        packets_in: counter_exec(&w, 2),
                        errors_in: counter_exec(&w, 3),
                        drops_in: counter_exec(&w, 4),
                        bytes_out: counter_exec(&w, 9),
                        packets_out: counter_exec(&w, 10),
                        errors_out: counter_exec(&w, 11),
                        drops_out: counter_exec(&w, 12),
                    };
                    return Ok(s);
                }
            }
            i = i + 1;
        }
        Err(NetwatchError::DeviceNotFound(string_from_chars(dev.as_slice())))
    }

    /// The counters of `device` in `/proc/net/dev` content, stamped with
    /// the current time (see `parse_proc_net_dev_at`).
    pub fn parse_proc_net_dev(&self, content: &str, device: &str) -> (r: Result<NetworkStats>)
        ensures
            match proc_net_dev_stats(content@, device@, 0) {
                Some(s) => r matches Ok(t) && t == NetworkStats { timestamp: t.timestamp, ..s },
                None => r matches Err(e) && e.kind() == ErrorKind::DeviceNotFound && e.msg()
                    == device@,
            },
    {
        let now = now_millis();
        self.parse_proc_net_dev_at(content, device, now)
    }

    /// The interfaces `/proc/net/dev` content lists after its two header
    /// lines, in order, leaving out loopback, `docker*`, `veth*` and
    /// `br-*` interfaces.
    pub fn parse_device_list(&self, content: &str) -> (r: Vec<String>)
        ensures
            r@.len() == proc_net_dev_devices(content@).len(),
            forall|i: int| 0 <= i < r@.len() ==> #[trigger] r@[i]@ == proc_net_dev_devices(
                content@,
            )[i],
    {
        let text = chars_of(content);
        let ls = split_lines(text.as_slice());
        let ghost gls = lines(content@);
        let mut out: Vec<String> = Vec::new();
        let ghost mut acc: Seq<Seq<char>> = Seq::empty();
        let mut i: usize = 2;
        if ls.len() < 2 {
            return out;
        }
        assert(gls.skip(2).take(0) =~= Seq::<Seq<char>>::empty());
        while i < ls.len()
            invariant
                2 <= i <= ls@.len(),
                ls@.len() == gls.len(),
                forall|j: int| 0 <= j < ls@.len() ==> #[trigger] ls@[j]@ == gls[j],
                gls == lines(content@),
                acc == listed_devices(gls.skip(2).take(i - 2)),
                out@.len() == acc.len(),
                forall|j: int| 0 <= j < out@.len() ==> #[trigger] out@[j]@ == acc[j],
            decreases ls@.len() - i,
        {
            let line = ls[i].as_slice();
            let mut k: usize = 0;
            while k < line.len() && line[k] != ':'
                invariant
                    k <= line@.len(),
                    forall|j: int| 0 <= j < k ==> line@[j] != ':',
                decreases line@.len() - k,
            {
                k = k + 1;
            }
            proof {
                lemma_find_char(line@, ':', k as int);
            }
            let head = slice_chars(line, 0, k);
            assert(head@ =~= line@.take(k as int));
            let name = trim_exec(head.as_slice(), TrimSet::Whitespace);
            let keep = name.len() > 0 && !(starts_with_exec(name.as_slice(), chars_of("lo").as_slice())
                || starts_with_exec(name.as_slice(), chars_of("docker").as_slice())
                || starts_with_exec(name.as_slice(), chars_of("veth").as_slice())
                || starts_with_exec(name.as_slice(), chars_of("br-").as_slice()));
            proof {
                let t = gls.skip(2).take(i - 1);
                assert(t.drop_last() =~= gls.skip(2).take(i - 2));
                assert(t.last() == gls[i as int]);
                assert(listed_name(gls[i as int]) == name@);
                if keep {
                    acc = acc.push(name@);
                }
                assert(acc == listed_devices(t));
            }
            if keep {
                out.push(string_from_chars(name.as_slice()));
            }
            i = i + 1;
        }
        assert(gls.skip(2).take(i - 2) =~= gls.skip(2));
        out
    }
}

// ---------------------------------------------------------------------
// netstat -I <dev> -b
// ---------------------------------------------------------------------

/// The device name padded with spaces to at least ten characters, as
/// `format!("{device:<10}")` writes it.
pub open spec fn padded_name(dev: Seq<char>) -> Seq<char> {
    if dev.len() >= 10 {
        dev
    } else {
        dev + Seq::new((10 - dev.len()) as nat, |i: int| ' ')
    }
}

/// The counters a `netstat -I <dev> -b` line for `dev` gives, when it
/// starts with the padded device name and words 3 to 8 of the rest are
/// all numbers.
pub open spec fn netstat_line_stats(line: Seq<char>, dev: Seq<char>, timestamp: u64) -> Option<
    NetworkStats,
> {
    let p = padded_name(dev);
    if !starts_with(line, p) {
        None
    } else {
        let w = words(line.skip(p.len() as int));
        if w.len() >= 10 && parse_u64(w[3]) is Some && parse_u64(w[4]) is Some && parse_u64(
            w[5],
        ) is Some && parse_u64(w[6]) is Some && parse_u64(w[7]) is Some && parse_u64(
            w[8],
        ) is Some {
            Some(
                NetworkStats {
                    timestamp,
                    packets_in: parse_u64(w[3])->0,
                    errors_in: parse_u64(w[4])->0,
                    bytes_in: parse_u64(w[5])->0,
                    packets_out: parse_u64(w[6])->0,
                    errors_out: parse_u64(w[7])->0,
                    bytes_out: parse_u64(w[8])->0,
                    drops_in: 0,
                    drops_out: 0,
                },
            )
        } else {
            None
        }
    }
}

/// The counters from the first line of `ls` at or after `i` that gives
/// them.
pub open spec fn netstat_stats_from(ls: Seq<Seq<char>>, dev: Seq<char>, timestamp: u64, i: int) -> Option<
    NetworkStats,
>
    decreases ls.len() - i,
{
    if i < 0 || i >= ls.len() {
        None
    } else {
        match netstat_line_stats(ls[i], dev, timestamp) {
            Some(s) => Some(s),
            None => netstat_stats_from(ls, dev, timestamp, i + 1),
        }
    }
}

/// The reader of interface counters on macOS.
#[derive(Debug)]
pub struct MacOSReader;

impl MacOSReader {
    pub fn new() -> (r: MacOSReader) {
        MacOSReader
    }

    /// The counters of `device` in the output of `netstat -I <device> -b`,
    /// stamped `timestamp`: those of the first line that starts with the
    /// device name padded to ten characters and carries six numeric
    /// counters; `DeviceNotFound` with the device's name otherwise.
    pub fn parse_netstat_output_at(&self, output: &str, device: &str, timestamp: u64) -> (r: Result<
        NetworkStats,
    >)
        ensures
            match netstat_stats_from(lines(output@), device@, timestamp, 0) {
                Some(s) => r == Ok::<NetworkStats, NetwatchError>(s),
                None => r matches Err(e) && e.kind() == ErrorKind::DeviceNotFound && e.msg()
                    == device@,
            },
    {
        let text = chars_of(output);
        let dev = chars_of(device);
        let mut prefix = dev.clone();
        while prefix.len() < 10
            invariant
                dev@ == device@,
                prefix@.len() <= 10 || prefix@ == dev@,
                prefix@.len() >= dev@.len(),
                prefix@.take(dev@.len() as int) == dev@,
                forall|j: int| dev@.len() <= j < prefix@.len() ==> prefix@[j] == ' ',
            decreases 10 - prefix@.len(),
        {
            prefix.push(' ');
        }
        assert(prefix@ =~= padded_name(device@));
        let ls = split_lines(text.as_slice());
        let ghost gls = lines(output@);
        let mut i: usize = 0;
        while i < ls.len()
            invariant
                ls@.len() == gls.len(),
                forall|j: int| 0 <= j < ls@.len() ==> #[trigger] ls@[j]@ == gls[j],
                gls == lines(output@),
                dev@ == device@,
                prefix@ == padded_name(device@),
                netstat_stats_from(gls, device@, timestamp, 0) == netstat_stats_from(
                    gls,
                    device@,
                    timestamp,
                    i as int,
                ),
            decreases ls@.len() - i,
        {
            let line = ls[i].as_slice();
            if starts_with_exec(line, prefix.as_slice()) {
                let rest = slice_chars(line, prefix.len(), line.len());
                assert(rest@ =~= line@.skip(prefix@.len() as int));
                let w = split_words(rest.as_slice());
                if w.len() >= 10 {
                    let a = parse_u64_exec(w[3].as_slice());
                    let b = parse_u64_exec(w[4].as_slice());
                    let c = parse_u64_exec(w[5].as_slice());
                    let d = parse_u64_exec(w[6].as_slice());
                    let e = parse_u64_exec(w[7].as_slice());
                    let f = parse_u64_exec(w[8].as_slice());
                    if let (Some(packets_in), Some(errors_in), Some(bytes_in), Some(packets_out), Some(
                        errors_out,
                    ), Some(bytes_out)) = (a, b, c, d, e, f) {
                        return Ok(
                            NetworkStats {
                                timestamp,
                                bytes_in,
                                bytes_out,
                                packets_in,
                                packets_out,
                                errors_in,
                                errors_out,
                                drops_in: 0,
                                drops_out: 0,
                            },
                        );
                    }
                }
            }
            i = i + 1;
        }
        Err(NetwatchError::DeviceNotFound(string_from_chars(dev.as_slice())))
    }

    /// The counters of `device` in `netstat` output, stamped with the
    /// current time (see `parse_netstat_output_at`).
    pub fn parse_netstat_output(&self, output: &str, device: &str) -> (r: Result<NetworkStats>)
        ensures
            match netstat_stats_from(lines(output@), device@, 0, 0) {
                Some(s) => r matches Ok(t) && t == NetworkStats { timestamp: t.timestamp, ..s },
                None => r matches Err(e) && e.kind() == ErrorKind::DeviceNotFound && e.msg()
                    == device@,
            },
    {
        let now = now_millis();
        let r = self.parse_netstat_output_at(output, device, now);
        proof {
            lemma_netstat_stamp(lines(output@), device@, now, 0);
        }
        r
    }

    /// Whether an interface name that `getifaddrs` reports is added to a
    /// device list that already holds `known`: it is not loopback
    /// (`lo*`) and not listed yet.
    pub fn admits_device(&self, known: &Vec<String>, name: &str) -> (r: bool)
        ensures
            r == (!starts_with(name@, "lo"@) && forall|i: int|
                0 <= i < known@.len() ==> #[trigger] known@[i]@ != name@),
    {
        let n = chars_of(name);
        if starts_with_exec(n.as_slice(), chars_of("lo").as_slice()) {
            return false;
        }
        let mut i: usize = 0;
        while i < known.len()
            invariant
                i <= known@.len(),
                n@ == name@,
                forall|j: int| 0 <= j < i ==> #[trigger] known@[j]@ != name@,
            decreases known@.len() - i,
        {
            let k = chars_of(known[i].as_str());
            if chars_eq(k.as_slice(), n.as_slice()) {
                return false;
            }
            i = i + 1;
        }
        true
    }
}

/// The stamp of a netstat reading does not change which line gives it.
pub proof fn lemma_netstat_stamp(ls: Seq<Seq<char>>, dev: Seq<char>, t: u64, i: int)
    ensures
        match netstat_stats_from(ls, dev, t, i) {
            Some(s) => netstat_stats_from(ls, dev, 0, i) == Some(NetworkStats { timestamp: 0, ..s }),
            None => netstat_stats_from(ls, dev, 0, i) is None,
        },
    decreases ls.len() - i,
{
    if 0 <= i < ls.len() {
        lemma_netstat_stamp(ls, dev, t, i + 1);
    }
}

// ---------------------------------------------------------------------
// Choosing the reader
// ---------------------------------------------------------------------

/// The operating system the monitor runs on.
#[derive(Debug, Clone, Copy, PartialEq, Eq, Structural)]
pub enum Platform {
    Linux,
    MacOS,
    Other,
}

/// The counter reader of a platform.
#[derive(Debug)]
pub enum PlatformReader {
    Linux(LinuxReader),
    MacOS(MacOSReader),
}

/// The counter reader for `platform`; a `Platform` error for a platform
/// without one.
pub fn create_reader(platform: Platform) -> (r: Result<PlatformReader>)
    ensures
        platform == Platform::Linux ==> r matches Ok(PlatformReader::Linux(_)),
        platform == Platform::MacOS ==> r matches Ok(PlatformReader::MacOS(_)),
        platform == Platform::Other ==> (r matches Err(e) && e.kind() == ErrorKind::Platform
            && e.msg() == "Unsupported platform"@),
{
    match platform {
        Platform::Linux => Ok(PlatformReader::Linux(LinuxReader::new())),
        Platform::MacOS => Ok(PlatformReader::MacOS(MacOSReader::new())),
        Platform::Other => Err(NetwatchError::Platform(string_of("Unsupported platform"))),
    }
}

} // verus!
