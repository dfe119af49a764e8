//! Active diagnostics: the statuses of connectivity, port and DNS checks,
//! the reading of `nslookup` output, the rotation of the light checks run
//! on each update, the list of targets, and the issues reported about
//! ports and DNS.
//!
//! Running `ping`, `nslookup` or probing ports is left to the caller.
use vstd::prelude::*;

use crate::text::{
    chars_eq, chars_of, contains, contains_exec, decimal, find_sub_exec, find_sub_from,
    lemma_find_sub_bounds, lines, occurs_at, push_all, push_decimal, slice_chars, split_lines,
    string_from_chars, trim, trim_exec, TrimSet,
};

verus! {

/// Reachability of a target.
#[derive(Debug, Clone, PartialEq, Eq)]
pub enum ConnectivityStatus {
    Online,
    Degraded,
    Offline,
    Timeout,
    Unknown,
    Error(String),
}

/// State of a probed port.
#[derive(Debug, Clone, Copy, PartialEq, Eq, Structural)]
pub enum PortStatus {
    Open,
    Closed,
    Filtered,
    Timeout,
    Unknown,
    Error,
}

/// Outcome of a DNS lookup.
#[derive(Debug, Clone, PartialEq, Eq)]
pub enum DnsStatus {
    Success,
    Timeout,
    ServerFailure,
    NameError,
    Unknown,
    Error(String),
}

/// The text of `s` up to its first `p` (all of it when there is none).
pub open spec fn before_sub(s: Seq<char>, p: Seq<char>) -> Seq<char> {
    match find_sub_from(s, p, 0) {
        Some(j) => s.take(j),
        None => s,
    }
}

/// The record an `nslookup` line gives: the trimmed text between its
/// first `Address:` and the next one (or the end), for a line that has
/// one and does not mention `#53` (the server's own address).
pub open spec fn dns_record_of(l: Seq<char>) -> Option<Seq<char>> {
    if contains(l, "Address:"@) && !contains(l, "#53"@) {
        match find_sub_from(l, "Address:"@, 0) {
            Some(k) => Some(trim(before_sub(l.skip(k + 8), "Address:"@), TrimSet::Whitespace)),
            None => None,
        }
    } else {
        None
    }
}

/// The records the lines `ls` give, in order.
pub open spec fn dns_records(ls: Seq<Seq<char>>) -> Seq<Seq<char>>
    decreases ls.len(),
{
    if ls.len() == 0 {
        Seq::empty()
    } else {
        let r = dns_records(ls.drop_last());
        match dns_record_of(ls.last()) {
            Some(x) => r.push(x),
            None => r,
        }
    }
}

proof fn lemma_contains_found(s: Seq<char>, p: Seq<char>)
    requires
        contains(s, p),
    ensures
        find_sub_from(s, p, 0) is Some,
{
    let w = choose|i: int| occurs_at(s, p, i);
    lemma_found_from(s, p, 0, w);
}

proof fn lemma_found_from(s: Seq<char>, p: Seq<char>, i: int, w: int)
    requires
        0 <= i <= w,
        occurs_at(s, p, w),
    ensures
        find_sub_from(s, p, i) is Some,
    decreases w - i,
{
    if !occurs_at(s, p, i) {
        lemma_found_from(s, p, i + 1, w);
    }
}

/// The addresses an `nslookup` output gives (see `dns_record_of`), in
/// order.
pub fn parse_dns_records(nslookup_output: &str) -> (r: Vec<String>)
    ensures
        r@.len() == dns_records(lines(nslookup_output@)).len(),
        forall|i: int| 0 <= i < r@.len() ==> #[trigger] r@[i]@ == dns_records(
            lines(nslookup_output@),
        )[i],
{
    let text = chars_of(nslookup_output);
    let ls = split_lines(text.as_slice());
    let ghost gls = lines(nslookup_output@);
    let tag = chars_of("Address:");
    let port = chars_of("#53");
    let mut out: Vec<String> = Vec::new();
    let mut i: usize = 0;
    proof {
        reveal_strlit("Address:");
    }
    assert(gls.take(0) =~= Seq::<Seq<char>>::empty());
    while i < ls.len()
        invariant
            i <= ls@.len(),
            ls@.len() == gls.len(),
            forall|j: int| 0 <= j < ls@.len() ==> #[trigger] ls@[j]@ == gls[j],
            tag@ == "Address:"@,
            tag@.len() == 8,
            port@ == "#53"@,
            out@.len() == dns_records(gls.take(i as int)).len(),
            forall|j: int| 0 <= j < out@.len() ==> #[trigger] out@[j]@ == dns_records(
                gls.take(i as int),
            )[j],
        decreases ls@.len() - i,
    {
        let line = ls[i].as_slice();
        let ghost before = out@;
        proof {
            assert(gls.take(i + 1).drop_last() =~= gls.take(i as int));
            assert(gls.take(i + 1).last() == gls[i as int]);
        }
        if contains_exec(line, tag.as_slice()) && !contains_exec(line, port.as_slice()) {
            proof {
                lemma_contains_found(line@, tag@);
            }
            match find_sub_exec(line, tag.as_slice()) {
                Some(k) => {
                    proof {
                        lemma_find_sub_bounds(line@, tag@, 0);
                    }
                    let llen = line.len();
                    let after = slice_chars(line, k + 8, llen);
                    assert(after@ =~= line@.skip(k + 8));
                    let seg = match find_sub_exec(after.as_slice(), tag.as_slice()) {
                        Some(j) => {
                            proof {
                                lemma_find_sub_bounds(after@, tag@, 0);
                            }
                            let s = slice_chars(after.as_slice(), 0, j);
                            assert(s@ =~= after@.take(j as int));
                            s
                        },
                        None => after,
                    };
                    let rec = trim_exec(seg.as_slice(), TrimSet::Whitespace);
                    out.push(string_from_chars(rec.as_slice()));
                    proof {
                        assert forall|j: int| 0 <= j < before.len() implies out@[j] == before[j] by {}
                    }
                },
                None => {},
            }
        }
        i = i + 1;
    }
    assert(gls.take(i as int) =~= gls);
    out
}

/// How a lookup went, from the records it found.
pub fn dns_status_of(records: &Vec<String>) -> (s: DnsStatus)
    ensures
        records@.len() == 0 ==> s == DnsStatus::NameError,
        records@.len() > 0 ==> s == DnsStatus::Success,
{
    if records.len() == 0 {
        DnsStatus::NameError
    } else {
        DnsStatus::Success
    }
}

/// No banner is read from a service.
pub fn get_service_banner(port: u16) -> (r: Option<String>)
    ensures
        r is None,
{
    None
}

/// The light check run on an update.
#[derive(Debug, Clone, Copy, PartialEq, Eq, Structural)]
pub enum QuickCheck {
    Ping,
    Dns,
    Connectivity,
    LocalPorts,
}

/// The check of update number `n`: the four checks in turn.
pub open spec fn check_for(n: u32) -> QuickCheck {
    if n % 4 == 0 {
        QuickCheck::Ping
    } else if n % 4 == 1 {
        QuickCheck::Dns
    } else if n % 4 == 2 {
        QuickCheck::Connectivity
    } else {
        QuickCheck::LocalPorts
    }
}

/// Counts the updates to run one light check each.
pub struct CheckCycle {
    pub counter: u32,
}

impl CheckCycle {
    pub fn new() -> (c: CheckCycle)
        ensures
            c.counter == 0,
    {
        CheckCycle { counter: 0 }
    }

    /// The check to run now; the counter moves on (wrapping).
    pub fn next_check(&mut self) -> (k: QuickCheck)
        ensures
            k == check_for(old(self).counter),
            final(self).counter == (if old(self).counter == u32::MAX {
                0
            } else {
                old(self).counter + 1
            }),
    {
        let k = match self.counter % 4 {
            0 => QuickCheck::Ping,
            1 => QuickCheck::Dns,
            2 => QuickCheck::Connectivity,
            _ => QuickCheck::LocalPorts,
        };
        self.counter = self.counter.wrapping_add(1);
        k
    }
}

/// Adds `target` to the targets unless it is there already.
pub fn add_custom_target(targets: &mut Vec<String>, target: String)
    ensures
        (exists|i: int| 0 <= i < old(targets)@.len() && old(targets)@[i]@ == target@)
            ==> final(targets)@ == old(targets)@,
        (forall|i: int| 0 <= i < old(targets)@.len() ==> old(targets)@[i]@ != target@)
            ==> final(targets)@ == old(targets)@.push(target),
{
    let t = chars_of(target.as_str());
    let mut i: usize = 0;
    while i < targets.len()
        invariant
            i <= targets@.len(),
            targets@ == old(targets)@,
            t@ == target@,
            forall|j: int| 0 <= j < i ==> targets@[j]@ != target@,
        decreases targets@.len() - i,
    {
        if chars_eq(chars_of(targets[i].as_str()).as_slice(), t.as_slice()) {
            return;
        }
        i = i + 1;
    }
    targets.push(target);
}

/// Port 80 or 443.
pub open spec fn is_web_port(p: u16) -> bool {
    p == 80 || p == 443
}

/// How many of the probed ports are web ports found closed.
pub open spec fn closed_web_ports(ports: Seq<(u16, PortStatus)>) -> nat
    decreases ports.len(),
{
    if ports.len() == 0 {
        0
    } else {
        closed_web_ports(ports.drop_last()) + if ports.last().1 == PortStatus::Closed
            && is_web_port(ports.last().0) {
            1nat
        } else {
            0nat
        }
    }
}

/// How many lookups did not succeed.
pub open spec fn dns_failures(dns: Seq<DnsStatus>) -> nat
    decreases dns.len(),
{
    if dns.len() == 0 {
        0
    } else {
        dns_failures(dns.drop_last()) + if dns.last() is Success {
            0nat
        } else {
            1nat
        }
    }
}

/// The issues reported about ports and DNS: `<n> critical ports
/// inaccessible` when web ports were found closed, then `<n> DNS
/// resolution failures` when lookups failed.
pub open spec fn port_and_dns_issues(ports: Seq<(u16, PortStatus)>, dns: Seq<DnsStatus>) -> Seq<Seq<char>> {
    let p = closed_web_ports(ports);
    let d = dns_failures(dns);
    let a: Seq<Seq<char>> = if p > 0 {
        seq![decimal(p) + " critical ports inaccessible"@]
    } else {
        Seq::empty()
    };
    if d > 0 {
        a.push(decimal(d) + " DNS resolution failures"@)
    } else {
        a
    }
}

proof fn lemma_closed_web_ports_bounded(ports: Seq<(u16, PortStatus)>)
    ensures
        closed_web_ports(ports) <= ports.len(),
    decreases ports.len(),
{
    if ports.len() > 0 {
        lemma_closed_web_ports_bounded(ports.drop_last());
    }
}

proof fn lemma_dns_failures_bounded(dns: Seq<DnsStatus>)
    ensures
        dns_failures(dns) <= dns.len(),
    decreases dns.len(),
{
    if dns.len() > 0 {
        lemma_dns_failures_bounded(dns.drop_last());
    }
}

/// The issues reported about probed ports and lookups (see
/// `port_and_dns_issues`).
pub fn port_and_dns_issue_messages(ports: &[(u16, PortStatus)], dns: &[DnsStatus]) -> (r: Vec<String>)
    ensures
        r@.len() == port_and_dns_issues(ports@, dns@).len(),
        forall|i: int| 0 <= i < r@.len() ==> #[trigger] r@[i]@ == port_and_dns_issues(ports@, dns@)[i],
{
    let mut closed: u64 = 0;
    let mut i: usize = 0;
    assert(ports@.take(0) =~= Seq::<(u16, PortStatus)>::empty());
    while i < ports.len()
        invariant
            i <= ports@.len(),
            closed == closed_web_ports(ports@.take(i as int)),
            closed <= i,
        decreases ports@.len() - i,
    {
        assert(ports@.take(i + 1).drop_last() =~= ports@.take(i as int));
        if ports[i].1 == PortStatus::Closed && (ports[i].0 == 80 || ports[i].0 == 443) {
            closed = closed + 1;
        }
        i = i + 1;
    }
    assert(ports@.take(i as int) =~= ports@);
    let mut failed: u64 = 0;
    let mut j: usize = 0;
    assert(dns@.take(0) =~= Seq::<DnsStatus>::empty());
    while j < dns.len()
        invariant
            j <= dns@.len(),
            failed == dns_failures(dns@.take(j as int)),
            failed <= j,
        decreases dns@.len() - j,
    {
        assert(dns@.take(j + 1).drop_last() =~= dns@.take(j as int));
        match dns[j] {
            DnsStatus::Success => {},
            _ => {
                failed = failed + 1;
            },
        }
        j = j + 1;
    }
    assert(dns@.take(j as int) =~= dns@);
    let mut r: Vec<String> = Vec::new();
    if closed > 0 {
        let mut m: Vec<char> = Vec::new();
        push_decimal(&mut m, closed);
        push_all(&mut m, chars_of(" critical ports inaccessible").as_slice());
        r.push(string_from_chars(m.as_slice()));
    }
    if failed > 0 {
        let mut m: Vec<char> = Vec::new();
        push_decimal(&mut m, failed);
        push_all(&mut m, chars_of(" DNS resolution failures").as_slice());
        r.push(string_from_chars(m.as_slice()));
    }
    assert(r@.len() == port_and_dns_issues(ports@, dns@).len());
    r
}

} // verus!

verus! {

/// The light checks come round every four updates.
pub proof fn law_check_cycle(n: u32)
    requires
        n <= u32::MAX - 4,
    ensures
        check_for(n) == check_for((n + 4) as u32),
        check_for(n) != check_for((n + 1) as u32),
{
}

/// The targets after adding `t` to `ts`.
pub open spec fn with_target(ts: Seq<String>, t: String) -> Seq<String> {
    if exists|i: int| 0 <= i < ts.len() && ts[i]@ == t@ {
        ts
    } else {
        ts.push(t)
    }
}

/// Adding a target that was just added changes nothing.
pub proof fn law_add_target_idempotent(ts: Seq<String>, t: String)
    ensures
        with_target(with_target(ts, t), t) == with_target(ts, t),
{
    let once = with_target(ts, t);
    if !(exists|i: int| 0 <= i < ts.len() && ts[i]@ == t@) {
        assert(once[ts.len() as int]@ == t@);
    }
}

} // verus!
