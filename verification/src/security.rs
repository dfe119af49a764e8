//! Security event tracking: a bounded log of suspicious events with
//! per-kind counters, per-source rate limiting, summary statistics and
//! anomaly detection over the last minute.
//!
//! Times are milliseconds on the caller's clock; the methods without a
//! `_at` suffix read the wall clock.
use vstd::prelude::*;

use crate::clock::now_millis;
use crate::error::{ErrorKind, NetwatchError, Result};
use crate::text::{chars_eq, chars_of, string_of};

verus! {

/// How many events the log keeps; older ones are dropped first.
pub const MAX_EVENTS: usize = 1000;

/// Length of a rate-limiting window, in milliseconds.
pub const RATE_WINDOW_MS: u64 = 60_000;

pub const MINUTE_MS: u64 = 60_000;

pub const HOUR_MS: u64 = 3_600_000;

pub const DAY_MS: u64 = 86_400_000;

/// A security-relevant event.
#[derive(Debug, Clone, PartialEq, Eq)]
pub enum SecurityEvent {
    /// Invalid input (injection, traversal, ...).
    InvalidInput { input_type: String, attempted_value: String, source: String },
    /// Suspicious file access pattern.
    SuspiciousFileAccess { path: String, access_type: String },
    /// Rate limiting triggered.
    RateLimitExceeded { source: String, attempt_count: u32 },
    /// Configuration tampering.
    ConfigTampering { config_field: String, old_value: String, new_value: String },
    /// Resource exhaustion attempt.
    ResourceExhaustion { resource_type: String, usage_amount: u64, limit: u64 },
}

/// The counter an event is tallied under.
pub open spec fn event_key(e: SecurityEvent) -> Seq<char> {
    match e {
        SecurityEvent::InvalidInput { input_type, .. } => "invalid_input_"@ + input_type@,
        SecurityEvent::SuspiciousFileAccess { .. } => "suspicious_file_access"@,
        SecurityEvent::RateLimitExceeded { .. } => "rate_limit_exceeded"@,
        SecurityEvent::ConfigTampering { .. } => "config_tampering"@,
        SecurityEvent::ResourceExhaustion { .. } => "resource_exhaustion"@,
    }
}

/// Events that raise an alert when recorded.
pub open spec fn is_critical(e: SecurityEvent) -> bool {
    e is ConfigTampering || e is SuspiciousFileAccess || e is ResourceExhaustion
}

/// The counter key of `event` (e.g. `"invalid_input_interface_name"`).
pub fn event_key_exec(event: &SecurityEvent) -> (k: String)
    ensures
        k@ == event_key(*event),
{
    match event {
        SecurityEvent::InvalidInput { input_type, .. } => {
            let mut k = string_of("invalid_input_");
            k.append(input_type.as_str());
            k
        },
        SecurityEvent::SuspiciousFileAccess { .. } => string_of("suspicious_file_access"),
        SecurityEvent::RateLimitExceeded { .. } => string_of("rate_limit_exceeded"),
        SecurityEvent::ConfigTampering { .. } => string_of("config_tampering"),
        SecurityEvent::ResourceExhaustion { .. } => string_of("resource_exhaustion"),
    }
}

/// Whether recording `event` raises an alert.
pub fn is_critical_event(event: &SecurityEvent) -> (r: bool)
    ensures
        r == is_critical(*event),
{
    match event {
        SecurityEvent::ConfigTampering { .. } => true,
        SecurityEvent::SuspiciousFileAccess { .. } => true,
        SecurityEvent::ResourceExhaustion { .. } => true,
        _ => false,
    }
}

/// `c + 1`, wrapping to 0 past `u32::MAX` (the counters' arithmetic in
/// an optimised build).
pub open spec fn wrap_inc(c: u32) -> u32 {
    if c == u32::MAX {
        0
    } else {
        (c + 1) as u32
    }
}

fn wrap_inc_exec(c: u32) -> (r: u32)
    ensures
        r == wrap_inc(c),
{
    if c == u32::MAX {
        0
    } else {
        c + 1
    }
}

// ---------------------------------------------------------------------
// Association lists keyed by strings
// ---------------------------------------------------------------------

/// Index of the first entry of `s` whose key is `k`, or -1.
pub open spec fn key_pos<V>(s: Seq<(Seq<char>, V)>, k: Seq<char>) -> int
    decreases s.len(),
{
    if s.len() == 0 {
        -1
    } else if s[0].0 == k {
        0
    } else {
        let p = key_pos(s.drop_first(), k);
        if p < 0 {
            -1
        } else {
            p + 1
        }
    }
}

pub proof fn lemma_key_pos<V>(s: Seq<(Seq<char>, V)>, k: Seq<char>, p: int)
    requires
        -1 <= p < s.len(),
        forall|j: int| 0 <= j < s.len() && (p < 0 || j < p) ==> s[j].0 != k,
        p >= 0 ==> s[p].0 == k,
    ensures
        key_pos(s, k) == p,
    decreases s.len(),
{
    if s.len() > 0 && p != 0 {
        if p > 0 {
            lemma_key_pos(s.drop_first(), k, p - 1);
        } else {
            assert forall|j: int| 0 <= j < s.drop_first().len() implies s.drop_first()[j].0
                != k by {
                assert(s.drop_first()[j] == s[j + 1]);
            }
            lemma_key_pos(s.drop_first(), k, -1);
        }
    }
}

/// Keys of an association list are pairwise distinct.
pub open spec fn distinct_keys<V>(s: Seq<(Seq<char>, V)>) -> bool {
    forall|i: int, j: int| 0 <= i < j < s.len() ==> s[i].0 != s[j].0
}

/// The value stored under `k`, if any.
pub open spec fn lookup<V>(s: Seq<(Seq<char>, V)>, k: Seq<char>) -> Option<V> {
    let p = key_pos(s, k);
    if p >= 0 {
        Some(s[p].1)
    } else {
        None
    }
}

pub proof fn lemma_key_pos_bounds<V>(s: Seq<(Seq<char>, V)>, k: Seq<char>)
    ensures
        -1 <= key_pos(s, k) < s.len(),
        key_pos(s, k) >= 0 ==> s[key_pos(s, k)].0 == k,
        key_pos(s, k) < 0 ==> forall|j: int| 0 <= j < s.len() ==> s[j].0 != k,
    decreases s.len(),
{
    if s.len() > 0 && s[0].0 != k {
        lemma_key_pos_bounds(s.drop_first(), k);
        assert forall|j: int| 0 <= j < s.len() && key_pos(s, k) < 0 implies s[j].0 != k by {
            if j > 0 {
                assert(s[j] == s.drop_first()[j - 1]);
            }
        }
    }
}

// ---------------------------------------------------------------------
// The monitor
// ---------------------------------------------------------------------

/// A rate-limit window: when it started and how many checks it saw.
struct RateWindow {
    key: String,
    started: u64,
    count: u32,
}

/// Tracks security events and rate limits.
pub struct SecurityMonitor {
    events: Vec<(u64, SecurityEvent)>,
    event_counts: Vec<(String, u32)>,
    rate_limits: Vec<RateWindow>,
    max_events: usize,
}

/// Summary of the recorded events.
#[derive(Debug, Clone)]
pub struct SecurityStatistics {
    pub total_events: usize,
    pub events_last_hour: usize,
    pub events_last_day: usize,
    pub critical_events: usize,
    /// Per-kind counters, in the order the kinds were first recorded.
    pub event_types: Vec<(String, u32)>,
}

/// An anomaly found among recent events.
#[derive(Debug, Clone)]
pub enum SecurityAnomaly {
    /// More than ten events within `time_window_secs` seconds.
    EventBurst { event_count: usize, time_window_secs: u64 },
    /// More than three invalid inputs from one source within the last
    /// minute.
    RepeatedInvalidInput { source: String, attempt_count: u32 },
}

pub open spec fn counts_view(s: Seq<(String, u32)>) -> Seq<(Seq<char>, u32)> {
    s.map_values(|p: (String, u32)| (p.0@, p.1))
}

/// The event log with counters bumped for a new event `e` at `t`: the
/// event appended (the oldest dropped past the capacity) and its kind's
/// counter incremented, or created at 1.
pub open spec fn counts_after(c: Seq<(Seq<char>, u32)>, key: Seq<char>) -> Seq<(Seq<char>, u32)> {
    let p = key_pos(c, key);
    if p >= 0 {
        c.update(p, (key, wrap_inc(c[p].1)))
    } else {
        c.push((key, 1u32))
    }
}

pub open spec fn log_after(log: Seq<(u64, SecurityEvent)>, t: u64, e: SecurityEvent) -> Seq<
    (u64, SecurityEvent),
> {
    let l = log.push((t, e));
    if l.len() > MAX_EVENTS {
        l.drop_first()
    } else {
        l
    }
}

/// One rate-limit check of `key` with limit `max` at time `now` on the
/// windows `w`: the new windows and whether the check passes. A new key
/// opens a window with one check; a window older than a minute restarts
/// at `now` with one check; otherwise the check is counted and passes
/// while the count stays within `max`.
pub open spec fn rate_step(w: Seq<(Seq<char>, (u64, u32))>, key: Seq<char>, max: u32, now: u64) -> (
    Seq<(Seq<char>, (u64, u32))>,
    bool,
) {
    let p = key_pos(w, key);
    if p < 0 {
        (w.push((key, (now, 1u32))), true)
    } else {
        let (started, count) = w[p].1;
        if now > started && now - started > RATE_WINDOW_MS {
            (w.update(p, (key, (now, 1u32))), true)
        } else {
            let c = wrap_inc(count);
            (w.update(p, (key, (started, c))), c <= max)
        }
    }
}

/// Entries of `log` stamped after `now - window`.
pub open spec fn count_recent(log: Seq<(u64, SecurityEvent)>, now: u64, window: u64) -> nat
    decreases log.len(),
{
    if log.len() == 0 {
        0
    } else {
        count_recent(log.drop_last(), now, window) + if log.last().0 + window > now {
            1nat
        } else {
            0nat
        }
    }
}

pub open spec fn count_critical(log: Seq<(u64, SecurityEvent)>) -> nat
    decreases log.len(),
{
    if log.len() == 0 {
        0
    } else {
        count_critical(log.drop_last()) + if is_critical(log.last().1) {
            1nat
        } else {
            0nat
        }
    }
}

/// Tally of recent invalid inputs per source, in order of first
/// appearance.
pub open spec fn invalid_tally(log: Seq<(u64, SecurityEvent)>, now: u64) -> Seq<(Seq<char>, nat)>
    decreases log.len(),
{
    if log.len() == 0 {
        Seq::empty()
    } else {
        let t = invalid_tally(log.drop_last(), now);
        let (time, e) = log.last();
        match e {
            SecurityEvent::InvalidInput { source, .. } => if time + MINUTE_MS > now {
                let p = key_pos(t, source@);
                if p >= 0 {
                    t.update(p, (source@, t[p].1 + 1))
                } else {
                    t.push((source@, 1nat))
                }
            } else {
                t
            },
            _ => t,
        }
    }
}

/// The sources of a tally with more than three invalid inputs.
pub open spec fn repeated_sources(t: Seq<(Seq<char>, nat)>) -> Seq<(Seq<char>, nat)>
    decreases t.len(),
{
    if t.len() == 0 {
        Seq::empty()
    } else {
        let r = repeated_sources(t.drop_last());
        if t.last().1 > 3 {
            r.push(t.last())
        } else {
            r
        }
    }
}

pub open spec fn anomaly_view(a: SecurityAnomaly) -> (bool, nat, Seq<char>) {
    match a {
        SecurityAnomaly::EventBurst { event_count, time_window_secs } => (
            true,
            event_count as nat,
            Seq::empty(),
        ),
        SecurityAnomaly::RepeatedInvalidInput { source, attempt_count } => (
            false,
            attempt_count as nat,
            source@,
        ),
    }
}

/// The anomalies among the events of `log` at time `now`, as
/// (is a burst, count, source) triples.
pub open spec fn anomalies_of(log: Seq<(u64, SecurityEvent)>, now: u64) -> Seq<(bool, nat, Seq<char>)> {
    let recent = count_recent(log, now, MINUTE_MS);
    let burst: Seq<(bool, nat, Seq<char>)> = if recent > 10 {
        seq![(true, recent, Seq::empty())]
    } else {
        Seq::empty()
    };
    burst + repeated_sources(invalid_tally(log, now)).map_values(
        |p: (Seq<char>, nat)| (false, p.1, p.0),
    )
}

impl SecurityMonitor {
    #[verifier::type_invariant]
    spec fn inv(self) -> bool {
        &&& self.max_events == MAX_EVENTS
        &&& self.events@.len() <= MAX_EVENTS
        &&& distinct_keys(counts_view(self.event_counts@))
        &&& distinct_keys(self.windows())
    }

    /// The event log, oldest first.
    pub closed spec fn log(self) -> Seq<(u64, SecurityEvent)> {
        self.events@
    }

    /// Per-kind counters, in order of first recording.
    pub closed spec fn counts(self) -> Seq<(Seq<char>, u32)> {
        counts_view(self.event_counts@)
    }

    /// Rate-limit windows: key, start and count, in order of creation.
    pub closed spec fn windows(self) -> Seq<(Seq<char>, (u64, u32))> {
        self.rate_limits@.map_values(|w: RateWindow| (w.key@, (w.started, w.count)))
    }

    /// An empty monitor.
    pub fn new() -> (m: SecurityMonitor)
        ensures
            m.log().len() == 0,
            m.counts().len() == 0,
            m.windows().len() == 0,
    {
        let m = SecurityMonitor {
            events: Vec::new(),
            event_counts: Vec::new(),
            rate_limits: Vec::new(),
            max_events: MAX_EVENTS,
        };
        assert(counts_view(m.event_counts@) =~= Seq::empty());
        assert(m.windows() =~= Seq::empty());
        m
    }

    /// Records `event` at time `now`. The event is appended to the log
    /// (dropping the oldest one beyond `MAX_EVENTS`) and its kind's
    /// counter incremented. Returns whether the event is critical, in
    /// which case the caller raises an alert.
    pub fn record_event_at(&mut self, event: SecurityEvent, now: u64) -> (critical: bool)
        ensures
            critical == is_critical(event),
            final(self).log() == log_after(old(self).log(), now, event),
            final(self).counts() == counts_after(old(self).counts(), event_key(event)),
            final(self).windows() == old(self).windows(),
            final(self).log().len() <= MAX_EVENTS,
            distinct_keys(final(self).counts()),
    {
        proof {
            use_type_invariant(&*self);
        }
        let critical = is_critical_event(&event);
        let key = event_key_exec(&event);
        let ghost old_counts = self.counts();
        // counters
        let mut counts: Vec<(String, u32)> = Vec::new();
        core::mem::swap(&mut counts, &mut self.event_counts);
        let ghost c0 = counts_view(counts@);
        assert(c0 == old_counts);
        let mut i: usize = 0;
        let mut found = false;
        while i < counts.len()
            invariant
                i <= counts@.len(),
                counts_view(counts@) == c0,
                forall|j: int| 0 <= j < i ==> #[trigger] c0[j].0 != key@,
            ensures
                i <= counts@.len(),
                counts_view(counts@) == c0,
                forall|j: int| 0 <= j < i ==> #[trigger] c0[j].0 != key@,
                i < counts@.len() ==> c0[i as int].0 == key@,
            decreases counts@.len() - i,
        {
            let k = chars_of(counts[i].0.as_str());
            let kk = chars_of(key.as_str());
            if chars_eq(k.as_slice(), kk.as_slice()) {
                break;
            }
            i = i + 1;
        }
        if i < counts.len() {
            proof {
                lemma_key_pos(c0, key@, i as int);
            }
            let c = counts[i].1;
            let k = counts[i].0.clone();
            counts.set(i, (k, wrap_inc_exec(c)));
            assert(counts_view(counts@) =~= counts_after(c0, key@));
        } else {
            proof {
                lemma_key_pos(c0, key@, -1);
            }
            counts.push((key, 1));
            assert(counts_view(counts@) =~= counts_after(c0, event_key(event)));
        }
        proof {
            let c1 = counts_view(counts@);
            assert forall|a: int, b: int| 0 <= a < b < c1.len() implies c1[a].0 != c1[b].0 by {
                if b == c0.len() {
                    assert(c1[a].0 == c0[a].0);
                } else {
                    assert(c1[a].0 == c0[a].0);
                    assert(c1[b].0 == c0[b].0);
                }
            }
        }
        self.event_counts = counts;
        // log
        let mut log: Vec<(u64, SecurityEvent)> = Vec::new();
        core::mem::swap(&mut log, &mut self.events);
        let ghost l0 = log@;
        log.push((now, event));
        if log.len() > self.max_events {
            log.remove(0);
        }
        assert(log@ =~= log_after(l0, now, event));
        self.events = log;
        critical
    }

    /// Records `event` now (see `record_event_at`).
    pub fn record_event(&mut self, event: SecurityEvent) -> (critical: bool)
        ensures
            critical == is_critical(event),
            exists|t: u64| final(self).log() == log_after(old(self).log(), t, event),
            final(self).counts() == counts_after(old(self).counts(), event_key(event)),
            final(self).windows() == old(self).windows(),
    {
        let now = now_millis();
        self.record_event_at(event, now)
    }

    /// Counts a check of `source` against the limit of `max_per_minute`
    /// checks per minute at time `now` (see `rate_step`); refuses it with
    /// a `Security` error naming the source once the count exceeds the
    /// limit.
    pub fn check_rate_limit_at(&mut self, source: &str, max_per_minute: u32, now: u64) -> (r:
        Result<()>)
        ensures
            ({
                let (w, ok) = rate_step(
                    old(self).windows(),
                    "rate_limit_"@ + source@,
                    max_per_minute,
                    now,
                );
                &&& final(self).windows() == w
                &&& (r is Ok <==> ok)
                &&& r matches Err(e) ==> e.kind() == ErrorKind::Security && e.msg()
                    == "Rate limit exceeded for source: "@ + source@
            }),
            final(self).log() == old(self).log(),
            final(self).counts() == old(self).counts(),
    {
        proof {
            use_type_invariant(&*self);
        }
        let mut key = string_of("rate_limit_");
        key.append(source);
        let kk = chars_of(key.as_str());
        let mut ws: Vec<RateWindow> = Vec::new();
        core::mem::swap(&mut ws, &mut self.rate_limits);
        let ghost w0 = ws@.map_values(|w: RateWindow| (w.key@, (w.started, w.count)));
        let mut i: usize = 0;
        while i < ws.len()
            invariant
                i <= ws@.len(),
                ws@.map_values(|w: RateWindow| (w.key@, (w.started, w.count))) == w0,
                kk@ == key@,
                forall|j: int| 0 <= j < i ==> #[trigger] w0[j].0 != key@,
            ensures
                i <= ws@.len(),
                ws@.map_values(|w: RateWindow| (w.key@, (w.started, w.count))) == w0,
                forall|j: int| 0 <= j < i ==> #[trigger] w0[j].0 != key@,
                i < ws@.len() ==> w0[i as int].0 == key@,
            decreases ws@.len() - i,
        {
            let k = chars_of(ws[i].key.as_str());
            if chars_eq(k.as_slice(), kk.as_slice()) {
                break;
            }
            i = i + 1;
        }
        let r: Result<()>;
        if i < ws.len() {
            proof {
                lemma_key_pos(w0, key@, i as int);
            }
            let started = ws[i].started;
            let count = ws[i].count;
            let k = ws[i].key.clone();
            if now > started && now - started > RATE_WINDOW_MS {
                ws.set(i, RateWindow { key: k, started: now, count: 1 });
                r = Ok(());
            } else {
                let c = wrap_inc_exec(count);
                ws.set(i, RateWindow { key: k, started, count: c });
                if c > max_per_minute {
                    let mut m = string_of("Rate limit exceeded for source: ");
                    m.append(source);
                    r = Err(NetwatchError::Security(m));
                } else {
                    r = Ok(());
                }
            }
        } else {
            proof {
                lemma_key_pos(w0, key@, -1);
            }
            ws.push(RateWindow { key, started: now, count: 1 });
            r = Ok(());
        }
        proof {
            let w1 = ws@.map_values(|w: RateWindow| (w.key@, (w.started, w.count)));
            assert(w1 =~= rate_step(w0, "rate_limit_"@ + source@, max_per_minute, now).0);
            assert forall|a: int, b: int| 0 <= a < b < w1.len() implies w1[a].0 != w1[b].0 by {
                if b == w0.len() {
                    assert(w1[a].0 == w0[a].0);
                } else {
                    assert(w1[a].0 == w0[a].0);
                    assert(w1[b].0 == w0[b].0);
                }
            }
        }
        self.rate_limits = ws;
        r
    }

    /// Counts a check of `source` now (see `check_rate_limit_at`).
    pub fn check_rate_limit(&mut self, source: &str, max_per_minute: u32) -> (r: Result<()>)
        ensures
            exists|now: u64|
                #![trigger rate_step(old(self).windows(), "rate_limit_"@ + source@, max_per_minute, now)]
                {
                    let (w, ok) = rate_step(
                        old(self).windows(),
                        "rate_limit_"@ + source@,
                        max_per_minute,
                        now,
                    );
                    &&& final(self).windows() == w
                    &&& (r is Ok <==> ok)
                },
            r matches Err(e) ==> e.kind() == ErrorKind::Security && e.msg()
                == "Rate limit exceeded for source: "@ + source@,
            final(self).log() == old(self).log(),
            final(self).counts() == old(self).counts(),
    {
        let now = now_millis();
        self.check_rate_limit_at(source, max_per_minute, now)
    }

    /// Summary of the log at time `now`: how many events it holds, how
    /// many were stamped within the last hour and day, how many are
    /// critical, and the per-kind counters.
    pub fn get_statistics_at(&self, now: u64) -> (st: SecurityStatistics)
        ensures
            st.total_events == self.log().len(),
            st.events_last_hour == count_recent(self.log(), now, HOUR_MS),
            st.events_last_day == count_recent(self.log(), now, DAY_MS),
            st.critical_events == count_critical(self.log()),
            counts_view(st.event_types@) == self.counts(),
            st.total_events <= MAX_EVENTS,
    {
        proof {
            use_type_invariant(self);
        }
        let ghost log = self.events@;
        let mut hour: usize = 0;
        let mut day: usize = 0;
        let mut critical: usize = 0;
        let mut i: usize = 0;
        while i < self.events.len()
            invariant
                log == self.events@,
                i <= log.len(),
                hour == count_recent(log.take(i as int), now, HOUR_MS),
                day == count_recent(log.take(i as int), now, DAY_MS),
                critical == count_critical(log.take(i as int)),
                hour <= i && day <= i && critical <= i,
            decreases log.len() - i,
        {
            proof {
                assert(log.take(i + 1).drop_last() =~= log.take(i as int));
                assert(log.take(i + 1).last() == log[i as int]);
            }
            let t = self.events[i].0;
            if (t as u128) + (HOUR_MS as u128) > now as u128 {
                hour = hour + 1;
            }
            if (t as u128) + (DAY_MS as u128) > now as u128 {
                day = day + 1;
            }
            if is_critical_event(&self.events[i].1) {
                critical = critical + 1;
            }
            i = i + 1;
        }
        assert(log.take(i as int) =~= log);
        let mut types: Vec<(String, u32)> = Vec::new();
        let mut j: usize = 0;
        while j < self.event_counts.len()
            invariant
                j <= self.event_counts@.len(),
                types@.len() == j,
                counts_view(types@) == counts_view(self.event_counts@).take(j as int),
            decreases self.event_counts@.len() - j,
        {
            let k = self.event_counts[j].0.clone();
            let ghost before = types@;
            types.push((k, self.event_counts[j].1));
            proof {
                let cv = counts_view(self.event_counts@);
                assert(types@ == before.push(types@[j as int]));
                assert(types@[j as int].0@ == self.event_counts@[j as int].0@);
                assert(counts_view(types@) =~= counts_view(before).push(cv[j as int]));
            }
            j = j + 1;
            assert(counts_view(types@) =~= counts_view(self.event_counts@).take(j as int));
        }
        assert(counts_view(self.event_counts@).take(j as int) =~= counts_view(self.event_counts@));
        SecurityStatistics {
            total_events: self.events.len(),
            events_last_hour: hour,
            events_last_day: day,
            critical_events: critical,
            event_types: types,
        }
    }

    /// Summary of the log now (see `get_statistics_at`).
    pub fn get_statistics(&self) -> (st: SecurityStatistics)
        ensures
            st.total_events == self.log().len(),
            exists|now: u64|
                #![trigger count_recent(self.log(), now, HOUR_MS)]
                st.events_last_hour == count_recent(self.log(), now, HOUR_MS)
                    && st.events_last_day == count_recent(self.log(), now, DAY_MS),
            st.critical_events == count_critical(self.log()),
            counts_view(st.event_types@) == self.counts(),
    {
        let now = now_millis();
        self.get_statistics_at(now)
    }

    /// The anomalies at time `now`: an event burst when more than ten
    /// events were stamped within the last minute, then, for each source
    /// of more than three invalid inputs within the last minute in order
    /// of first appearance, a repeated-invalid-input anomaly.
    pub fn check_anomalies_at(&self, now: u64) -> (r: Vec<SecurityAnomaly>)
        ensures
            r@.map_values(|a: SecurityAnomaly| anomaly_view(a)) == anomalies_of(self.log(), now),
            forall|i: int|
                0 <= i < r@.len() ==> (#[trigger] r@[i] matches SecurityAnomaly::EventBurst {
                    time_window_secs,
                    ..
                } ==> time_window_secs == 60),
    {
        proof {
            use_type_invariant(self);
        }
        let ghost log = self.events@;
        // recent events and the per-source tally of recent invalid input
        let mut recent: usize = 0;
        let mut tally: Vec<(String, u32)> = Vec::new();
        let mut i: usize = 0;
        while i < self.events.len()
            invariant
                log == self.events@,
                log.len() <= MAX_EVENTS,
                i <= log.len(),
                recent == count_recent(log.take(i as int), now, MINUTE_MS),
                recent <= i,
                tally@.map_values(|p: (String, u32)| (p.0@, p.1 as nat)) == invalid_tally(
                    log.take(i as int),
                    now,
                ),
                forall|j: int| 0 <= j < tally@.len() ==> #[trigger] tally@[j].1 <= i,
            decreases log.len() - i,
        {
            let ghost tv = tally@.map_values(|p: (String, u32)| (p.0@, p.1 as nat));
            proof {
                assert(log.take(i + 1).drop_last() =~= log.take(i as int));
                assert(log.take(i + 1).last() == log[i as int]);
            }
            let t = self.events[i].0;
            let is_recent = (t as u128) + (MINUTE_MS as u128) > now as u128;
            if is_recent {
                recent = recent + 1;
            }
            match &self.events[i].1 {
                SecurityEvent::InvalidInput { source, .. } => {
                    if is_recent {
                        let sc = chars_of(source.as_str());
                        let mut k: usize = 0;
                        while k < tally.len()
                            invariant
                                k <= tally@.len(),
                                tv == tally@.map_values(|p: (String, u32)| (p.0@, p.1 as nat)),
                                sc@ == source@,
                                forall|j: int| 0 <= j < k ==> #[trigger] tv[j].0 != source@,
                            ensures
                                k <= tally@.len(),
                                tv == tally@.map_values(|p: (String, u32)| (p.0@, p.1 as nat)),
                                forall|j: int| 0 <= j < k ==> #[trigger] tv[j].0 != source@,
                                k < tally@.len() ==> tv[k as int].0 == source@,
                            decreases tally@.len() - k,
                        {
                            let kc = chars_of(tally[k].0.as_str());
                            if chars_eq(kc.as_slice(), sc.as_slice()) {
                                break;
                            }
                            k = k + 1;
                        }
                        if k < tally.len() {
                            proof {
                                lemma_key_pos(tv, source@, k as int);
                            }
                            let c = tally[k].1;
                            let name = tally[k].0.clone();
                            tally.set(k, (name, c + 1));
                        } else {
                            proof {
                                lemma_key_pos(tv, source@, -1);
                            }
                            tally.push((source.clone(), 1));
                        }
                        assert(tally@.map_values(|p: (String, u32)| (p.0@, p.1 as nat))
                            =~= invalid_tally(log.take(i + 1), now));
                    } else {
                        assert(tally@.map_values(|p: (String, u32)| (p.0@, p.1 as nat))
                            =~= invalid_tally(log.take(i + 1), now));
                    }
                },
                _ => {
                    assert(tally@.map_values(|p: (String, u32)| (p.0@, p.1 as nat))
                        =~= invalid_tally(log.take(i + 1), now));
                },
            }
            i = i + 1;
        }
        assert(log.take(i as int) =~= log);
        let ghost tv = invalid_tally(log, now);
        let mut out: Vec<SecurityAnomaly> = Vec::new();
        if recent > 10 {
            out.push(SecurityAnomaly::EventBurst { event_count: recent, time_window_secs: 60 });
        }
        let ghost burst = out@.map_values(|a: SecurityAnomaly| anomaly_view(a));
        assert(burst =~= (if count_recent(log, now, MINUTE_MS) > 10 {
            seq![(true, count_recent(log, now, MINUTE_MS), Seq::<char>::empty())]
        } else {
            Seq::<(bool, nat, Seq<char>)>::empty()
        }));
        let mut j: usize = 0;
        while j < tally.len()
            invariant
                j <= tally@.len(),
                tally@.map_values(|p: (String, u32)| (p.0@, p.1 as nat)) == tv,
                out@.map_values(|a: SecurityAnomaly| anomaly_view(a)) == burst
                    + repeated_sources(tv.take(j as int)).map_values(
                    |p: (Seq<char>, nat)| (false, p.1, p.0),
                ),
                forall|i: int|
                    0 <= i < out@.len() ==> (#[trigger] out@[i] matches SecurityAnomaly::EventBurst {
                        time_window_secs,
                        ..
                    } ==> time_window_secs == 60),
            decreases tally@.len() - j,
        {
            proof {
                assert(tv.take(j + 1).drop_last() =~= tv.take(j as int));
                assert(tv.take(j + 1).last() == tv[j as int]);
            }
            let ghost before = out@;
            assert(tv[j as int] == (tally@[j as int].0@, tally@[j as int].1 as nat));
            if tally[j].1 > 3 {
                let a = SecurityAnomaly::RepeatedInvalidInput {
                    source: tally[j].0.clone(),
                    attempt_count: tally[j].1,
                };
                let ghost ga = a;
                out.push(a);
                proof {
                    assert(out@ == before.push(ga));
                    assert(out@.map_values(|a: SecurityAnomaly| anomaly_view(a)) =~= before.map_values(
                        |a: SecurityAnomaly| anomaly_view(a),
                    ).push(anomaly_view(ga)));
                }
            }
            proof {
                let r0 = repeated_sources(tv.take(j as int));
                let r1 = repeated_sources(tv.take(j + 1));
                let f = |p: (Seq<char>, nat)| (false, p.1, p.0);
                if tv[j as int].1 > 3 {
                    assert(r1 == r0.push(tv[j as int]));
                    assert(r1.map_values(f) =~= r0.map_values(f).push(f(tv[j as int])));
                    assert(burst + r1.map_values(f) =~= (burst + r0.map_values(f)).push(
                        f(tv[j as int]),
                    ));
                } else {
                    assert(r1 == r0);
                }
            }
            j = j + 1;
            assert(out@.map_values(|a: SecurityAnomaly| anomaly_view(a)) =~= burst
                + repeated_sources(tv.take(j as int)).map_values(
                |p: (Seq<char>, nat)| (false, p.1, p.0),
            ));
        }
        assert(tv.take(j as int) =~= tv);
        out
    }

    /// The anomalies now (see `check_anomalies_at`).
    pub fn check_anomalies(&self) -> (r: Vec<SecurityAnomaly>)
        ensures
            exists|now: u64|
                #![trigger anomalies_of(self.log(), now)]
                r@.map_values(|a: SecurityAnomaly| anomaly_view(a)) == anomalies_of(
                    self.log(),
                    now,
                ),
            forall|i: int|
                0 <= i < r@.len() ==> (#[trigger] r@[i] matches SecurityAnomaly::EventBurst {
                    time_window_secs,
                    ..
                } ==> time_window_secs == 60),
    {
        let now = now_millis();
        self.check_anomalies_at(now)
    }
}

impl Default for SecurityMonitor {
    fn default() -> (m: SecurityMonitor)
        ensures
            m.log().len() == 0,
            m.counts().len() == 0,
            m.windows().len() == 0,
    {
        SecurityMonitor::new()
    }
}

impl SecurityStatistics {
    /// The counter stored for `key` among `event_types`, if any.
    pub fn event_type_count(&self, key: &str) -> (r: Option<u32>)
        requires
            distinct_keys(counts_view(self.event_types@)),
        ensures
            r == lookup(counts_view(self.event_types@), key@),
    {
        let kc = chars_of(key);
        let ghost c = counts_view(self.event_types@);
        let mut i: usize = 0;
        while i < self.event_types.len()
            invariant
                i <= self.event_types@.len(),
                c == counts_view(self.event_types@),
                kc@ == key@,
                forall|j: int| 0 <= j < i ==> #[trigger] c[j].0 != key@,
            decreases self.event_types@.len() - i,
        {
            let k = chars_of(self.event_types[i].0.as_str());
            if chars_eq(k.as_slice(), kc.as_slice()) {
                proof {
                    lemma_key_pos(c, key@, i as int);
                }
                return Some(self.event_types[i].1);
            }
            i = i + 1;
        }
        proof {
            lemma_key_pos(c, key@, -1);
        }
        None
    }
}


// ---------------------------------------------------------------------
// Laws
// ---------------------------------------------------------------------

/// Recording an event increments the counter of its kind (creating it
/// at 1) and leaves every other counter as it was.
pub proof fn law_record_counts(c: Seq<(Seq<char>, u32)>, key: Seq<char>, other: Seq<char>)
    requires
        distinct_keys(c),
        other != key,
    ensures
        lookup(counts_after(c, key), key) == Some(
            match lookup(c, key) {
                Some(n) => wrap_inc(n),
                None => 1u32,
            },
        ),
        lookup(counts_after(c, key), other) == lookup(c, other),
        distinct_keys(counts_after(c, key)),
{
    lemma_key_pos_bounds(c, key);
    lemma_key_pos_bounds(c, other);
    let c2 = counts_after(c, key);
    let p = key_pos(c, key);
    let q = key_pos(c, other);
    if p >= 0 {
        assert(forall|j: int| 0 <= j < c.len() && j < p ==> c[j].0 != key);
        lemma_key_pos(c2, key, p);
        if q >= 0 {
            assert forall|j: int| 0 <= j < c2.len() && j < q implies c2[j].0 != other by {
                if j != p {
                    assert(c2[j] == c[j]);
                }
            }
            lemma_key_pos(c2, other, q);
        } else {
            lemma_key_pos(c2, other, -1);
        }
    } else {
        assert(forall|j: int| 0 <= j < c.len() ==> c2[j] == c[j]);
        lemma_key_pos(c2, key, c.len() as int);
        if q >= 0 {
            assert forall|j: int| 0 <= j < c2.len() && j < q implies c2[j].0 != other by {
                assert(c2[j] == c[j]);
            }
            lemma_key_pos(c2, other, q);
        } else {
            lemma_key_pos(c2, other, -1);
        }
    }
    assert forall|i: int, j: int| 0 <= i < j < c2.len() implies c2[i].0 != c2[j].0 by {
        if p < 0 && j == c.len() {
            assert(c2[i] == c[i]);
        } else if i != p && j != p {
            assert(c2[i] == c[i] && c2[j] == c[j]);
        } else if i == p {
            assert(c2[j] == c[j]);
        } else {
            assert(c2[i] == c[i]);
        }
    }
}

/// The log holds the last events recorded, at most `MAX_EVENTS` of them:
/// recording one adds it at the end, and the log grows by one until full.
pub proof fn law_log_bounded(log: Seq<(u64, SecurityEvent)>, t: u64, e: SecurityEvent)
    requires
        log.len() <= MAX_EVENTS,
    ensures
        log_after(log, t, e).len() == if log.len() < MAX_EVENTS {
            log.len() + 1
        } else {
            MAX_EVENTS as nat
        },
        log_after(log, t, e).last() == (t, e),
{
}

/// Several rate-limit checks of one key, at the given times, in order:
/// the final windows and whether each check passed.
pub open spec fn rate_run(
    w: Seq<(Seq<char>, (u64, u32))>,
    key: Seq<char>,
    max: u32,
    times: Seq<u64>,
) -> (Seq<(Seq<char>, (u64, u32))>, Seq<bool>)
    decreases times.len(),
{
    if times.len() == 0 {
        (w, Seq::empty())
    } else {
        let (w1, ok) = rate_step(w, key, max, times[0]);
        let (w2, oks) = rate_run(w1, key, max, times.drop_first());
        (w2, seq![ok] + oks)
    }
}

/// Rate limiting in any state: when the window of `key` (its entry at
/// `p`) began at `start` and holds `c` checks, each check of a run made
/// within a minute of `start` counts in that window, and the i-th (from
/// 0) passes iff `c + i + 1` is at most `max`.
pub proof fn law_rate_run_in_window(
    w: Seq<(Seq<char>, (u64, u32))>,
    key: Seq<char>,
    max: u32,
    times: Seq<u64>,
    p: int,
    start: u64,
    c: u32,
)
    requires
        0 <= p < w.len(),
        w[p] == (key, (start, c)),
        forall|j: int| 0 <= j < p ==> w[j].0 != key,
        c + times.len() < u32::MAX,
        forall|i: int| 0 <= i < times.len() ==> #[trigger] times[i] <= start + RATE_WINDOW_MS,
    ensures
        rate_run(w, key, max, times).1.len() == times.len(),
        forall|i: int|
            0 <= i < times.len() ==> #[trigger] rate_run(w, key, max, times).1[i] == (c + i + 1
                <= max),
    decreases times.len(),
{
    if times.len() > 0 {
        lemma_key_pos(w, key, p);
        let w1 = w.update(p, (key, (start, (c + 1) as u32)));
        assert(rate_step(w, key, max, times[0]) == (w1, c + 1 <= max));
        assert(forall|j: int| 0 <= j < p ==> w1[j] == w[j]);
        let rest = times.drop_first();
        assert forall|i: int| 0 <= i < rest.len() implies rest[i] <= start + RATE_WINDOW_MS by {
            assert(rest[i] == times[i + 1]);
        }
        law_rate_run_in_window(w1, key, max, rest, p, start, (c + 1) as u32);
        let r = rate_run(w, key, max, times).1;
        let r1 = rate_run(w1, key, max, rest).1;
        assert(r == seq![c + 1 <= max] + r1);
        assert forall|i: int| 0 <= i < times.len() implies #[trigger] r[i] == (c + i + 1 <= max) by {
            if i > 0 {
                assert(r[i] == r1[i - 1]);
            }
        }
    }
}

/// Rate limiting: for a source not checked before, of a run of fewer
/// than `u32::MAX` checks made within one minute of the first, the first
/// check always passes and afterwards exactly the first `max` pass.
pub proof fn law_rate_limit(w: Seq<(Seq<char>, (u64, u32))>, key: Seq<char>, max: u32, times: Seq<
    u64,
>)
    requires
        distinct_keys(w),
        key_pos(w, key) < 0,
        0 < times.len() < u32::MAX,
        forall|i: int| 0 <= i < times.len() ==> #[trigger] times[i] <= times[0] + RATE_WINDOW_MS,
    ensures
        rate_run(w, key, max, times).1.len() == times.len(),
        forall|i: int|
            0 <= i < times.len() ==> #[trigger] rate_run(w, key, max, times).1[i] == (i == 0 || i
                + 1 <= max),
{
    lemma_key_pos_bounds(w, key);
    let w1 = w.push((key, (times[0], 1u32)));
    let rest = times.drop_first();
    assert forall|i: int| 0 <= i < rest.len() implies rest[i] <= times[0] + RATE_WINDOW_MS by {
        assert(rest[i] == times[i + 1]);
    }
    assert(forall|j: int| 0 <= j < w.len() ==> w1[j] == w[j]);
    law_rate_run_in_window(w1, key, max, rest, w.len() as int, times[0], 1u32);
    let r = rate_run(w, key, max, times).1;
    let r1 = rate_run(w1, key, max, rest).1;
    assert(r == seq![true] + r1);
    assert forall|i: int| 0 <= i < times.len() implies #[trigger] r[i] == (i == 0 || i + 1
        <= max) by {
        if i > 0 {
            assert(r[i] == r1[i - 1]);
        }
    }
}


proof fn lemma_same_keys_lookup<V>(w: Seq<(Seq<char>, V)>, w2: Seq<(Seq<char>, V)>, k2: Seq<char>)
    requires
        distinct_keys(w),
        w.len() <= w2.len(),
        forall|j: int| 0 <= j < w.len() ==> #[trigger] w2[j] == w[j],
        forall|j: int| w.len() <= j < w2.len() ==> #[trigger] w2[j].0 != k2,
    ensures
        lookup(w2, k2) == lookup(w, k2),
{
    lemma_key_pos_bounds(w, k2);
    let p = key_pos(w, k2);
    assert forall|j: int| 0 <= j < w2.len() && (p < 0 || j < p) implies w2[j].0 != k2 by {
        if j < w.len() {
            assert(w2[j] == w[j]);
            if p >= 0 {
                assert(w[p].0 == k2);
                assert(w[j].0 != w[p].0);
            }
        }
    }
    if p >= 0 {
        assert(w2[p] == w[p]);
    }
    lemma_key_pos(w2, k2, p);
}

/// Rate limiting, one check of `key` in any state of the windows (whose
/// count has not reached `u32::MAX`): every other source keeps its
/// window; a source with no window, or whose window began more than a
/// minute before `now`, gets a fresh window begun at `now` with a count
/// of 1, and the check passes; otherwise the count goes up by one and the
/// check passes iff it is at most `max`. So the k-th check of a window
/// passes iff k is at most the larger of `max` and 1.
pub proof fn law_rate_step(w: Seq<(Seq<char>, (u64, u32))>, key: Seq<char>, max: u32, now: u64)
    requires
        distinct_keys(w),
        lookup(w, key) matches Some(e) ==> e.1 < u32::MAX,
    ensures
        ({
            let (w2, ok) = rate_step(w, key, max, now);
            let fresh = match lookup(w, key) {
                None => true,
                Some(e) => now > e.0 && now - e.0 > RATE_WINDOW_MS,
            };
            &&& distinct_keys(w2)
            &&& forall|k2: Seq<char>| k2 != key ==> #[trigger] lookup(w2, k2) == lookup(w, k2)
            &&& lookup(w2, key) matches Some(e2) && {
                &&& fresh ==> e2 == (now, 1u32) && ok
                &&& !fresh ==> e2.0 == lookup(w, key).unwrap().0 && e2.1 == lookup(w, key).unwrap().1 + 1 && ok
                    == (e2.1 <= max)
            }
        }),
{
    lemma_key_pos_bounds(w, key);
    let p = key_pos(w, key);
    let (w2, ok) = rate_step(w, key, max, now);
    if p < 0 {
        assert(w2 == w.push((key, (now, 1u32))));
        assert forall|k2: Seq<char>| k2 != key implies #[trigger] lookup(w2, k2) == lookup(w, k2) by {
            lemma_same_keys_lookup(w, w2, k2);
        }
        lemma_key_pos(w2, key, w.len() as int);
    } else {
        let nv = w2[p];
        assert(w2 == w.update(p, nv));
        assert(nv.0 == key);
        assert forall|k2: Seq<char>| k2 != key implies #[trigger] lookup(w2, k2) == lookup(w, k2) by {
            lemma_key_pos_bounds(w, k2);
            let q = key_pos(w, k2);
            assert forall|j: int| 0 <= j < w2.len() && (q < 0 || j < q) implies w2[j].0 != k2 by {
                if j != p {
                    assert(w2[j] == w[j]);
                }
            }
            if q >= 0 {
                assert(q != p);
                assert(w2[q] == w[q]);
            }
            lemma_key_pos(w2, k2, q);
        }
        assert forall|j: int| 0 <= j < w2.len() && j < p implies w2[j].0 != key by {
            assert(w2[j] == w[j]);
        }
        lemma_key_pos(w2, key, p);
    }
}

} // verus!
