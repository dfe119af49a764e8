//! Traffic statistics over a sliding window of counter readings:
//! current, average, minimum and maximum speeds, totals, and the points
//! of the last minute's speed graph.
//!
//! Speeds are in bytes per second, rounded down. Graph points carry their
//! age in half-second steps (the display refreshes about every 500 ms), so
//! a point of age `a` lies `a / 2` seconds in the past.
use vstd::prelude::*;

use crate::device::NetworkStats;

verus! {

/// Oldest graph point kept, in half-second steps (60 seconds).
pub const MAX_GRAPH_AGE: u32 = 120;

/// Most graph points kept per direction.
pub const MAX_GRAPH_POINTS: usize = 120;

/// Bytes moved between two counter readings. A counter that went down
/// has wrapped: as a 32-bit counter when that gives the much smaller
/// difference (less than a thousandth of the 64-bit one), else as a
/// 64-bit counter. The 32-bit difference is computed modulo 2^64, as the
/// optimised program computes it.
pub open spec fn counter_diff(current: u64, previous: u64) -> u64 {
    if current >= previous {
        (current - previous) as u64
    } else {
        let d32 = ((0x1_0000_0000int + current - previous) % 0x1_0000_0000_0000_0000int) as u64;
        let d64 = (0x1_0000_0000_0000_0000int + current - previous) as u64;
        if d32 < d64 / 1000 {
            d32
        } else {
            d64
        }
    }
}

/// `bytes` over `ms` milliseconds in bytes per second, rounded down and
/// capped at `u64::MAX`.
pub open spec fn rate(bytes: u64, ms: u64) -> u64 {
    let r = bytes as int * 1000 / ms as int;
    if r > u64::MAX {
        u64::MAX
    } else {
        r as u64
    }
}

/// Milliseconds from `a` to `b`, zero when `b` is not later.
pub open spec fn elapsed(a: u64, b: u64) -> u64 {
    if b > a {
        (b - a) as u64
    } else {
        0
    }
}

/// All the state of a calculator, as plain values.
pub struct StatsView {
    pub history: Seq<NetworkStats>,
    pub window_ms: u64,
    pub current_in: u64,
    pub current_out: u64,
    pub avg_in: u64,
    pub avg_out: u64,
    pub min_in: u64,
    pub min_out: u64,
    pub max_in: u64,
    pub max_out: u64,
    pub graph_in: Seq<(u32, u64)>,
    pub graph_out: Seq<(u32, u64)>,
    pub total_bytes_in: u64,
    pub total_bytes_out: u64,
    pub total_packets_in: u64,
    pub total_packets_out: u64,
    pub first_sample: bool,
}

/// Graph points one step older, those past 60 seconds dropped.
pub open spec fn aged(g: Seq<(u32, u64)>) -> Seq<(u32, u64)>
    decreases g.len(),
{
    if g.len() == 0 {
        g
    } else {
        let rest = aged(g.drop_last());
        let (a, v) = g.last();
        if a + 1 <= MAX_GRAPH_AGE {
            rest.push(((a + 1) as u32, v))
        } else {
            rest
        }
    }
}

/// The graph after a new speed: existing points aged, the new point added
/// at age 0, and only the newest `MAX_GRAPH_POINTS` kept.
pub open spec fn graph_after(g: Seq<(u32, u64)>, speed: u64) -> Seq<(u32, u64)> {
    let n = aged(g).push((0u32, speed));
    if n.len() > MAX_GRAPH_POINTS {
        n.skip(n.len() - MAX_GRAPH_POINTS)
    } else {
        n
    }
}

/// The history without its leading readings older than `cutoff`.
pub open spec fn drop_older(h: Seq<NetworkStats>, cutoff: int) -> Seq<NetworkStats>
    decreases h.len(),
{
    if h.len() > 0 && (h[0].timestamp as int) < cutoff {
        drop_older(h.drop_first(), cutoff)
    } else {
        h
    }
}

/// The calculator after a new reading `s`.
///
/// Totals take the reading's counters. When there is an earlier reading
/// and time has passed since it, the current speeds are computed from the
/// two, the minimum and maximum are updated (except on the very first
/// sample) and the speeds are added to the graphs. The reading is then
/// appended, readings older than the window before it are dropped from
/// the front, and when at least two readings remain the average speeds
/// are computed from the first and the last.
pub open spec fn after_sample(v: StatsView, s: NetworkStats) -> StatsView {
    let v1 = StatsView {
        total_bytes_in: s.bytes_in,
        total_bytes_out: s.bytes_out,
        total_packets_in: s.packets_in,
        total_packets_out: s.packets_out,
        ..v
    };
    let v2 = if v.history.len() > 0 && elapsed(v.history.last().timestamp, s.timestamp) > 0 {
        let p = v.history.last();
        let dt = elapsed(p.timestamp, s.timestamp);
        let cin = rate(counter_diff(s.bytes_in, p.bytes_in), dt);
        let cout = rate(counter_diff(s.bytes_out, p.bytes_out), dt);
        let v3 = StatsView { current_in: cin, current_out: cout, ..v1 };
        let v4 = if !v.first_sample {
            StatsView {
                min_in: if cin < v.min_in || v.min_in == 0 {
                    cin
                } else {
                    v.min_in
                },
                max_in: if cin > v.max_in {
                    cin
                } else {
                    v.max_in
                },
                min_out: if cout < v.min_out || v.min_out == 0 {
                    cout
                } else {
                    v.min_out
                },
                max_out: if cout > v.max_out {
                    cout
                } else {
                    v.max_out
                },
                ..v3
            }
        } else {
            v3
        };
        StatsView {
            graph_in: graph_after(v.graph_in, cin),
            graph_out: graph_after(v.graph_out, cout),
            ..v4
        }
    } else {
        v1
    };
    let h = drop_older(v.history.push(s), s.timestamp - v.window_ms);
    let v5 = StatsView { history: h, first_sample: false, ..v2 };
    if h.len() >= 2 && elapsed(h[0].timestamp, h.last().timestamp) > 0 {
        let span = elapsed(h[0].timestamp, h.last().timestamp);
        StatsView {
            avg_in: rate(counter_diff(h.last().bytes_in, h[0].bytes_in), span),
            avg_out: rate(counter_diff(h.last().bytes_out, h[0].bytes_out), span),
            ..v5
        }
    } else {
        v5
    }
}

/// Computes traffic statistics from successive readings of one device.
pub struct StatsCalculator {
    history: Vec<NetworkStats>,
    window_ms: u64,
    current_speed_in: u64,
    current_speed_out: u64,
    avg_speed_in: u64,
    avg_speed_out: u64,
    min_speed_in: u64,
    min_speed_out: u64,
    max_speed_in: u64,
    max_speed_out: u64,
    /// Incoming and outgoing graph points, kept together so that both
    /// change in one step.
    graphs: (Vec<(u32, u64)>, Vec<(u32, u64)>),
    total_bytes_in: u64,
    total_bytes_out: u64,
    total_packets_in: u64,
    total_packets_out: u64,
    first_sample: bool,
}

/// Graph points are at most 60 seconds old and at most 120 of them.
pub open spec fn graph_ok(g: Seq<(u32, u64)>) -> bool {
    &&& g.len() <= MAX_GRAPH_POINTS
    &&& forall|i: int| 0 <= i < g.len() ==> #[trigger] g[i].0 <= MAX_GRAPH_AGE
}

/// The ages of the points of a graph, in order.
pub open spec fn ages(g: Seq<(u32, u64)>) -> Seq<u32> {
    g.map_values(|p: (u32, u64)| p.0)
}

/// Invariants of a calculator: the minimum speeds never exceed the
/// maximum ones, the graphs are bounded, and the two graphs have points
/// of the same ages (so as many points).
pub open spec fn stats_ok(v: StatsView) -> bool {
    &&& v.min_in <= v.max_in
    &&& v.min_out <= v.max_out
    &&& graph_ok(v.graph_in)
    &&& graph_ok(v.graph_out)
    &&& ages(v.graph_in) == ages(v.graph_out)
}

proof fn lemma_aged_same_ages(g1: Seq<(u32, u64)>, g2: Seq<(u32, u64)>)
    requires
        ages(g1) == ages(g2),
    ensures
        ages(aged(g1)) == ages(aged(g2)),
    decreases g1.len(),
{
    assert(g1.len() == ages(g1).len() && g2.len() == ages(g2).len());
    if g1.len() > 0 {
        assert(ages(g1.drop_last()) =~= ages(g1).drop_last());
        assert(ages(g2.drop_last()) =~= ages(g2).drop_last());
        lemma_aged_same_ages(g1.drop_last(), g2.drop_last());
        assert(g1.last().0 == ages(g1)[g1.len() - 1]);
        assert(g2.last().0 == ages(g2)[g2.len() - 1]);
        let r1 = aged(g1.drop_last());
        let r2 = aged(g2.drop_last());
        let (a1, v1) = g1.last();
        let (a2, v2) = g2.last();
        if a1 + 1 <= MAX_GRAPH_AGE {
            assert(ages(r1.push(((a1 + 1) as u32, v1))) =~= ages(r1).push((a1 + 1) as u32));
            assert(ages(r2.push(((a2 + 1) as u32, v2))) =~= ages(r2).push((a2 + 1) as u32));
        }
    }
}

/// Both graphs of a calculator take a point at every speed computed, so
/// their points always have the same ages: they hold as many points.
pub proof fn law_graphs_in_step(v: StatsView, s: NetworkStats)
    requires
        stats_ok(v),
    ensures
        ages(after_sample(v, s).graph_in) == ages(after_sample(v, s).graph_out),
        after_sample(v, s).graph_in.len() == after_sample(v, s).graph_out.len(),
{
    lemma_graph_after_same_ages(v.graph_in, v.graph_out, 0, 0);
    let w = after_sample(v, s);
    if v.history.len() > 0 && elapsed(v.history.last().timestamp, s.timestamp) > 0 {
        let p = v.history.last();
        let dt = elapsed(p.timestamp, s.timestamp);
        let cin = rate(counter_diff(s.bytes_in, p.bytes_in), dt);
        let cout = rate(counter_diff(s.bytes_out, p.bytes_out), dt);
        lemma_graph_after_same_ages(v.graph_in, v.graph_out, cin, cout);
    }
    assert(w.graph_in.len() == ages(w.graph_in).len());
    assert(w.graph_out.len() == ages(w.graph_out).len());
}

proof fn lemma_graph_after_same_ages(g1: Seq<(u32, u64)>, g2: Seq<(u32, u64)>, s1: u64, s2: u64)
    requires
        ages(g1) == ages(g2),
    ensures
        ages(graph_after(g1, s1)) == ages(graph_after(g2, s2)),
{
    lemma_aged_same_ages(g1, g2);
    let n1 = aged(g1).push((0u32, s1));
    let n2 = aged(g2).push((0u32, s2));
    assert(ages(n1) =~= ages(aged(g1)).push(0u32));
    assert(ages(n2) =~= ages(aged(g2)).push(0u32));
    assert(n1.len() == ages(n1).len() && n2.len() == ages(n2).len());
    if n1.len() > MAX_GRAPH_POINTS {
        assert(ages(n1.skip(n1.len() - MAX_GRAPH_POINTS)) =~= ages(n1).skip(n1.len() - MAX_GRAPH_POINTS));
        assert(ages(n2.skip(n2.len() - MAX_GRAPH_POINTS)) =~= ages(n2).skip(n2.len() - MAX_GRAPH_POINTS));
    }
}

impl StatsCalculator {
    pub closed spec fn view(&self) -> StatsView {
        StatsView {
            history: self.history@,
            window_ms: self.window_ms,
            current_in: self.current_speed_in,
            current_out: self.current_speed_out,
            avg_in: self.avg_speed_in,
            avg_out: self.avg_speed_out,
            min_in: self.min_speed_in,
            min_out: self.min_speed_out,
            max_in: self.max_speed_in,
            max_out: self.max_speed_out,
            graph_in: self.graphs.0@,
            graph_out: self.graphs.1@,
            total_bytes_in: self.total_bytes_in,
            total_bytes_out: self.total_bytes_out,
            total_packets_in: self.total_packets_in,
            total_packets_out: self.total_packets_out,
            first_sample: self.first_sample,
        }
    }

    #[verifier::type_invariant]
    spec fn inv(&self) -> bool {
        stats_ok(self.view())
    }

    /// A calculator averaging over the last `window_ms` milliseconds, with
    /// no readings and every value zero.
    pub fn new(window_ms: u64) -> (c: StatsCalculator)
        ensures
            c.view() == (StatsView {
                history: Seq::empty(),
                window_ms,
                current_in: 0,
                current_out: 0,
                avg_in: 0,
                avg_out: 0,
                min_in: 0,
                min_out: 0,
                max_in: 0,
                max_out: 0,
                graph_in: Seq::empty(),
                graph_out: Seq::empty(),
                total_bytes_in: 0,
                total_bytes_out: 0,
                total_packets_in: 0,
                total_packets_out: 0,
                first_sample: true,
            }),
    {
        StatsCalculator {
            history: Vec::new(),
            window_ms,
            current_speed_in: 0,
            current_speed_out: 0,
            avg_speed_in: 0,
            avg_speed_out: 0,
            min_speed_in: 0,
            min_speed_out: 0,
            max_speed_in: 0,
            max_speed_out: 0,
            graphs: (Vec::new(), Vec::new()),
            total_bytes_in: 0,
            total_bytes_out: 0,
            total_packets_in: 0,
            total_packets_out: 0,
            first_sample: true,
        }
    }

    /// Bytes moved between two counter readings (see `counter_diff`).
    pub fn calculate_diff(&self, current: u64, previous: u64) -> (d: u64)
        ensures
            d == counter_diff(current, previous),
    {
        calculate_diff(current, previous)
    }

    /// Takes in a new reading (see `after_sample`).
    pub fn add_sample(&mut self, stats: NetworkStats)
        ensures
            final(self).view() == after_sample(old(self).view(), stats),
    {
        proof {
            use_type_invariant(&*self);
        }
        let ghost v = self.view();
        self.total_bytes_in = stats.bytes_in;
        self.total_bytes_out = stats.bytes_out;
        self.total_packets_in = stats.packets_in;
        self.total_packets_out = stats.packets_out;
        let n = self.history.len();
        if n > 0 {
            let prev = self.history[n - 1];
            let dt = elapsed_exec(prev.timestamp, stats.timestamp);
            if dt > 0 {
                let cin = rate_exec(calculate_diff(stats.bytes_in, prev.bytes_in), dt);
                let cout = rate_exec(calculate_diff(stats.bytes_out, prev.bytes_out), dt);
                self.current_speed_in = cin;
                self.current_speed_out = cout;
                if !self.first_sample {
                    // keep the minimum below the maximum at every step
                    let min_in = if cin < self.min_speed_in || self.min_speed_in == 0 {
                        cin
                    } else {
                        self.min_speed_in
                    };
                    let max_in = if cin > self.max_speed_in {
                        cin
                    } else {
                        self.max_speed_in
                    };
                    let min_out = if cout < self.min_speed_out || self.min_speed_out == 0 {
                        cout
                    } else {
                        self.min_speed_out
                    };
                    let max_out = if cout > self.max_speed_out {
                        cout
                    } else {
                        self.max_speed_out
                    };
                    self.max_speed_in = max_in;
                    self.min_speed_in = min_in;
                    self.max_speed_out = max_out;
                    self.min_speed_out = min_out;
                }
                proof {
                    lemma_graph_after_same_ages(self.graphs.0@, self.graphs.1@, cin, cout);
                }
                let mut g: (Vec<(u32, u64)>, Vec<(u32, u64)>) = (Vec::new(), Vec::new());
                core::mem::swap(&mut g, &mut self.graphs);
                let (gi, go) = g;
                self.graphs = (graph_push(gi, cin), graph_push(go, cout));
            }
        }
        let mut h: Vec<NetworkStats> = Vec::new();
        core::mem::swap(&mut h, &mut self.history);
        h.push(stats);
        let h2 = trim_older(h, stats.timestamp, self.window_ms);
        self.history = h2;
        let m = self.history.len();
        if m >= 2 {
            let first = self.history[0];
            let last = self.history[m - 1];
            let span = elapsed_exec(first.timestamp, last.timestamp);
            if span > 0 {
                self.avg_speed_in = rate_exec(calculate_diff(last.bytes_in, first.bytes_in), span);
                self.avg_speed_out = rate_exec(
                    calculate_diff(last.bytes_out, first.bytes_out),
                    span,
                );
            }
        }
        self.first_sample = false;
        assert(self.view() == after_sample(v, stats));
        proof {
            law_graphs_in_step(v, stats);
        }
    }

    /// Current speeds (in, out).
    pub fn current_speed(&self) -> (r: (u64, u64))
        ensures
            r == (self.view().current_in, self.view().current_out),
    {
        (self.current_speed_in, self.current_speed_out)
    }

    /// Average speeds over the window (in, out).
    pub fn average_speed(&self) -> (r: (u64, u64))
        ensures
            r == (self.view().avg_in, self.view().avg_out),
    {
        (self.avg_speed_in, self.avg_speed_out)
    }

    /// Lowest speeds seen (in, out); never above the highest ones.
    pub fn min_speed(&self) -> (r: (u64, u64))
        ensures
            r == (self.view().min_in, self.view().min_out),
            r.0 <= self.view().max_in && r.1 <= self.view().max_out,
    {
        proof {
            use_type_invariant(self);
        }
        (self.min_speed_in, self.min_speed_out)
    }

    /// Highest speeds seen (in, out).
    pub fn max_speed(&self) -> (r: (u64, u64))
        ensures
            r == (self.view().max_in, self.view().max_out),
    {
        (self.max_speed_in, self.max_speed_out)
    }

    /// Byte counters of the latest reading (in, out).
    pub fn total_bytes(&self) -> (r: (u64, u64))
        ensures
            r == (self.view().total_bytes_in, self.view().total_bytes_out),
    {
        (self.total_bytes_in, self.total_bytes_out)
    }

    /// Packet counters of the latest reading (in, out).
    pub fn total_packets(&self) -> (r: (u64, u64))
        ensures
            r == (self.view().total_packets_in, self.view().total_packets_out),
    {
        (self.total_packets_in, self.total_packets_out)
    }

    /// Incoming graph points (age in half seconds, speed), oldest first;
    /// at most 120 points, none older than 60 seconds.
    pub fn graph_data_in(&self) -> (r: &Vec<(u32, u64)>)
        ensures
            r@ == self.view().graph_in,
            graph_ok(r@),
            ages(r@) == ages(self.view().graph_out),
            r@.len() == self.view().graph_out.len(),
    {
        proof {
            use_type_invariant(self);
            assert(ages(self.graphs.0@).len() == self.graphs.0@.len());
            assert(ages(self.graphs.1@).len() == self.graphs.1@.len());
        }
        &self.graphs.0
    }

    /// Outgoing graph points (see `graph_data_in`).
    pub fn graph_data_out(&self) -> (r: &Vec<(u32, u64)>)
        ensures
            r@ == self.view().graph_out,
            graph_ok(r@),
            ages(r@) == ages(self.view().graph_in),
            r@.len() == self.view().graph_in.len(),
    {
        proof {
            use_type_invariant(self);
            assert(ages(self.graphs.0@).len() == self.graphs.0@.len());
            assert(ages(self.graphs.1@).len() == self.graphs.1@.len());
        }
        &self.graphs.1
    }

    /// Number of readings in the window.
    pub fn sample_count(&self) -> (r: usize)
        ensures
            r == self.view().history.len(),
    {
        self.history.len()
    }

    /// Forgets the readings, speeds and graphs; the totals of the latest
    /// reading and the window are kept.
    pub fn reset(&mut self)
        ensures
            final(self).view() == (StatsView {
                history: Seq::empty(),
                current_in: 0,
                current_out: 0,
                avg_in: 0,
                avg_out: 0,
                min_in: 0,
                min_out: 0,
                max_in: 0,
                max_out: 0,
                graph_in: Seq::empty(),
                graph_out: Seq::empty(),
                first_sample: true,
                ..old(self).view()
            }),
    {
        proof {
            use_type_invariant(&*self);
        }
        self.history = Vec::new();
        self.graphs = (Vec::new(), Vec::new());
        self.current_speed_in = 0;
        self.current_speed_out = 0;
        self.avg_speed_in = 0;
        self.avg_speed_out = 0;
        self.min_speed_in = 0;
        self.min_speed_out = 0;
        self.max_speed_in = 0;
        self.max_speed_out = 0;
        self.first_sample = true;
    }
}

/// Bytes moved between two counter readings (see `counter_diff`).
pub fn calculate_diff(current: u64, previous: u64) -> (d: u64)
    ensures
        d == counter_diff(current, previous),
{
    if current >= previous {
        current - previous
    } else {
        let w: i128 = 0x1_0000_0000i128 + current as i128 - previous as i128;
        let d32: u64 = if w < 0 {
            (w + 0x1_0000_0000_0000_0000i128) as u64
        } else {
            w as u64
        };
        let d64: u64 = u64::MAX - previous + current + 1;
        if d32 < d64 / 1000 {
            d32
        } else {
            d64
        }
    }
}

fn elapsed_exec(a: u64, b: u64) -> (r: u64)
    ensures
        r == elapsed(a, b),
{
    if b > a {
        b - a
    } else {
        0
    }
}

fn rate_exec(bytes: u64, ms: u64) -> (r: u64)
    requires
        ms > 0,
    ensures
        r == rate(bytes, ms),
{
    let r: u128 = (bytes as u128) * 1000 / (ms as u128);
    if r > u64::MAX as u128 {
        u64::MAX
    } else {
        r as u64
    }
}

fn graph_push(g: Vec<(u32, u64)>, speed: u64) -> (r: Vec<(u32, u64)>)
    requires
        graph_ok(g@),
    ensures
        r@ == graph_after(g@, speed),
        graph_ok(r@),
{
    let mut a: Vec<(u32, u64)> = Vec::new();
    let mut i: usize = 0;
    while i < g.len()
        invariant
            i <= g@.len(),
            graph_ok(g@),
            a@ == aged(g@.take(i as int)),
            a@.len() <= i,
            forall|j: int| 0 <= j < a@.len() ==> #[trigger] a@[j].0 <= MAX_GRAPH_AGE,
        decreases g@.len() - i,
    {
        proof {
            assert(g@.take(i + 1).drop_last() =~= g@.take(i as int));
            assert(g@.take(i + 1).last() == g@[i as int]);
        }
        let (age, v) = g[i];
        if age + 1 <= MAX_GRAPH_AGE {
            a.push((age + 1, v));
        }
        i = i + 1;
    }
    assert(g@.take(i as int) =~= g@);
    a.push((0, speed));
    if a.len() > MAX_GRAPH_POINTS {
        let drop = a.len() - MAX_GRAPH_POINTS;
        let mut b: Vec<(u32, u64)> = Vec::new();
        let mut k: usize = drop;
        while k < a.len()
            invariant
                drop <= k <= a@.len(),
                b@ == a@.subrange(drop as int, k as int),
            decreases a@.len() - k,
        {
            b.push(a[k]);
            k = k + 1;
            assert(b@ =~= a@.subrange(drop as int, k as int));
        }
        assert(b@ =~= a@.skip(drop as int));
        b
    } else {
        a
    }
}

#[verifier::spinoff_prover]
#[verifier::rlimit(30)]
fn trim_older(h: Vec<NetworkStats>, latest: u64, window_ms: u64) -> (r: Vec<NetworkStats>)
    ensures
        r@ == drop_older(h@, latest - window_ms),
{
    let ghost cutoff = latest - window_ms;
    let mut k: usize = 0;
    assert(h@.skip(0) =~= h@);
    while k < h.len() && latest >= window_ms && h[k].timestamp < latest - window_ms
        invariant
            k <= h@.len(),
            cutoff == latest - window_ms,
            drop_older(h@, cutoff) == drop_older(h@.skip(k as int), cutoff),
        decreases h@.len() - k,
    {
        proof {
            assert(h@.skip(k as int).drop_first() =~= h@.skip(k + 1));
            assert(h@.skip(k as int)[0] == h@[k as int]);
        }
        k = k + 1;
    }
    proof {
        if k < h@.len() {
            assert(h@.skip(k as int)[0] == h@[k as int]);
        }
    }
    let mut r: Vec<NetworkStats> = Vec::new();
    let mut j: usize = k;
    while j < h.len()
        invariant
            k <= j <= h@.len(),
            r@ == h@.subrange(k as int, j as int),
        decreases h@.len() - j,
    {
        r.push(h[j]);
        j = j + 1;
        assert(r@ =~= h@.subrange(k as int, j as int));
    }
    assert(r@ =~= h@.skip(k as int));
    r
}

// ---------------------------------------------------------------------
// Laws
// ---------------------------------------------------------------------

/// A counter that did not go down moved by the plain difference.
pub proof fn law_diff_no_wrap(current: u64, previous: u64)
    requires
        current >= previous,
    ensures
        counter_diff(current, previous) == current - previous,
{
}

/// A 32-bit counter that wrapped moved by what it took to reach 2^32 and
/// then `current`.
pub proof fn law_diff_wrap_32(current: u64, previous: u64)
    requires
        current < previous <= u32::MAX,
    ensures
        counter_diff(current, previous) == 0x1_0000_0000int - previous + current,
{
}

/// Every reading reports its counters as the totals, and the minimum
/// speeds never rise above the maximum ones.
pub proof fn law_sample_totals(v: StatsView, s: NetworkStats)
    requires
        stats_ok(v),
    ensures
        after_sample(v, s).total_bytes_in == s.bytes_in,
        after_sample(v, s).total_bytes_out == s.bytes_out,
        after_sample(v, s).total_packets_in == s.packets_in,
        after_sample(v, s).total_packets_out == s.packets_out,
        after_sample(v, s).min_in <= after_sample(v, s).max_in,
        after_sample(v, s).min_out <= after_sample(v, s).max_out,
{
}

/// The first reading gives no speed: current speeds stay zero on a fresh
/// calculator.
pub proof fn law_first_sample_no_speed(v: StatsView, s: NetworkStats)
    requires
        v.history.len() == 0,
        v.current_in == 0,
        v.current_out == 0,
    ensures
        after_sample(v, s).current_in == 0,
        after_sample(v, s).current_out == 0,
        after_sample(v, s).history.len() == 1,
{
    let h = v.history.push(s);
    assert(h[0].timestamp as int >= s.timestamp - v.window_ms);
    assert(drop_older(h, s.timestamp - v.window_ms) == h);
}

/// Two readings one second apart give the byte differences as speeds.
pub proof fn law_speed_over_one_second(v: StatsView, s: NetworkStats)
    requires
        v.history.len() > 0,
        s.timestamp == v.history.last().timestamp + 1000,
        s.bytes_in >= v.history.last().bytes_in,
        s.bytes_out >= v.history.last().bytes_out,
    ensures
        after_sample(v, s).current_in == s.bytes_in - v.history.last().bytes_in,
        after_sample(v, s).current_out == s.bytes_out - v.history.last().bytes_out,
{
    let p = v.history.last();
    let di = (s.bytes_in - p.bytes_in) as int;
    let dout = (s.bytes_out - p.bytes_out) as int;
    assert(di * 1000 / 1000 == di) by (nonlinear_arith);
    assert(dout * 1000 / 1000 == dout) by (nonlinear_arith);
}


/// The current speeds come from the previous reading and the new one:
/// when the new reading is later, each current speed is the bytes moved
/// since the previous reading (a counter that did not go down) times
/// 1000 over the milliseconds between them, rounded down and capped at
/// `u64::MAX`; after the first sample the maximum speeds are the larger
/// of the old maximum and the new current speed. A reading that is not
/// later leaves the speeds alone.
pub proof fn law_current_speed(v: StatsView, s: NetworkStats)
    requires
        v.history.len() > 0,
    ensures
        ({
            let p = v.history.last();
            let w = after_sample(v, s);
            &&& (p.timestamp < s.timestamp && p.bytes_in <= s.bytes_in) ==> w.current_in == if (
            s.bytes_in - p.bytes_in) * 1000 / (s.timestamp - p.timestamp) > u64::MAX {
                u64::MAX as int
            } else {
                (s.bytes_in - p.bytes_in) * 1000 / (s.timestamp - p.timestamp)
            }
            &&& (p.timestamp < s.timestamp && p.bytes_out <= s.bytes_out) ==> w.current_out == if (
            s.bytes_out - p.bytes_out) * 1000 / (s.timestamp - p.timestamp) > u64::MAX {
                u64::MAX as int
            } else {
                (s.bytes_out - p.bytes_out) * 1000 / (s.timestamp - p.timestamp)
            }
            &&& (p.timestamp < s.timestamp && !v.first_sample) ==> w.max_in == if w.current_in
                > v.max_in {
                w.current_in
            } else {
                v.max_in
            } && w.max_out == if w.current_out > v.max_out {
                w.current_out
            } else {
                v.max_out
            }
            &&& p.timestamp >= s.timestamp ==> w.current_in == v.current_in && w.current_out
                == v.current_out && w.max_in == v.max_in && w.max_out == v.max_out && w.min_in
                == v.min_in && w.min_out == v.min_out
        }),
{
}

proof fn lemma_drop_older_suffix(h: Seq<NetworkStats>, cutoff: int) -> (k: int)
    ensures
        0 <= k <= h.len(),
        drop_older(h, cutoff) == h.skip(k),
        forall|j: int| 0 <= j < k ==> (#[trigger] h[j]).timestamp < cutoff,
        k < h.len() ==> h[k].timestamp >= cutoff,
    decreases h.len(),
{
    if h.len() > 0 && (h[0].timestamp as int) < cutoff {
        let t = h.drop_first();
        let k1 = lemma_drop_older_suffix(t, cutoff);
        assert(t.skip(k1) =~= h.skip(k1 + 1));
        assert forall|j: int| 0 <= j < k1 + 1 implies (#[trigger] h[j]).timestamp < cutoff by {
            if j > 0 {
                assert(h[j] == t[j - 1]);
            }
        }
        if k1 < t.len() {
            assert(h[k1 + 1] == t[k1]);
        }
        k1 + 1
    } else {
        assert(h.skip(0) =~= h);
        0
    }
}

/// The averages are taken over the whole window. After a reading `s`,
/// the window holds the readings so far with `s` appended, less the
/// leading ones stamped more than `window_ms` before `s` (so it ends with
/// `s`); when it holds two readings or more and `s` is later than its
/// oldest reading, each average is the bytes moved from that oldest
/// reading to `s` (a counter that did not go down) times 1000 over the
/// milliseconds between them, rounded down and capped at `u64::MAX`;
/// otherwise the averages stay as they were.
pub proof fn law_average_over_window(v: StatsView, s: NetworkStats)
    ensures
        ({
            let w = after_sample(v, s);
            let all = v.history.push(s);
            let h = w.history;
            let cutoff = s.timestamp - v.window_ms;
            &&& exists|k: int|
                0 <= k < all.len() && h == all.skip(k) && (forall|j: int|
                    0 <= j < k ==> (#[trigger] all[j]).timestamp < cutoff) && all[k].timestamp
                    >= cutoff
            &&& h.len() >= 1 && h.last() == s
            &&& (h.len() >= 2 && h[0].timestamp < s.timestamp && h[0].bytes_in <= s.bytes_in)
                ==> w.avg_in == if (s.bytes_in - h[0].bytes_in) * 1000 / (s.timestamp
                - h[0].timestamp) > u64::MAX {
                u64::MAX as int
            } else {
                (s.bytes_in - h[0].bytes_in) * 1000 / (s.timestamp - h[0].timestamp)
            }
            &&& (h.len() >= 2 && h[0].timestamp < s.timestamp && h[0].bytes_out <= s.bytes_out)
                ==> w.avg_out == if (s.bytes_out - h[0].bytes_out) * 1000 / (s.timestamp
                - h[0].timestamp) > u64::MAX {
                u64::MAX as int
            } else {
                (s.bytes_out - h[0].bytes_out) * 1000 / (s.timestamp - h[0].timestamp)
            }
            &&& !(h.len() >= 2 && h[0].timestamp < s.timestamp) ==> w.avg_in == v.avg_in
                && w.avg_out == v.avg_out
        }),
{
    let all = v.history.push(s);
    let cutoff = s.timestamp - v.window_ms;
    let k = lemma_drop_older_suffix(all, cutoff);
    assert(all[all.len() - 1] == s);
    let h = all.skip(k);
    assert(h.last() == all[all.len() - 1]);
    if h.len() >= 2 {
        assert(h[0] == all[k]);
    }
}

} // verus!
