//! Host information and load: the parsers of `/etc/os-release`,
//! `/proc/cpuinfo`, `/proc/meminfo` and `/proc/stat`, the CPU load between
//! two samples, and the monitors that keep them.
//!
//! Two variants of most parsers exist, as the monitor and its panic-proof
//! counterpart read the same files slightly differently. Running commands
//! and reading files is left to the caller; times are seconds since the
//! Unix epoch.
use vstd::prelude::*;

use core::time::Duration;

use crate::format::size_text;
use crate::clock::now_millis;
use crate::text::{
    chars_of, decimal, find_char, find_char_exec, lemma_find_char, lines, parse_u32,
    parse_u32_exec, parse_u64, parse_u64_exec, parse_u64_or, parse_u64_or_exec, push_all,
    push_decimal, slice_chars, split_lines, split_words, starts_with, starts_with_exec,
    string_from_chars, string_of, strip_prefix, strip_prefix_exec, trim, trim_exec, words,
    TrimSet,
};

verus! {

/// What is known of the host.
#[derive(Debug, Clone)]
pub struct SystemInfo {
    pub hostname: String,
    pub os_name: String,
    pub os_version: String,
    pub kernel_version: String,
    pub architecture: String,
    pub cpu_model: String,
    pub cpu_cores: u32,
    pub cpu_threads: u32,
    /// Bytes.
    pub total_memory: u64,
    /// Seconds since the Unix epoch.
    pub boot_time: u64,
    /// Seconds.
    pub uptime: u64,
}

/// What the panic-proof monitor knows of the host (same fields).
#[derive(Debug, Clone)]
pub struct SafeSystemInfo {
    pub hostname: String,
    pub os_name: String,
    pub os_version: String,
    pub kernel_version: String,
    pub architecture: String,
    pub cpu_model: String,
    pub cpu_cores: u32,
    pub cpu_threads: u32,
    /// Bytes.
    pub total_memory: u64,
    /// Seconds since the Unix epoch.
    pub boot_time: u64,
    /// Seconds.
    pub uptime: u64,
}

/// The CPU time counters of the `cpu` line of `/proc/stat`.
#[derive(Debug, Clone, Copy, PartialEq, Eq)]
pub struct CpuStats {
    pub user: u64,
    pub nice: u64,
    pub system: u64,
    pub idle: u64,
    pub iowait: u64,
    pub irq: u64,
    pub softirq: u64,
    pub steal: u64,
}

// ---------------------------------------------------------------------
// /etc/os-release
// ---------------------------------------------------------------------

/// `s` with every leading copy of `p` removed.
pub open spec fn strip_all(s: Seq<char>, p: Seq<char>) -> Seq<char>
    decreases s.len(),
{
    if p.len() > 0 && starts_with(s, p) {
        strip_all(s.skip(p.len() as int), p)
    } else {
        s
    }
}

fn strip_all_exec(v: &[char], p: &[char]) -> (r: Vec<char>)
    ensures
        r@ == strip_all(v@, p@),
{
    let mut cur: Vec<char> = slice_chars(v, 0, v.len());
    assert(cur@ =~= v@);
    while p.len() > 0 && starts_with_exec(cur.as_slice(), p)
        invariant
            strip_all(cur@, p@) == strip_all(v@, p@),
        decreases cur@.len(),
    {
        let next = slice_chars(cur.as_slice(), p.len(), cur.len());
        assert(next@ =~= cur@.skip(p@.len() as int));
        cur = next;
    }
    cur
}

/// A value of `os-release` without its surrounding quotes.
pub open spec fn unquote(s: Seq<char>) -> Seq<char> {
    trim(s, TrimSet::Char('"'))
}

/// The OS name and version after the lines `ls` of `os-release`: the last
/// `PRETTY_NAME=` and `VERSION=` values (with every leading copy of the
/// key removed), `Linux` and `Unknown` when absent.
pub open spec fn os_release_fold(ls: Seq<Seq<char>>) -> (Seq<char>, Seq<char>)
    decreases ls.len(),
{
    if ls.len() == 0 {
        ("Linux"@, "Unknown"@)
    } else {
        let r = os_release_fold(ls.drop_last());
        let l = ls.last();
        if starts_with(l, "PRETTY_NAME="@) {
            (unquote(strip_all(l, "PRETTY_NAME="@)), r.1)
        } else if starts_with(l, "VERSION="@) {
            (r.0, unquote(strip_all(l, "VERSION="@)))
        } else {
            r
        }
    }
}

/// As `os_release_fold`, with the key removed once.
pub open spec fn os_release_fold_safe(ls: Seq<Seq<char>>) -> (Seq<char>, Seq<char>)
    decreases ls.len(),
{
    if ls.len() == 0 {
        ("Linux"@, "Unknown"@)
    } else {
        let r = os_release_fold_safe(ls.drop_last());
        match strip_prefix(ls.last(), "PRETTY_NAME="@) {
            Some(v) => (unquote(v), r.1),
            None => match strip_prefix(ls.last(), "VERSION="@) {
                Some(v) => (r.0, unquote(v)),
                None => r,
            },
        }
    }
}

/// The OS name and version from `os-release` content (`None` when it
/// could not be read: `Linux`, `Unknown`).
pub fn os_info(content: Option<&str>) -> (r: (String, String))
    ensures
        (r.0@, r.1@) == os_release_fold(
            match content {
                Some(c) => lines(c@),
                None => Seq::empty(),
            },
        ),
{
    let text = match content {
        Some(c) => chars_of(c),
        None => Vec::new(),
    };
    let ls = split_lines(text.as_slice());
    let ghost gls = lines(text@);
    assert(match content {
        Some(c) => lines(c@),
        None => Seq::<Seq<char>>::empty(),
    } == gls) by {
        if content is None {
            assert(text@ =~= Seq::<char>::empty());
        }
    }
    let pretty = chars_of("PRETTY_NAME=");
    let version = chars_of("VERSION=");
    let mut name = chars_of("Linux");
    let mut ver = chars_of("Unknown");
    let mut i: usize = 0;
    assert(gls.take(0) =~= Seq::<Seq<char>>::empty());
    while i < ls.len()
        invariant
            i <= ls@.len(),
            ls@.len() == gls.len(),
            forall|j: int| 0 <= j < ls@.len() ==> #[trigger] ls@[j]@ == gls[j],
            pretty@ == "PRETTY_NAME="@,
            version@ == "VERSION="@,
            os_release_fold(gls.take(i as int)) == (name@, ver@),
        decreases ls@.len() - i,
    {
        let line = ls[i].as_slice();
        proof {
            assert(gls.take(i + 1).drop_last() =~= gls.take(i as int));
            assert(gls.take(i + 1).last() == gls[i as int]);
        }
        if starts_with_exec(line, pretty.as_slice()) {
            let v = strip_all_exec(line, pretty.as_slice());
            name = trim_exec(v.as_slice(), TrimSet::Char('"'));
        } else if starts_with_exec(line, version.as_slice()) {
            let v = strip_all_exec(line, version.as_slice());
            ver = trim_exec(v.as_slice(), TrimSet::Char('"'));
        }
        i = i + 1;
    }
    assert(gls.take(i as int) =~= gls);
    (string_from_chars(name.as_slice()), string_from_chars(ver.as_slice()))
}

/// As `os_info`, removing the key once (see `os_release_fold_safe`).
pub fn os_info_safe(content: Option<&str>) -> (r: (String, String))
    ensures
        (r.0@, r.1@) == os_release_fold_safe(
            match content {
                Some(c) => lines(c@),
                None => Seq::empty(),
            },
        ),
{
    let text = match content {
        Some(c) => chars_of(c),
        None => Vec::new(),
    };
    let ls = split_lines(text.as_slice());
    let ghost gls = lines(text@);
    assert(match content {
        Some(c) => lines(c@),
        None => Seq::<Seq<char>>::empty(),
    } == gls) by {
        if content is None {
            assert(text@ =~= Seq::<char>::empty());
        }
    }
    let pretty = chars_of("PRETTY_NAME=");
    let version = chars_of("VERSION=");
    let mut name = chars_of("Linux");
    let mut ver = chars_of("Unknown");
    let mut i: usize = 0;
    assert(gls.take(0) =~= Seq::<Seq<char>>::empty());
    while i < ls.len()
        invariant
            i <= ls@.len(),
            ls@.len() == gls.len(),
            forall|j: int| 0 <= j < ls@.len() ==> #[trigger] ls@[j]@ == gls[j],
            pretty@ == "PRETTY_NAME="@,
            version@ == "VERSION="@,
            os_release_fold_safe(gls.take(i as int)) == (name@, ver@),
        decreases ls@.len() - i,
    {
        let line = ls[i].as_slice();
        proof {
            assert(gls.take(i + 1).drop_last() =~= gls.take(i as int));
            assert(gls.take(i + 1).last() == gls[i as int]);
        }
        match strip_prefix_exec(line, pretty.as_slice()) {
            Some(v) => {
                name = trim_exec(v.as_slice(), TrimSet::Char('"'));
            },
            None => match strip_prefix_exec(line, version.as_slice()) {
                Some(v) => {
                    ver = trim_exec(v.as_slice(), TrimSet::Char('"'));
                },
                None => {},
            },
        }
        i = i + 1;
    }
    assert(gls.take(i as int) =~= gls);
    (string_from_chars(name.as_slice()), string_from_chars(ver.as_slice()))
}

// ---------------------------------------------------------------------
// /proc/cpuinfo
// ---------------------------------------------------------------------

/// What `str::split(':').nth(1)` gives of `l`: the text between its first
/// and second colons (or its end), when it has a colon.
pub open spec fn colon_field(l: Seq<char>) -> Option<Seq<char>> {
    let k = find_char(l, ':');
    if 0 <= k < l.len() {
        let rest = l.skip(k + 1);
        Some(rest.take(find_char(rest, ':')))
    } else {
        None
    }
}

fn colon_field_exec(l: &[char]) -> (r: Option<Vec<char>>)
    ensures
        match r {
            Some(x) => colon_field(l@) == Some(x@),
            None => colon_field(l@) is None,
        },
{
    let k = find_char_exec(l, ':');
    if k < l.len() {
        let rest = slice_chars(l, k + 1, l.len());
        assert(rest@ =~= l@.skip(k + 1));
        let e = find_char_exec(rest.as_slice(), ':');
        let f = slice_chars(rest.as_slice(), 0, e);
        assert(f@ =~= rest@.take(e as int));
        Some(f)
    } else {
        None
    }
}

/// `ids` with `id` added at the end unless it is already there.
pub open spec fn add_id(ids: Seq<u32>, id: u32) -> Seq<u32> {
    if ids.contains(id) {
        ids
    } else {
        ids.push(id)
    }
}

/// The CPU model, number of `processor` lines and distinct core ids after
/// the lines `ls` of `/proc/cpuinfo`: the model is the trimmed field after
/// the colon of the last `model name` line, a core id the trimmed number
/// after the colon of a `core id` line.
pub open spec fn cpuinfo_fold(ls: Seq<Seq<char>>) -> (Seq<char>, nat, Seq<u32>)
    decreases ls.len(),
{
    if ls.len() == 0 {
        ("Unknown CPU"@, 0, Seq::empty())
    } else {
        let r = cpuinfo_fold(ls.drop_last());
        let l = ls.last();
        if starts_with(l, "model name"@) {
            match colon_field(l) {
                Some(f) => (trim(f, TrimSet::Whitespace), r.1, r.2),
                None => r,
            }
        } else if starts_with(l, "processor"@) {
            (r.0, r.1 + 1, r.2)
        } else if starts_with(l, "core id"@) {
            match colon_field(l) {
                Some(f) => match parse_u32(trim(f, TrimSet::Whitespace)) {
                    Some(id) => (r.0, r.1, add_id(r.2, id)),
                    None => r,
                },
                None => r,
            }
        } else {
            r
        }
    }
}

/// As `cpuinfo_fold`, for lines that start with `model name:` or
/// `core id:` exactly.
pub open spec fn cpuinfo_fold_safe(ls: Seq<Seq<char>>) -> (Seq<char>, nat, Seq<u32>)
    decreases ls.len(),
{
    if ls.len() == 0 {
        ("Unknown CPU"@, 0, Seq::empty())
    } else {
        let r = cpuinfo_fold_safe(ls.drop_last());
        let l = ls.last();
        match strip_prefix(l, "model name:"@) {
            Some(f) => (trim(f, TrimSet::Whitespace), r.1, r.2),
            None => if starts_with(l, "processor"@) {
                (r.0, r.1 + 1, r.2)
            } else {
                match strip_prefix(l, "core id:"@) {
                    Some(f) => match parse_u32(trim(f, TrimSet::Whitespace)) {
                        Some(id) => (r.0, r.1, add_id(r.2, id)),
                        None => r,
                    },
                    None => r,
                }
            },
        }
    }
}

/// The model, cores and threads a fold result gives: cores are the
/// distinct core ids, or the threads when there are none.
pub open spec fn cpu_summary(r: (Seq<char>, nat, Seq<u32>)) -> (Seq<char>, u32, u32) {
    let threads = r.1;
    let cores = if r.2.len() == 0 {
        threads
    } else {
        r.2.len()
    };
    (r.0, cores as u32, threads as u32)
}

proof fn lemma_cpuinfo_counts(ls: Seq<Seq<char>>, safe: bool)
    ensures
        safe ==> cpuinfo_fold_safe(ls).1 <= ls.len() && cpuinfo_fold_safe(ls).2.len() <= ls.len(),
        !safe ==> cpuinfo_fold(ls).1 <= ls.len() && cpuinfo_fold(ls).2.len() <= ls.len(),
    decreases ls.len(),
{
    if ls.len() > 0 {
        lemma_cpuinfo_counts(ls.drop_last(), safe);
    }
}

fn contains_id(ids: &Vec<u32>, id: u32) -> (r: bool)
    ensures
        r == ids@.contains(id),
{
    let mut i: usize = 0;
    while i < ids.len()
        invariant
            i <= ids@.len(),
            forall|j: int| 0 <= j < i ==> ids@[j] != id,
        decreases ids@.len() - i,
    {
        if ids[i] == id {
            assert(ids@[i as int] == id);
            return true;
        }
        i = i + 1;
    }
    false
}

/// The CPU model, cores and threads from `/proc/cpuinfo` content (see
/// `cpuinfo_fold` and `cpu_summary`); `Unknown CPU`, 1 and 1 when it
/// could not be read.
pub fn cpu_info(content: Option<&str>) -> (r: (String, u32, u32))
    requires
        content matches Some(c) ==> lines(c@).len() <= u32::MAX,
    ensures
        match content {
            Some(c) => (r.0@, r.1, r.2) == cpu_summary(cpuinfo_fold(lines(c@))),
            None => r.0@ == "Unknown CPU"@ && r.1 == 1 && r.2 == 1,
        },
{
    match content {
        None => (string_of("Unknown CPU"), 1, 1),
        Some(c) => {
            let text = chars_of(c);
            let ls = split_lines(text.as_slice());
            let ghost gls = lines(c@);
            let model_tag = chars_of("model name");
            let proc_tag = chars_of("processor");
            let core_tag = chars_of("core id");
            let mut model = chars_of("Unknown CPU");
            let mut count: u32 = 0;
            let mut ids: Vec<u32> = Vec::new();
            let mut i: usize = 0;
            assert(gls.take(0) =~= Seq::<Seq<char>>::empty());
            while i < ls.len()
                invariant
                    i <= ls@.len(),
                    ls@.len() == gls.len(),
                    gls.len() <= u32::MAX,
                    forall|j: int| 0 <= j < ls@.len() ==> #[trigger] ls@[j]@ == gls[j],
                    model_tag@ == "model name"@,
                    proc_tag@ == "processor"@,
                    core_tag@ == "core id"@,
                    cpuinfo_fold(gls.take(i as int)) == (model@, count as nat, ids@),
                decreases ls@.len() - i,
            {
                let line = ls[i].as_slice();
                proof {
                    assert(gls.take(i + 1).drop_last() =~= gls.take(i as int));
                    assert(gls.take(i + 1).last() == gls[i as int]);
                    lemma_cpuinfo_counts(gls.take(i as int), false);
                }
                if starts_with_exec(line, model_tag.as_slice()) {
                    match colon_field_exec(line) {
                        Some(f) => {
                            model = trim_exec(f.as_slice(), TrimSet::Whitespace);
                        },
                        None => {},
                    }
                } else if starts_with_exec(line, proc_tag.as_slice()) {
                    count = count + 1;
                } else if starts_with_exec(line, core_tag.as_slice()) {
                    match colon_field_exec(line) {
                        Some(f) => {
                            let t = trim_exec(f.as_slice(), TrimSet::Whitespace);
                            match parse_u32_exec(t.as_slice()) {
                                Some(id) => {
                                    if !contains_id(&ids, id) {
                                        ids.push(id);
                                    }
                                },
                                None => {},
                            }
                        },
                        None => {},
                    }
                }
                i = i + 1;
            }
            assert(gls.take(i as int) =~= gls);
            proof {
                lemma_cpuinfo_counts(gls, false);
            }
            let cores: u32 = if ids.len() == 0 {
                count
            } else {
                ids.len() as u32
            };
            (string_from_chars(model.as_slice()), cores, count)
        },
    }
}

/// As `cpu_info`, for lines that start with `model name:` or `core id:`
/// exactly (see `cpuinfo_fold_safe`).
pub fn cpu_info_safe(content: Option<&str>) -> (r: (String, u32, u32))
    requires
        content matches Some(c) ==> lines(c@).len() <= u32::MAX,
    ensures
        match content {
            Some(c) => (r.0@, r.1, r.2) == cpu_summary(cpuinfo_fold_safe(lines(c@))),
            None => r.0@ == "Unknown CPU"@ && r.1 == 1 && r.2 == 1,
        },
{
    match content {
        None => (string_of("Unknown CPU"), 1, 1),
        Some(c) => {
            let text = chars_of(c);
            let ls = split_lines(text.as_slice());
            let ghost gls = lines(c@);
            let model_tag = chars_of("model name:");
            let proc_tag = chars_of("processor");
            let core_tag = chars_of("core id:");
            let mut model = chars_of("Unknown CPU");
            let mut count: u32 = 0;
            let mut ids: Vec<u32> = Vec::new();
            let mut i: usize = 0;
            assert(gls.take(0) =~= Seq::<Seq<char>>::empty());
            while i < ls.len()
                invariant
                    i <= ls@.len(),
                    ls@.len() == gls.len(),
                    gls.len() <= u32::MAX,
                    forall|j: int| 0 <= j < ls@.len() ==> #[trigger] ls@[j]@ == gls[j],
                    model_tag@ == "model name:"@,
                    proc_tag@ == "processor"@,
                    core_tag@ == "core id:"@,
                    cpuinfo_fold_safe(gls.take(i as int)) == (model@, count as nat, ids@),
                decreases ls@.len() - i,
            {
                let line = ls[i].as_slice();
                proof {
                    assert(gls.take(i + 1).drop_last() =~= gls.take(i as int));
                    assert(gls.take(i + 1).last() == gls[i as int]);
                    lemma_cpuinfo_counts(gls.take(i as int), true);
                }
                match strip_prefix_exec(line, model_tag.as_slice()) {
                    Some(f) => {
                        model = trim_exec(f.as_slice(), TrimSet::Whitespace);
                    },
                    None => {
                        if starts_with_exec(line, proc_tag.as_slice()) {
                            count = count + 1;
                        } else {
                            match strip_prefix_exec(line, core_tag.as_slice()) {
                                Some(f) => {
                                    let t = trim_exec(f.as_slice(), TrimSet::Whitespace);
                                    match parse_u32_exec(t.as_slice()) {
                                        Some(id) => {
                                            if !contains_id(&ids, id) {
                                                ids.push(id);
                                            }
                                        },
                                        None => {},
                                    }
                                },
                                None => {},
                            }
                        }
                    },
                }
                i = i + 1;
            }
            assert(gls.take(i as int) =~= gls);
            proof {
                lemma_cpuinfo_counts(gls, true);
            }
            let cores: u32 = if ids.len() == 0 {
                count
            } else {
                ids.len() as u32
            };
            (string_from_chars(model.as_slice()), cores, count)
        },
    }
}

// ---------------------------------------------------------------------
// Memory in use
// ---------------------------------------------------------------------

/// The bytes a `MemTotal:` or `MemAvailable:` line sets: 1024 times its
/// second word as a number (0 when not one); `None` without a second
/// word.
pub open spec fn kib_value(l: Seq<char>) -> Option<int> {
    let w = words(l);
    if w.len() >= 2 {
        Some(parse_u64_or(w[1], 0) * 1024)
    } else {
        None
    }
}

/// The total and available memory, in bytes, after the lines `ls` of
/// `/proc/meminfo`: the last values set.
pub open spec fn meminfo_fold(ls: Seq<Seq<char>>) -> (int, int)
    decreases ls.len(),
{
    if ls.len() == 0 {
        (0, 0)
    } else {
        let r = meminfo_fold(ls.drop_last());
        let l = ls.last();
        if starts_with(l, "MemTotal:"@) {
            match kib_value(l) {
                Some(v) => (v, r.1),
                None => r,
            }
        } else if starts_with(l, "MemAvailable:"@) {
            match kib_value(l) {
                Some(v) => (r.0, v),
                None => r,
            }
        } else {
            r
        }
    }
}

/// `meminfo` content whose `MemTotal:` and `MemAvailable:` lines give
/// values within 64 bits once in bytes.
pub open spec fn meminfo_in_range(content: Seq<char>) -> bool {
    let ls = lines(content);
    forall|i: int|
        0 <= i < ls.len() && (starts_with(ls[i], "MemTotal:"@) || starts_with(ls[i], "MemAvailable:"@))
            ==> match kib_value(#[trigger] ls[i]) {
            Some(v) => v <= u64::MAX,
            None => true,
        }
}

fn kib_value_exec(l: &[char]) -> (r: Option<u64>)
    requires
        match kib_value(l@) {
            Some(v) => v <= u64::MAX,
            None => true,
        },
    ensures
        match r {
            Some(v) => kib_value(l@) == Some(v as int),
            None => kib_value(l@) is None,
        },
{
    let w = split_words(l);
    assert(w@.map_values(|x: Vec<char>| x@) =~= words(l@));
    if w.len() >= 2 {
        Some(parse_u64_or_exec(w[1].as_slice(), 0) * 1024)
    } else {
        None
    }
}

/// Memory in use and available, in bytes, from `/proc/meminfo` content:
/// the total less the available, and the available.
pub fn memory_figures(content: &str) -> (r: (u64, u64))
    requires
        meminfo_in_range(content@),
        meminfo_fold(lines(content@)).1 <= meminfo_fold(lines(content@)).0,
    ensures
        r.0 == meminfo_fold(lines(content@)).0 - meminfo_fold(lines(content@)).1,
        r.1 == meminfo_fold(lines(content@)).1,
{
    let (total, available) = meminfo_totals(content);
    (total - available, available)
}

/// The bytes that the first word after the prefix `tag` of a line sets:
/// 1024 times that word as a number (0 when not one); `None` when the
/// line does not start with `tag` or nothing follows it.
pub open spec fn kib_after(l: Seq<char>, tag: Seq<char>) -> Option<int> {
    match strip_prefix(l, tag) {
        Some(rest) => if words(rest).len() > 0 {
            Some(parse_u64_or(words(rest)[0], 0) * 1024)
        } else {
            None
        },
        None => None,
    }
}

/// As `meminfo_fold`, each value read as the first word after its
/// prefix.
pub open spec fn meminfo_fold_safe(ls: Seq<Seq<char>>) -> (int, int)
    decreases ls.len(),
{
    if ls.len() == 0 {
        (0, 0)
    } else {
        let r = meminfo_fold_safe(ls.drop_last());
        let l = ls.last();
        if starts_with(l, "MemTotal:"@) {
            match kib_after(l, "MemTotal:"@) {
                Some(v) => (v, r.1),
                None => r,
            }
        } else if starts_with(l, "MemAvailable:"@) {
            match kib_after(l, "MemAvailable:"@) {
                Some(v) => (r.0, v),
                None => r,
            }
        } else {
            r
        }
    }
}

/// `meminfo` content whose values, read as the first word after their
/// prefix, fit in 64 bits once in bytes.
pub open spec fn meminfo_in_range_safe(content: Seq<char>) -> bool {
    let ls = lines(content);
    forall|i: int|
        0 <= i < ls.len() ==> {
            &&& (starts_with(ls[i], "MemTotal:"@) ==> match kib_after(#[trigger] ls[i], "MemTotal:"@) {
                Some(v) => v <= u64::MAX,
                None => true,
            })
            &&& (starts_with(ls[i], "MemAvailable:"@) ==> match kib_after(ls[i], "MemAvailable:"@) {
                Some(v) => v <= u64::MAX,
                None => true,
            })
        }
}

fn kib_after_exec(l: &[char], tag: &[char]) -> (r: Option<u64>)
    requires
        match kib_after(l@, tag@) {
            Some(v) => v <= u64::MAX,
            None => true,
        },
    ensures
        match r {
            Some(v) => kib_after(l@, tag@) == Some(v as int),
            None => kib_after(l@, tag@) is None,
        },
{
    match strip_prefix_exec(l, tag) {
        Some(rest) => {
            let w = split_words(rest.as_slice());
            assert(w@.map_values(|x: Vec<char>| x@) =~= words(rest@));
            if w.len() > 0 {
                Some(parse_u64_or_exec(w[0].as_slice(), 0) * 1024)
            } else {
                None
            }
        },
        None => None,
    }
}

/// Memory in use and available, in bytes, from `/proc/meminfo` content,
/// each value read as the first word after its prefix: the total less
/// the available (0 when more is available than there is in all), and
/// the available.
pub fn memory_figures_safe(content: &str) -> (r: (u64, u64))
    requires
        meminfo_in_range_safe(content@),
    ensures
        r.0 == sat(meminfo_fold_safe(lines(content@)).0, meminfo_fold_safe(lines(content@)).1),
        r.1 == meminfo_fold_safe(lines(content@)).1,
{
    let text = chars_of(content);
    let ls = split_lines(text.as_slice());
    let ghost gls = lines(content@);
    let total_tag = chars_of("MemTotal:");
    let avail_tag = chars_of("MemAvailable:");
    let mut total: u64 = 0;
    let mut available: u64 = 0;
    let mut i: usize = 0;
    assert(gls.take(0) =~= Seq::<Seq<char>>::empty());
    while i < ls.len()
        invariant
            i <= ls@.len(),
            ls@.len() == gls.len(),
            gls == lines(content@),
            meminfo_in_range_safe(content@),
            forall|j: int| 0 <= j < ls@.len() ==> #[trigger] ls@[j]@ == gls[j],
            total_tag@ == "MemTotal:"@,
            avail_tag@ == "MemAvailable:"@,
            meminfo_fold_safe(gls.take(i as int)) == (total as int, available as int),
        decreases ls@.len() - i,
    {
        let line = ls[i].as_slice();
        proof {
            assert(gls.take(i + 1).drop_last() =~= gls.take(i as int));
            assert(gls.take(i + 1).last() == gls[i as int]);
            assert(line@ == gls[i as int]);
        }
        if starts_with_exec(line, total_tag.as_slice()) {
            match kib_after_exec(line, total_tag.as_slice()) {
                Some(v) => {
                    total = v;
                },
                None => {},
            }
        } else if starts_with_exec(line, avail_tag.as_slice()) {
            match kib_after_exec(line, avail_tag.as_slice()) {
                Some(v) => {
                    available = v;
                },
                None => {},
            }
        }
        i = i + 1;
    }
    assert(gls.take(i as int) =~= gls);
    (total.saturating_sub(available), available)
}

fn meminfo_totals(content: &str) -> (r: (u64, u64))
    requires
        meminfo_in_range(content@),
    ensures
        r.0 == meminfo_fold(lines(content@)).0,
        r.1 == meminfo_fold(lines(content@)).1,
{
    let text = chars_of(content);
    let ls = split_lines(text.as_slice());
    let ghost gls = lines(content@);
    let total_tag = chars_of("MemTotal:");
    let avail_tag = chars_of("MemAvailable:");
    let mut total: u64 = 0;
    let mut available: u64 = 0;
    let mut i: usize = 0;
    assert(gls.take(0) =~= Seq::<Seq<char>>::empty());
    while i < ls.len()
        invariant
            i <= ls@.len(),
            ls@.len() == gls.len(),
            gls == lines(content@),
            meminfo_in_range(content@),
            forall|j: int| 0 <= j < ls@.len() ==> #[trigger] ls@[j]@ == gls[j],
            total_tag@ == "MemTotal:"@,
            avail_tag@ == "MemAvailable:"@,
            meminfo_fold(gls.take(i as int)) == (total as int, available as int),
        decreases ls@.len() - i,
    {
        let line = ls[i].as_slice();
        proof {
            assert(gls.take(i + 1).drop_last() =~= gls.take(i as int));
            assert(gls.take(i + 1).last() == gls[i as int]);
        }
        if starts_with_exec(line, total_tag.as_slice()) {
            match kib_value_exec(line) {
                Some(v) => {
                    total = v;
                },
                None => {},
            }
        } else if starts_with_exec(line, avail_tag.as_slice()) {
            match kib_value_exec(line) {
                Some(v) => {
                    available = v;
                },
                None => {},
            }
        }
        i = i + 1;
    }
    assert(gls.take(i as int) =~= gls);
    (total, available)
}

// ---------------------------------------------------------------------
// /proc/stat
// ---------------------------------------------------------------------

/// The counters of the `cpu ` line of `/proc/stat` when it is the first
/// line and has at least eight words: words 1 to 8 as numbers, 0 for any
/// that is not one (and for a missing eighth).
pub open spec fn cpu_stats_of(content: Seq<char>) -> Option<CpuStats> {
    let ls = lines(content);
    if ls.len() > 0 && starts_with(ls[0], "cpu "@) && words(ls[0]).len() >= 8 {
        let w = words(ls[0]);
        Some(
            CpuStats {
                user: parse_u64_or(w[1], 0),
                nice: parse_u64_or(w[2], 0),
                system: parse_u64_or(w[3], 0),
                idle: parse_u64_or(w[4], 0),
                iowait: parse_u64_or(w[5], 0),
                irq: parse_u64_or(w[6], 0),
                softirq: parse_u64_or(w[7], 0),
                steal: if w.len() > 8 {
                    parse_u64_or(w[8], 0)
                } else {
                    0
                },
            },
        )
    } else {
        None
    }
}

/// The counters assumed when `/proc/stat` has none: idle only.
pub open spec fn idle_cpu() -> CpuStats {
    CpuStats { user: 0, nice: 0, system: 0, idle: 1000, iowait: 0, irq: 0, softirq: 0, steal: 0 }
}

/// The CPU counters from `/proc/stat` content: those of its `cpu` line,
/// or the idle counters when it has none.
pub fn parse_cpu_stats(content: &str) -> (r: CpuStats)
    ensures
        r == match cpu_stats_of(content@) {
            Some(s) => s,
            None => idle_cpu(),
        },
{
    let text = chars_of(content);
    let ls = split_lines(text.as_slice());
    let tag = chars_of("cpu ");
    if ls.len() > 0 && starts_with_exec(ls[0].as_slice(), tag.as_slice()) {
        let w = split_words(ls[0].as_slice());
        assert(w@.map_values(|x: Vec<char>| x@) =~= words(lines(content@)[0]));
        if w.len() >= 8 {
            let steal = if w.len() > 8 {
                parse_u64_or_exec(w[8].as_slice(), 0)
            } else {
                0
            };
            return CpuStats {
                user: parse_u64_or_exec(w[1].as_slice(), 0),
                nice: parse_u64_or_exec(w[2].as_slice(), 0),
                system: parse_u64_or_exec(w[3].as_slice(), 0),
                idle: parse_u64_or_exec(w[4].as_slice(), 0),
                iowait: parse_u64_or_exec(w[5].as_slice(), 0),
                irq: parse_u64_or_exec(w[6].as_slice(), 0),
                softirq: parse_u64_or_exec(w[7].as_slice(), 0),
                steal,
            };
        }
    }
    CpuStats { user: 0, nice: 0, system: 0, idle: 1000, iowait: 0, irq: 0, softirq: 0, steal: 0 }
}

/// All the CPU time a sample counts.
pub open spec fn cpu_total(s: CpuStats) -> int {
    s.user + s.nice + s.system + s.idle + s.iowait + s.irq + s.softirq + s.steal
}

fn cpu_total_exec(s: &CpuStats) -> (r: u64)
    requires
        cpu_total(*s) <= u64::MAX,
    ensures
        r == cpu_total(*s),
{
    s.user + s.nice + s.system + s.idle + s.iowait + s.irq + s.softirq + s.steal
}

/// The CPU time spent busy and in all between samples `last` and
/// `current`, when some time passed.
pub open spec fn cpu_busy(last: CpuStats, current: CpuStats) -> Option<(u64, u64)> {
    let total = cpu_total(current) - cpu_total(last);
    let idle = current.idle - last.idle;
    if total > 0 {
        Some(((total - idle) as u64, total as u64))
    } else {
        None
    }
}

/// Samples for which `cpu_busy` is computed without overflow: counters
/// that sum within 64 bits and that did not go back.
pub open spec fn cpu_samples_ordered(last: CpuStats, current: CpuStats) -> bool {
    let total = cpu_total(current) - cpu_total(last);
    let idle = current.idle - last.idle;
    &&& cpu_total(last) <= u64::MAX
    &&& cpu_total(current) <= u64::MAX
    &&& total >= 0
    &&& idle >= 0
    &&& total > 0 ==> total >= idle
}

/// The total of a sample's counters, when it fits in 64 bits.
fn cpu_total_checked(s: &CpuStats) -> (r: Option<u64>)
    ensures
        r matches Some(t) ==> t == cpu_total(*s),
        r is None ==> cpu_total(*s) > u64::MAX,
{
    let t: u64 = s.user.checked_add(s.nice)?;
    let t: u64 = t.checked_add(s.system)?;
    let t: u64 = t.checked_add(s.idle)?;
    let t: u64 = t.checked_add(s.iowait)?;
    let t: u64 = t.checked_add(s.irq)?;
    let t: u64 = t.checked_add(s.softirq)?;
    let t: u64 = t.checked_add(s.steal)?;
    Some(t)
}

/// Whether `cpu_busy` of the two samples is computed without overflow
/// (see `cpu_samples_ordered`).
pub fn cpu_samples_in_order(last: &CpuStats, current: &CpuStats) -> (r: bool)
    ensures
        r == cpu_samples_ordered(*last, *current),
{
    match (cpu_total_checked(last), cpu_total_checked(current)) {
        (Some(tl), Some(tc)) => {
            if tc < tl || current.idle < last.idle {
                false
            } else {
                let total = tc - tl;
                total == 0 || total >= current.idle - last.idle
            }
        },
        _ => false,
    }
}

/// `a - b`, or 0 when `b` is larger.
pub open spec fn sat(a: int, b: int) -> int {
    if a >= b {
        a - b
    } else {
        0
    }
}

/// As `cpu_busy` with every difference saturating at 0.
pub open spec fn cpu_busy_safe(last: CpuStats, current: CpuStats) -> Option<(u64, u64)> {
    let total = sat(cpu_total(current), cpu_total(last));
    let idle = sat(current.idle as int, last.idle as int);
    if total > 0 {
        Some((sat(total, idle) as u64, total as u64))
    } else {
        None
    }
}

/// Between two samples whose counters did not go back (and sum within 64
/// bits), the time in all is the sum of the increases of every counter
/// (user, nice, system, idle, iowait, irq, softirq, steal) and the busy
/// time is that of every counter but `idle`; nothing is computed when no
/// time passed. The saturating variant agrees.
pub proof fn law_cpu_busy_counts_every_counter(last: CpuStats, current: CpuStats)
    requires
        last.user <= current.user,
        last.nice <= current.nice,
        last.system <= current.system,
        last.idle <= current.idle,
        last.iowait <= current.iowait,
        last.irq <= current.irq,
        last.softirq <= current.softirq,
        last.steal <= current.steal,
        current.user + current.nice + current.system + current.idle + current.iowait + current.irq
            + current.softirq + current.steal <= u64::MAX,
    ensures
        ({
            let busy = (current.user - last.user) + (current.nice - last.nice) + (current.system
                - last.system) + (current.iowait - last.iowait) + (current.irq - last.irq) + (
            current.softirq - last.softirq) + (current.steal - last.steal);
            let all = busy + (current.idle - last.idle);
            &&& cpu_busy(last, current) == if all > 0 {
                Some((busy as u64, all as u64))
            } else {
                None
            }
            &&& cpu_busy_safe(last, current) == cpu_busy(last, current)
        }),
{
}

// ---------------------------------------------------------------------
// /proc/meminfo
// ---------------------------------------------------------------------

/// The kibibytes a `MemTotal:` line gives: its second word as a number.
pub open spec fn mem_total_line(l: Seq<char>) -> Option<u64> {
    let w = words(l);
    if starts_with(l, "MemTotal:"@) && w.len() >= 2 {
        parse_u64(w[1])
    } else {
        None
    }
}

/// The kibibytes of the first line of `ls` at or after `i` that gives the
/// total memory.
pub open spec fn first_mem_total(ls: Seq<Seq<char>>, i: int) -> Option<u64>
    decreases ls.len() - i,
{
    if i < 0 || i >= ls.len() {
        None
    } else {
        match mem_total_line(ls[i]) {
            Some(v) => Some(v),
            None => first_mem_total(ls, i + 1),
        }
    }
}

/// The total memory in bytes from `meminfo` content: 1024 times the
/// kibibytes of its first `MemTotal:` line that gives a number, 0 when
/// none does.
pub open spec fn mem_total_bytes(content: Seq<char>) -> int {
    match first_mem_total(lines(content), 0) {
        Some(kb) => kb * 1024,
        None => 0,
    }
}

/// The total memory in bytes from `meminfo` content (see
/// `mem_total_bytes`).
pub fn parse_total_memory(content: &str) -> (r: u64)
    requires
        mem_total_bytes(content@) <= u64::MAX,
    ensures
        r == mem_total_bytes(content@),
{
    let text = chars_of(content);
    let ls = split_lines(text.as_slice());
    let ghost gls = lines(content@);
    let tag = chars_of("MemTotal:");
    let mut i: usize = 0;
    while i < ls.len()
        invariant
            i <= ls@.len(),
            ls@.len() == gls.len(),
            forall|j: int| 0 <= j < ls@.len() ==> #[trigger] ls@[j]@ == gls[j],
            gls == lines(content@),
            tag@ == "MemTotal:"@,
            first_mem_total(gls, 0) == first_mem_total(gls, i as int),
            mem_total_bytes(content@) <= u64::MAX,
        decreases ls@.len() - i,
    {
        let line = ls[i].as_slice();
        if starts_with_exec(line, tag.as_slice()) {
            let w = split_words(line);
            assert(w@.map_values(|x: Vec<char>| x@) =~= words(gls[i as int]));
            if w.len() >= 2 {
                match parse_u64_exec(w[1].as_slice()) {
                    Some(kb) => {
                        return kb * 1024;
                    },
                    None => {},
                }
            }
        }
        i = i + 1;
    }
    0
}

/// As `mem_total_line`, reading the first word after the `MemTotal:`
/// prefix.
pub open spec fn mem_total_line_safe(l: Seq<char>) -> Option<u64> {
    match strip_prefix(l, "MemTotal:"@) {
        Some(rest) => if words(rest).len() > 0 {
            parse_u64(words(rest)[0])
        } else {
            None
        },
        None => None,
    }
}

pub open spec fn first_mem_total_safe(ls: Seq<Seq<char>>, i: int) -> Option<u64>
    decreases ls.len() - i,
{
    if i < 0 || i >= ls.len() {
        None
    } else {
        match mem_total_line_safe(ls[i]) {
            Some(v) => Some(v),
            None => first_mem_total_safe(ls, i + 1),
        }
    }
}

pub open spec fn mem_total_bytes_safe(content: Seq<char>) -> int {
    match first_mem_total_safe(lines(content), 0) {
        Some(kb) => kb * 1024,
        None => 0,
    }
}

/// As `parse_total_memory`, reading the first word after the prefix.
pub fn parse_total_memory_safe(content: &str) -> (r: u64)
    requires
        mem_total_bytes_safe(content@) <= u64::MAX,
    ensures
        r == mem_total_bytes_safe(content@),
{
    let text = chars_of(content);
    let ls = split_lines(text.as_slice());
    let ghost gls = lines(content@);
    let tag = chars_of("MemTotal:");
    let mut i: usize = 0;
    while i < ls.len()
        invariant
            i <= ls@.len(),
            ls@.len() == gls.len(),
            forall|j: int| 0 <= j < ls@.len() ==> #[trigger] ls@[j]@ == gls[j],
            gls == lines(content@),
            tag@ == "MemTotal:"@,
            first_mem_total_safe(gls, 0) == first_mem_total_safe(gls, i as int),
            mem_total_bytes_safe(content@) <= u64::MAX,
        decreases ls@.len() - i,
    {
        match strip_prefix_exec(ls[i].as_slice(), tag.as_slice()) {
            Some(rest) => {
                let w = split_words(rest.as_slice());
                assert(w@.map_values(|x: Vec<char>| x@) =~= words(rest@));
                if w.len() > 0 {
                    match parse_u64_exec(w[0].as_slice()) {
                        Some(kb) => {
                            return kb * 1024;
                        },
                        None => {},
                    }
                }
            },
            None => {},
        }
        i = i + 1;
    }
    0
}

// ---------------------------------------------------------------------
// Boot time
// ---------------------------------------------------------------------

/// The seconds a `btime ` line of `/proc/stat` gives: its second word.
pub open spec fn btime_line(l: Seq<char>) -> Option<u64> {
    let w = words(l);
    if starts_with(l, "btime "@) && w.len() >= 2 {
        parse_u64(w[1])
    } else {
        None
    }
}

pub open spec fn first_btime(ls: Seq<Seq<char>>, i: int) -> Option<u64>
    decreases ls.len() - i,
{
    if i < 0 || i >= ls.len() {
        None
    } else {
        match btime_line(ls[i]) {
            Some(v) => Some(v),
            None => first_btime(ls, i + 1),
        }
    }
}

/// The boot time, in seconds since the epoch, of the first `btime ` line
/// of `/proc/stat` content that gives one.
pub fn parse_boot_time(content: &str) -> (r: Option<u64>)
    ensures
        r == first_btime(lines(content@), 0),
{
    let text = chars_of(content);
    let ls = split_lines(text.as_slice());
    let ghost gls = lines(content@);
    let tag = chars_of("btime ");
    let mut i: usize = 0;
    while i < ls.len()
        invariant
            i <= ls@.len(),
            ls@.len() == gls.len(),
            forall|j: int| 0 <= j < ls@.len() ==> #[trigger] ls@[j]@ == gls[j],
            gls == lines(content@),
            tag@ == "btime "@,
            first_btime(gls, 0) == first_btime(gls, i as int),
        decreases ls@.len() - i,
    {
        let line = ls[i].as_slice();
        if starts_with_exec(line, tag.as_slice()) {
            let w = split_words(line);
            assert(w@.map_values(|x: Vec<char>| x@) =~= words(gls[i as int]));
            if w.len() >= 2 {
                match parse_u64_exec(w[1].as_slice()) {
                    Some(t) => {
                        return Some(t);
                    },
                    None => {},
                }
            }
        }
        i = i + 1;
    }
    None
}

/// As `btime_line`, reading all that follows the prefix, trimmed.
pub open spec fn btime_line_safe(l: Seq<char>) -> Option<u64> {
    match strip_prefix(l, "btime "@) {
        Some(rest) => parse_u64(trim(rest, TrimSet::Whitespace)),
        None => None,
    }
}

pub open spec fn first_btime_safe(ls: Seq<Seq<char>>, i: int) -> Option<u64>
    decreases ls.len() - i,
{
    if i < 0 || i >= ls.len() {
        None
    } else {
        match btime_line_safe(ls[i]) {
            Some(v) => Some(v),
            None => first_btime_safe(ls, i + 1),
        }
    }
}

/// As `parse_boot_time`, reading all that follows the prefix.
pub fn parse_boot_time_safe(content: &str) -> (r: Option<u64>)
    ensures
        r == first_btime_safe(lines(content@), 0),
{
    let text = chars_of(content);
    let ls = split_lines(text.as_slice());
    let ghost gls = lines(content@);
    let tag = chars_of("btime ");
    let mut i: usize = 0;
    while i < ls.len()
        invariant
            i <= ls@.len(),
            ls@.len() == gls.len(),
            forall|j: int| 0 <= j < ls@.len() ==> #[trigger] ls@[j]@ == gls[j],
            gls == lines(content@),
            tag@ == "btime "@,
            first_btime_safe(gls, 0) == first_btime_safe(gls, i as int),
        decreases ls@.len() - i,
    {
        match strip_prefix_exec(ls[i].as_slice(), tag.as_slice()) {
            Some(rest) => {
                let t = trim_exec(rest.as_slice(), TrimSet::Whitespace);
                match parse_u64_exec(t.as_slice()) {
                    Some(v) => {
                        return Some(v);
                    },
                    None => {},
                }
            },
            None => {},
        }
        i = i + 1;
    }
    None
}

/// The boot time to use at `now`: the one read, else an hour before
/// `now` (the epoch at the earliest).
pub open spec fn boot_time_or_recent(read: Option<u64>, now: u64) -> u64 {
    match read {
        Some(t) => t,
        None => if now >= 3600 {
            (now - 3600) as u64
        } else {
            0
        },
    }
}

/// The boot time to use at `now` (see `boot_time_or_recent`).
pub fn boot_time_or_fallback(read: Option<u64>, now: u64) -> (r: u64)
    ensures
        r == boot_time_or_recent(read, now),
{
    match read {
        Some(t) => t,
        None => if now >= 3600 {
            now - 3600
        } else {
            0
        },
    }
}

/// The uptime at `now` of a system booted at `boot`: zero when `boot` is
/// later.
pub fn uptime_since(boot: u64, now: u64) -> (r: u64)
    ensures
        r == (if now >= boot {
            now - boot
        } else {
            0
        }),
{
    if now >= boot {
        now - boot
    } else {
        0
    }
}

// ---------------------------------------------------------------------
// Uptime text
// ---------------------------------------------------------------------

/// `2d 3h 4m`, `3h 4m` or `4m`: whole days, hours and minutes of
/// `secs`, leading zero units left out.
pub open spec fn uptime_text(secs: nat) -> Seq<char> {
    let days = secs / 86400;
    let hours = (secs % 86400) / 3600;
    let minutes = (secs % 3600) / 60;
    if days > 0 {
        decimal(days) + "d "@ + decimal(hours) + "h "@ + decimal(minutes) + "m"@
    } else if hours > 0 {
        decimal(hours) + "h "@ + decimal(minutes) + "m"@
    } else {
        decimal(minutes) + "m"@
    }
}

/// The uptime text of `total_secs` seconds (see `uptime_text`).
pub fn format_uptime_secs(total_secs: u64) -> (r: String)
    ensures
        r@ == uptime_text(total_secs as nat),
{
    let days = total_secs / 86400;
    let hours = (total_secs % 86400) / 3600;
    let minutes = (total_secs % 3600) / 60;
    let mut out: Vec<char> = Vec::new();
    if days > 0 {
        push_decimal(&mut out, days);
        push_all(&mut out, chars_of("d ").as_slice());
        push_decimal(&mut out, hours);
        push_all(&mut out, chars_of("h ").as_slice());
    } else if hours > 0 {
        push_decimal(&mut out, hours);
        push_all(&mut out, chars_of("h ").as_slice());
    }
    push_decimal(&mut out, minutes);
    push_all(&mut out, chars_of("m").as_slice());
    proof {
        let s = total_secs as nat;
        assert(days as nat == s / 86400);
        assert(hours as nat == (s % 86400) / 3600);
        assert(minutes as nat == (s % 3600) / 60);
    }
    assert(out@ =~= uptime_text(total_secs as nat));
    string_from_chars(out.as_slice())
}

/// What `Duration::as_secs` returns for `d`: its whole seconds.
pub uninterp spec fn whole_secs(d: Duration) -> u64;

/// Calls `Duration::as_secs`: the whole seconds of a duration, named
/// `whole_secs`.
#[verifier::external_body]
fn duration_secs(d: &Duration) -> (s: u64)
    ensures
        s == whole_secs(*d),
{
    d.as_secs()
}

// ---------------------------------------------------------------------
// The monitors
// ---------------------------------------------------------------------

/// Keeps the host information and the last CPU sample.
pub struct SystemMonitor {
    system_info: SystemInfo,
    last_cpu_stats: Option<CpuStats>,
    last_update: u64,
}

impl SystemMonitor {
    pub closed spec fn info(self) -> SystemInfo {
        self.system_info
    }

    /// The CPU sample the next load is measured against.
    pub closed spec fn last_cpu(self) -> Option<CpuStats> {
        self.last_cpu_stats
    }

    /// A monitor of a host described by `system_info`, with no CPU sample
    /// yet.
    pub fn new(system_info: SystemInfo) -> (m: SystemMonitor)
        ensures
            m.info() == system_info,
            m.last_cpu() is None,
    {
        SystemMonitor { system_info, last_cpu_stats: None, last_update: now_millis() }
    }

    pub fn get_system_info(&self) -> (r: &SystemInfo)
        ensures
            *r == self.info(),
    {
        &self.system_info
    }

    /// Whether `record_cpu_sample` may take `current`: there is no sample
    /// yet, or the two are in order (see `cpu_samples_ordered`).
    pub fn accepts_cpu_sample(&self, current: &CpuStats) -> (r: bool)
        ensures
            r == (self.last_cpu() matches Some(l) ==> cpu_samples_ordered(l, *current)),
    {
        match &self.last_cpu_stats {
            Some(last) => cpu_samples_in_order(last, current),
            None => true,
        }
    }

    /// Takes a new CPU sample: the busy and total time since the previous
    /// one (see `cpu_busy`), `None` for the first sample or when no time
    /// passed; the sample is kept for the next call.
    pub fn record_cpu_sample(&mut self, current: CpuStats) -> (r: Option<(u64, u64)>)
        requires
            old(self).last_cpu() matches Some(l) ==> cpu_samples_ordered(l, current),
        ensures
            final(self).last_cpu() == Some(current),
            final(self).info() == old(self).info(),
            r == match old(self).last_cpu() {
                Some(l) => cpu_busy(l, current),
                None => None,
            },
    {
        let r = match &self.last_cpu_stats {
            Some(last) => {
                let total_last = cpu_total_exec(last);
                let total_current = cpu_total_exec(&current);
                let total_diff = total_current - total_last;
                let idle_diff = current.idle - last.idle;
                if total_diff > 0 {
                    Some((total_diff - idle_diff, total_diff))
                } else {
                    None
                }
            },
            None => None,
        };
        self.last_cpu_stats = Some(current);
        r
    }

    /// A size in binary units (see `size_text`).
    pub fn format_bytes(bytes: u64) -> (r: String)
        ensures
            r@ == size_text(bytes as nat),
    {
        crate::format::format_bytes(bytes)
    }

    /// The uptime text of a duration (see `uptime_text`).
    pub fn format_uptime(duration: Duration) -> (r: String)
        ensures
            r@ == uptime_text(whole_secs(duration) as nat),
    {
        format_uptime_secs(duration_secs(&duration))
    }
}

/// Keeps what could be learnt of the host, the errors met doing so, and
/// the last CPU sample.
pub struct SafeSystemMonitor {
    last_cpu_stats: Option<CpuStats>,
    last_update: u64,
    system_info: Option<SafeSystemInfo>,
    errors: Vec<String>,
}

impl SafeSystemMonitor {
    pub closed spec fn info(self) -> Option<SafeSystemInfo> {
        self.system_info
    }

    pub closed spec fn last_cpu(self) -> Option<CpuStats> {
        self.last_cpu_stats
    }

    /// The errors met, as messages.
    pub closed spec fn error_messages(self) -> Seq<Seq<char>> {
        self.errors@.map_values(|e: String| e@)
    }

    /// A monitor given the outcome of collecting the host information:
    /// `None` when the collection panicked, else its result. A failure is
    /// kept as an error message and leaves the information unknown.
    pub fn new(collected: Option<core::result::Result<SafeSystemInfo, String>>) -> (m: SafeSystemMonitor)
        ensures
            m.last_cpu() is None,
            match collected {
                Some(Ok(info)) => m.info() == Some(info) && m.error_messages().len() == 0,
                Some(Err(e)) => m.info() is None && m.error_messages() == seq![
                    "System info error: "@ + e@,
                ],
                None => m.info() is None && m.error_messages() == seq![
                    "System info collection panicked"@,
                ],
            },
    {
        let mut errors: Vec<String> = Vec::new();
        let mut system_info: Option<SafeSystemInfo> = None;
        match collected {
            Some(Ok(info)) => {
                system_info = Some(info);
            },
            Some(Err(e)) => {
                let mut msg = chars_of("System info error: ");
                push_all(&mut msg, chars_of(e.as_str()).as_slice());
                errors.push(string_from_chars(msg.as_slice()));
            },
            None => {
                errors.push(string_of("System info collection panicked"));
            },
        }
        let m = SafeSystemMonitor {
            last_cpu_stats: None,
            last_update: now_millis(),
            system_info,
            errors,
        };
        assert(m.error_messages() =~= (match collected {
            Some(Ok(_)) => Seq::<Seq<char>>::empty(),
            Some(Err(e)) => seq!["System info error: "@ + e@],
            None => seq!["System info collection panicked"@],
        }));
        m
    }

    pub fn get_system_info(&self) -> (r: Option<&SafeSystemInfo>)
        ensures
            match self.info() {
                Some(i) => r matches Some(x) && *x == i,
                None => r is None,
            },
    {
        match &self.system_info {
            Some(i) => Some(i),
            None => None,
        }
    }

    /// Takes a new CPU sample: the busy and total time since the previous
    /// one with saturating differences (see `cpu_busy_safe`); the sample
    /// is kept for the next call.
    pub fn record_cpu_sample(&mut self, current: CpuStats) -> (r: Option<(u64, u64)>)
        requires
            cpu_total(current) <= u64::MAX,
            old(self).last_cpu() matches Some(l) ==> cpu_total(l) <= u64::MAX,
        ensures
            final(self).last_cpu() == Some(current),
            final(self).info() == old(self).info(),
            r == match old(self).last_cpu() {
                Some(l) => cpu_busy_safe(l, current),
                None => None,
            },
    {
        let r = match &self.last_cpu_stats {
            Some(last) => {
                let total_last = cpu_total_exec(last);
                let total_current = cpu_total_exec(&current);
                let total_diff = total_current.saturating_sub(total_last);
                let idle_diff = current.idle.saturating_sub(last.idle);
                if total_diff > 0 {
                    Some((total_diff.saturating_sub(idle_diff), total_diff))
                } else {
                    None
                }
            },
            None => None,
        };
        self.last_cpu_stats = Some(current);
        r
    }

    /// A size in binary units (see `size_text`).
    pub fn format_bytes(bytes: u64) -> (r: String)
        ensures
            r@ == size_text(bytes as nat),
    {
        crate::format::format_bytes(bytes)
    }

    /// The uptime text of a duration (see `uptime_text`).
    pub fn format_uptime(duration: Duration) -> (r: String)
        ensures
            r@ == uptime_text(whole_secs(duration) as nat),
    {
        format_uptime_secs(duration_secs(&duration))
    }
}

} // verus!

verus! {

/// Whether `meminfo` content is one the memory parsers take (see
/// `meminfo_in_range`).
pub fn is_meminfo_in_range(content: &str) -> (r: bool)
    ensures
        r == meminfo_in_range(content@),
{
    let text = chars_of(content);
    let ls = split_lines(text.as_slice());
    let ghost gls = lines(content@);
    let total_tag = chars_of("MemTotal:");
    let avail_tag = chars_of("MemAvailable:");
    let mut i: usize = 0;
    while i < ls.len()
        invariant
            i <= ls@.len(),
            ls@.len() == gls.len(),
            gls == lines(content@),
            forall|j: int| 0 <= j < ls@.len() ==> #[trigger] ls@[j]@ == gls[j],
            total_tag@ == "MemTotal:"@,
            avail_tag@ == "MemAvailable:"@,
            forall|j: int|
                0 <= j < i && (starts_with(gls[j], "MemTotal:"@) || starts_with(gls[j], "MemAvailable:"@))
                    ==> match kib_value(#[trigger] gls[j]) {
                    Some(v) => v <= u64::MAX,
                    None => true,
                },
        decreases ls@.len() - i,
    {
        let line = ls[i].as_slice();
        if starts_with_exec(line, total_tag.as_slice()) || starts_with_exec(line, avail_tag.as_slice()) {
            let w = split_words(line);
            assert(w@.map_values(|x: Vec<char>| x@) =~= words(line@));
            if w.len() >= 2 {
                let v = parse_u64_or_exec(w[1].as_slice(), 0);
                if v > u64::MAX / 1024 {
                    return false;
                }
            }
        }
        i = i + 1;
    }
    true
}

/// Whether the value after `tag` of `l`, if any, fits in 64 bits once
/// in bytes.
fn kib_after_fits(l: &[char], tag: &[char]) -> (r: bool)
    ensures
        r == match kib_after(l@, tag@) {
            Some(v) => v <= u64::MAX,
            None => true,
        },
{
    match strip_prefix_exec(l, tag) {
        Some(rest) => {
            let w = split_words(rest.as_slice());
            assert(w@.map_values(|x: Vec<char>| x@) =~= words(rest@));
            if w.len() > 0 {
                parse_u64_or_exec(w[0].as_slice(), 0) <= u64::MAX / 1024
            } else {
                true
            }
        },
        None => true,
    }
}

/// Whether `meminfo` content is one `memory_figures_safe` takes (see
/// `meminfo_in_range_safe`).
pub fn is_meminfo_in_range_safe(content: &str) -> (r: bool)
    ensures
        r == meminfo_in_range_safe(content@),
{
    let text = chars_of(content);
    let ls = split_lines(text.as_slice());
    let ghost gls = lines(content@);
    let total_tag = chars_of("MemTotal:");
    let avail_tag = chars_of("MemAvailable:");
    let mut i: usize = 0;
    while i < ls.len()
        invariant
            i <= ls@.len(),
            ls@.len() == gls.len(),
            gls == lines(content@),
            forall|j: int| 0 <= j < ls@.len() ==> #[trigger] ls@[j]@ == gls[j],
            total_tag@ == "MemTotal:"@,
            avail_tag@ == "MemAvailable:"@,
            forall|j: int|
                0 <= j < i ==> {
                    &&& (starts_with(gls[j], "MemTotal:"@) ==> match kib_after(#[trigger] gls[j], "MemTotal:"@) {
                        Some(v) => v <= u64::MAX,
                        None => true,
                    })
                    &&& (starts_with(gls[j], "MemAvailable:"@) ==> match kib_after(gls[j], "MemAvailable:"@) {
                        Some(v) => v <= u64::MAX,
                        None => true,
                    })
                },
        decreases ls@.len() - i,
    {
        let line = ls[i].as_slice();
        assert(line@ == gls[i as int]);
        if !kib_after_fits(line, total_tag.as_slice()) || !kib_after_fits(line, avail_tag.as_slice()) {
            return false;
        }
        i = i + 1;
    }
    true
}

} // verus!
