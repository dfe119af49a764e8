//! The monitor's settings and the nload-compatible configuration format.
use vstd::prelude::*;

use crate::cli::{unit_code, unit_of_code, Args, DataUnit, TrafficUnit};
use crate::text::{
    chars_eq, chars_of, find_char, lemma_find_char, lines, parse_uint, parse_uint_exec,
    slice_chars, split_lines, string_from_chars, string_of, trim, trim_exec, TrimSet,
};

verus! {

/// The settings, as stored in `~/.netwatch` (TOML) or `~/.nload`.
#[derive(Debug, Clone)]
pub struct Config {
    pub average_window: u32,
    pub max_incoming: u64,
    pub max_outgoing: u64,
    pub data_format: String,
    pub devices: String,
    pub multiple_devices: bool,
    pub refresh_interval: u64,
    pub traffic_format: String,
    pub diagnostic_targets: Vec<String>,
    pub dns_domains: Vec<String>,
}

/// The settings as plain values.
pub struct ConfigView {
    pub average_window: u32,
    pub max_incoming: u64,
    pub max_outgoing: u64,
    pub data_format: Seq<char>,
    pub devices: Seq<char>,
    pub multiple_devices: bool,
    pub refresh_interval: u64,
    pub traffic_format: Seq<char>,
    pub diagnostic_targets: Seq<Seq<char>>,
    pub dns_domains: Seq<Seq<char>>,
}

impl View for Config {
    type V = ConfigView;

    open spec fn view(&self) -> ConfigView {
        ConfigView {
            average_window: self.average_window,
            max_incoming: self.max_incoming,
            max_outgoing: self.max_outgoing,
            data_format: self.data_format@,
            devices: self.devices@,
            multiple_devices: self.multiple_devices,
            refresh_interval: self.refresh_interval,
            traffic_format: self.traffic_format@,
            diagnostic_targets: self.diagnostic_targets@.map_values(|s: String| s@),
            dns_domains: self.dns_domains@.map_values(|s: String| s@),
        }
    }
}

/// Hosts probed by the connectivity diagnostics unless configured.
pub open spec fn default_targets() -> Seq<Seq<char>> {
    seq!["1.1.1.1"@, "8.8.8.8"@]
}

/// Domains resolved by the DNS diagnostics unless configured.
pub open spec fn default_domains() -> Seq<Seq<char>> {
    seq!["cloudflare.com"@, "google.com"@]
}

/// The default settings: 300 s average window, automatic scales, totals
/// in MByte, all devices, one device at a time, 500 ms refresh, speeds
/// in kbit/s.
pub open spec fn default_view() -> ConfigView {
    ConfigView {
        average_window: 300,
        max_incoming: 0,
        max_outgoing: 0,
        data_format: "M"@,
        devices: "all"@,
        multiple_devices: false,
        refresh_interval: 500,
        traffic_format: "k"@,
        diagnostic_targets: default_targets(),
        dns_domains: default_domains(),
    }
}

pub fn default_diagnostic_targets() -> (r: Vec<String>)
    ensures
        r@.map_values(|s: String| s@) == default_targets(),
{
    let mut r = Vec::new();
    r.push(string_of("1.1.1.1"));
    r.push(string_of("8.8.8.8"));
    assert(r@.map_values(|s: String| s@) =~= default_targets());
    r
}

pub fn default_dns_domains() -> (r: Vec<String>)
    ensures
        r@.map_values(|s: String| s@) == default_domains(),
{
    let mut r = Vec::new();
    r.push(string_of("cloudflare.com"));
    r.push(string_of("google.com"));
    assert(r@.map_values(|s: String| s@) =~= default_domains());
    r
}

impl Default for Config {
    fn default() -> (c: Config)
        ensures
            c@ == default_view(),
    {
        Config {
            average_window: 300,
            max_incoming: 0,
            max_outgoing: 0,
            data_format: string_of("M"),
            devices: string_of("all"),
            multiple_devices: false,
            refresh_interval: 500,
            traffic_format: string_of("k"),
            diagnostic_targets: default_diagnostic_targets(),
            dns_domains: default_dns_domains(),
        }
    }
}

// ---------------------------------------------------------------------
// The nload format: lines of `Key="Value"`
// ---------------------------------------------------------------------

/// `str::parse::<bool>()`: exactly `true` or `false`.
pub open spec fn parse_bool(s: Seq<char>) -> Option<bool> {
    if s == "true"@ {
        Some(true)
    } else if s == "false"@ {
        Some(false)
    } else {
        None
    }
}

/// A `Key=Value` line split at its first `=`, key and value trimmed and
/// the value's surrounding quotes removed; `None` for blank lines,
/// comments and lines without `=`.
pub open spec fn nload_entry(line: Seq<char>) -> Option<(Seq<char>, Seq<char>)> {
    let l = trim(line, TrimSet::Whitespace);
    let k = find_char(l, '=');
    if l.len() == 0 || l[0] == '#' || k >= l.len() {
        None
    } else {
        Some(
            (
                trim(l.take(k), TrimSet::Whitespace),
                trim(trim(l.skip(k + 1), TrimSet::Whitespace), TrimSet::Char('"')),
            ),
        )
    }
}

/// The settings after one `key = value` entry; unknown keys are ignored
/// and unparsable numbers fall back to the defaults.
pub open spec fn nload_apply(c: ConfigView, key: Seq<char>, value: Seq<char>) -> ConfigView {
    if key == "AverageWindow"@ {
        ConfigView {
            average_window: match parse_uint(value, 10, u32::MAX as int) {
                Some(n) => n as u32,
                None => 300,
            },
            ..c
        }
    } else if key == "BarMaxIn"@ {
        ConfigView {
            max_incoming: match parse_uint(value, 10, u64::MAX as int) {
                Some(n) => n as u64,
                None => 0,
            },
            ..c
        }
    } else if key == "BarMaxOut"@ {
        ConfigView {
            max_outgoing: match parse_uint(value, 10, u64::MAX as int) {
                Some(n) => n as u64,
                None => 0,
            },
            ..c
        }
    } else if key == "DataFormat"@ {
        ConfigView { data_format: value, ..c }
    } else if key == "Devices"@ {
        ConfigView { devices: value, ..c }
    } else if key == "MultipleDevices"@ {
        ConfigView {
            multiple_devices: match parse_bool(value) {
                Some(b) => b,
                None => false,
            },
            ..c
        }
    } else if key == "RefreshInterval"@ {
        ConfigView {
            refresh_interval: match parse_uint(value, 10, u64::MAX as int) {
                Some(n) => n as u64,
                None => 500,
            },
            ..c
        }
    } else if key == "TrafficFormat"@ {
        ConfigView { traffic_format: value, ..c }
    } else {
        c
    }
}

/// The settings described by the lines `ls`, applied in order to `c`.
pub open spec fn nload_lines(c: ConfigView, ls: Seq<Seq<char>>) -> ConfigView
    decreases ls.len(),
{
    if ls.len() == 0 {
        c
    } else {
        let c1 = nload_lines(c, ls.drop_last());
        match nload_entry(ls.last()) {
            Some((k, v)) => nload_apply(c1, k, v),
            None => c1,
        }
    }
}

/// The settings an nload configuration file describes.
pub open spec fn nload_config(content: Seq<char>) -> ConfigView {
    nload_lines(default_view(), lines(content))
}

fn parse_bool_exec(v: &[char]) -> (r: Option<bool>)
    ensures
        r == parse_bool(v@),
{
    if chars_eq(v, chars_of("true").as_slice()) {
        Some(true)
    } else if chars_eq(v, chars_of("false").as_slice()) {
        Some(false)
    } else {
        None
    }
}

fn nload_entry_exec(line: &[char]) -> (r: Option<(Vec<char>, Vec<char>)>)
    ensures
        match r {
            Some((k, v)) => nload_entry(line@) == Some((k@, v@)),
            None => nload_entry(line@) is None,
        },
{
    let l = trim_exec(line, TrimSet::Whitespace);
    if l.len() == 0 || l[0] == '#' {
        return None;
    }
    let mut k: usize = 0;
    while k < l.len() && l[k] != '='
        invariant
            k <= l@.len(),
            forall|j: int| 0 <= j < k ==> l@[j] != '=',
        decreases l@.len() - k,
    {
        k = k + 1;
    }
    proof {
        lemma_find_char(l@, '=', k as int);
    }
    if k >= l.len() {
        return None;
    }
    let key_raw = slice_chars(l.as_slice(), 0, k);
    let val_raw = slice_chars(l.as_slice(), k + 1, l.len());
    assert(key_raw@ =~= l@.take(k as int));
    assert(val_raw@ =~= l@.skip(k + 1));
    let key = trim_exec(key_raw.as_slice(), TrimSet::Whitespace);
    let v1 = trim_exec(val_raw.as_slice(), TrimSet::Whitespace);
    let value = trim_exec(v1.as_slice(), TrimSet::Char('"'));
    Some((key, value))
}

impl Config {
    /// The settings described by the content of an nload configuration
    /// file: the defaults, then each `Key="Value"` line in order.
    pub fn parse_nload_format(content: &str) -> (c: Config)
        ensures
            c@ == nload_config(content@),
    {
        let text = chars_of(content);
        let ls = split_lines(text.as_slice());
        let ghost gls = lines(content@);
        let mut c = Config::default();
        let mut i: usize = 0;
        assert(gls.take(0) =~= Seq::<Seq<char>>::empty());
        while i < ls.len()
            invariant
                i <= ls@.len(),
                ls@.len() == gls.len(),
                forall|j: int| 0 <= j < ls@.len() ==> #[trigger] ls@[j]@ == gls[j],
                gls == lines(content@),
                c@ == nload_lines(default_view(), gls.take(i as int)),
            decreases ls@.len() - i,
        {
            proof {
                assert(gls.take(i + 1).drop_last() =~= gls.take(i as int));
                assert(gls.take(i + 1).last() == gls[i as int]);
            }
            match nload_entry_exec(ls[i].as_slice()) {
                None => {},
                Some((key, value)) => {
                    let k = key.as_slice();
                    let v = value.as_slice();
                    if chars_eq(k, chars_of("AverageWindow").as_slice()) {
                        c.average_window = match parse_uint_exec(v, 10, 0xffff_ffff) {
                            Some(n) => n as u32,
                            None => 300,
                        };
                    } else if chars_eq(k, chars_of("BarMaxIn").as_slice()) {
                        c.max_incoming = match parse_uint_exec(v, 10, u64::MAX) {
                            Some(n) => n,
                            None => 0,
                        };
                    } else if chars_eq(k, chars_of("BarMaxOut").as_slice()) {
                        c.max_outgoing = match parse_uint_exec(v, 10, u64::MAX) {
                            Some(n) => n,
                            None => 0,
                        };
                    } else if chars_eq(k, chars_of("DataFormat").as_slice()) {
                        c.data_format = string_from_chars(v);
                    } else if chars_eq(k, chars_of("Devices").as_slice()) {
                        c.devices = string_from_chars(v);
                    } else if chars_eq(k, chars_of("MultipleDevices").as_slice()) {
                        c.multiple_devices = match parse_bool_exec(v) {
                            Some(b) => b,
                            None => false,
                        };
                    } else if chars_eq(k, chars_of("RefreshInterval").as_slice()) {
                        c.refresh_interval = match parse_uint_exec(v, 10, u64::MAX) {
                            Some(n) => n,
                            None => 500,
                        };
                    } else if chars_eq(k, chars_of("TrafficFormat").as_slice()) {
                        c.traffic_format = string_from_chars(v);
                    }
                },
            }
            i = i + 1;
        }
        assert(gls.take(i as int) =~= gls);
        c
    }

    /// Takes the command-line options over the settings: average window,
    /// scales, refresh interval, both unit formats and the multiple-device
    /// view.
    pub fn apply_args(&mut self, args: &Args)
        ensures
            final(self)@ == with_args(old(self)@, *args),
    {
        self.average_window = args.average_window;
        self.max_incoming = args.max_incoming;
        self.max_outgoing = args.max_outgoing;
        self.refresh_interval = args.refresh_interval;
        self.traffic_format = string_of(args.traffic_unit.to_string());
        self.data_format = string_of(args.data_unit.to_string());
        self.multiple_devices = args.multiple_devices;
    }

    /// The configured speed unit, kbit/s when the code is unknown.
    pub fn get_traffic_unit(&self) -> (u: TrafficUnit)
        ensures
            u == match unit_of_code(self.traffic_format@) {
                Some(x) => x,
                None => TrafficUnit::KiloBit,
            },
    {
        match TrafficUnit::from_string(self.traffic_format.as_str()) {
            Some(u) => u,
            None => TrafficUnit::KiloBit,
        }
    }

    /// The configured unit for totals, MByte when the code is unknown.
    pub fn get_data_unit(&self) -> (u: DataUnit)
        ensures
            u == match unit_of_code(self.data_format@) {
                Some(x) => x,
                None => TrafficUnit::MegaByte,
            },
    {
        match TrafficUnit::from_string(self.data_format.as_str()) {
            Some(u) => u,
            None => TrafficUnit::MegaByte,
        }
    }
}

/// The settings view after taking over the command-line options.
pub open spec fn with_args(c: ConfigView, args: Args) -> ConfigView {
    ConfigView {
        average_window: args.average_window,
        max_incoming: args.max_incoming,
        max_outgoing: args.max_outgoing,
        refresh_interval: args.refresh_interval,
        traffic_format: unit_code(args.traffic_unit),
        data_format: unit_code(args.data_unit),
        multiple_devices: args.multiple_devices,
        ..c
    }
}

/// After the command-line options are applied, the units read back from
/// the settings are the ones given on the command line.
pub proof fn law_units_read_back(c: ConfigView, args: Args)
    ensures
        unit_of_code(with_args(c, args).traffic_format) == Some(args.traffic_unit),
        unit_of_code(with_args(c, args).data_format) == Some(args.data_unit),
{
    crate::cli::law_unit_code_round_trip(args.traffic_unit);
    crate::cli::law_unit_code_round_trip(args.data_unit);
}

/// A configuration file without entries leaves every setting at its
/// default.
pub proof fn law_no_entries_defaults(ls: Seq<Seq<char>>)
    requires
        forall|i: int| 0 <= i < ls.len() ==> nload_entry(#[trigger] ls[i]) is None,
    ensures
        nload_lines(default_view(), ls) == default_view(),
    decreases ls.len(),
{
    if ls.len() > 0 {
        assert forall|i: int| 0 <= i < ls.drop_last().len() implies nload_entry(
            #[trigger] ls.drop_last()[i],
        ) is None by {
            assert(ls.drop_last()[i] == ls[i]);
        }
        law_no_entries_defaults(ls.drop_last());
        assert(nload_entry(ls[ls.len() - 1]) is None);
    }
}

} // verus!
