//! Start-up decisions: which mode the command line asks for, which
//! interfaces to monitor, and whether they can be monitored.
use vstd::prelude::*;

use crate::cli::Args;
use crate::error::{ErrorKind, NetwatchError};
use crate::text::{chars_eq, chars_of, push_all, split_words, string_from_chars, string_of, words};
use crate::security::SecurityEvent;
use crate::validation::{
    file_path_refusal, interface_name_refusal, refusal_event,
    file_path_problem_of, interface_name_problem_of, validate_bandwidth, validate_file_path,
    validate_interface_name, validate_refresh_interval, MAX_BANDWIDTH, MAX_REFRESH_INTERVAL,
    MIN_REFRESH_INTERVAL,
};
use vstd::string::StringSliceAdditionalSpecFns;
use vstd::utf8::encode_utf8;

verus! {

/// What the program does once started.
#[derive(Debug, Clone, Copy, PartialEq, Eq, Structural)]
pub enum RunMode {
    ListInterfaces,
    TestStats,
    DebugDashboard,
    ShowComparison,
    ShowOverview,
    ForceTerminal,
    SreTerminal,
    Dashboard,
}

/// The mode the options ask for: the first of the one-shot flags set, in
/// the order list, test, debug-dashboard, show-comparison, show-overview,
/// force-terminal, sre-terminal; else the dashboard.
pub open spec fn mode_of(a: Args) -> RunMode {
    if a.list {
        RunMode::ListInterfaces
    } else if a.test {
        RunMode::TestStats
    } else if a.debug_dashboard {
        RunMode::DebugDashboard
    } else if a.show_comparison {
        RunMode::ShowComparison
    } else if a.show_overview {
        RunMode::ShowOverview
    } else if a.force_terminal {
        RunMode::ForceTerminal
    } else if a.sre_terminal {
        RunMode::SreTerminal
    } else {
        RunMode::Dashboard
    }
}

/// The mode the options ask for (see `mode_of`).
pub fn run_mode(args: &Args) -> (m: RunMode)
    ensures
        m == mode_of(*args),
{
    if args.list {
        RunMode::ListInterfaces
    } else if args.test {
        RunMode::TestStats
    } else if args.debug_dashboard {
        RunMode::DebugDashboard
    } else if args.show_comparison {
        RunMode::ShowComparison
    } else if args.show_overview {
        RunMode::ShowOverview
    } else if args.force_terminal {
        RunMode::ForceTerminal
    } else if args.sre_terminal {
        RunMode::SreTerminal
    } else {
        RunMode::Dashboard
    }
}

/// Where the interfaces to monitor come from.
#[derive(Debug, Clone)]
pub enum InterfaceChoice {
    /// These ones.
    Named(Vec<String>),
    /// All the interfaces the platform lists.
    AllListed,
}

/// The interfaces to monitor: those given on the command line; else all
/// listed ones when the configuration says `all`; else the configured
/// ones (separated by whitespace).
pub fn interface_choice(arg_devices: &Vec<String>, config_devices: &str) -> (c: InterfaceChoice)
    ensures
        arg_devices@.len() > 0 ==> (c matches InterfaceChoice::Named(v) && v@.len() == arg_devices@.len()
            && forall|i: int| 0 <= i < v@.len() ==> #[trigger] v@[i]@ == arg_devices@[i]@),
        arg_devices@.len() == 0 && config_devices@ == "all"@ ==> c is AllListed,
        arg_devices@.len() == 0 && config_devices@ != "all"@ ==> (c matches InterfaceChoice::Named(v)
            && v@.len() == words(config_devices@).len() && forall|i: int|
            0 <= i < v@.len() ==> #[trigger] v@[i]@ == words(config_devices@)[i]),
{
    if arg_devices.len() > 0 {
        let mut v: Vec<String> = Vec::new();
        let mut i: usize = 0;
        while i < arg_devices.len()
            invariant
                i <= arg_devices@.len(),
                v@.len() == i,
                forall|j: int| 0 <= j < i ==> #[trigger] v@[j]@ == arg_devices@[j]@,
            decreases arg_devices@.len() - i,
        {
            v.push(string_from_chars(chars_of(arg_devices[i].as_str()).as_slice()));
            i = i + 1;
        }
        return InterfaceChoice::Named(v);
    }
    let c = chars_of(config_devices);
    if chars_eq(c.as_slice(), chars_of("all").as_slice()) {
        return InterfaceChoice::AllListed;
    }
    let w = split_words(c.as_slice());
    let mut v: Vec<String> = Vec::new();
    let mut i: usize = 0;
    while i < w.len()
        invariant
            i <= w@.len(),
            w@.len() == words(config_devices@).len(),
            forall|j: int| 0 <= j < w@.len() ==> #[trigger] w@[j]@ == words(config_devices@)[j],
            v@.len() == i,
            forall|j: int| 0 <= j < i ==> #[trigger] v@[j]@ == words(config_devices@)[j],
        decreases w@.len() - i,
    {
        v.push(string_from_chars(w[i].as_slice()));
        i = i + 1;
    }
    InterfaceChoice::Named(v)
}

/// The names joined with `", "`.
pub open spec fn joined(names: Seq<Seq<char>>) -> Seq<char>
    decreases names.len(),
{
    if names.len() == 0 {
        Seq::empty()
    } else if names.len() == 1 {
        names[0]
    } else {
        joined(names.drop_last()) + ", "@ + names.last()
    }
}

/// The problem of the first name of `want` from `i` on that is not a
/// valid interface name.
pub open spec fn first_invalid(want: Seq<Seq<char>>, i: int) -> Option<Seq<char>>
    decreases want.len() - i,
{
    if i < 0 || i >= want.len() {
        None
    } else {
        match interface_name_problem_of(want[i], (encode_utf8(want[i]).len() as usize) as int) {
            Some(m) => Some(m),
            None => first_invalid(want, i + 1),
        }
    }
}

/// The first name of `want` from `i` on that is not among `available`.
pub open spec fn first_missing(want: Seq<Seq<char>>, available: Seq<Seq<char>>, i: int) -> Option<
    Seq<char>,
>
    decreases want.len() - i,
{
    if i < 0 || i >= want.len() {
        None
    } else if !available.contains(want[i]) {
        Some(want[i])
    } else {
        first_missing(want, available, i + 1)
    }
}

/// Why the interfaces `want` cannot be monitored when `available` ones
/// exist: none at all (when some are required), else the first invalid
/// name's problem, else the first one not available.
pub open spec fn interfaces_problem(
    want: Seq<Seq<char>>,
    available: Seq<Seq<char>>,
    require_some: bool,
) -> Option<(ErrorKind, Seq<char>)> {
    if require_some && want.len() == 0 {
        Some((ErrorKind::DeviceNotFound, "No network interfaces found"@))
    } else {
        match first_invalid(want, 0) {
            Some(m) => Some((ErrorKind::Parse, m)),
            None => match first_missing(want, available, 0) {
                Some(n) => Some(
                    (
                        ErrorKind::DeviceNotFound,
                        "Interface '"@ + n + "' not found. Available interfaces: "@ + joined(
                            available,
                        ),
                    ),
                ),
                None => None,
            },
        }
    }
}

pub open spec fn names_of(v: Seq<String>) -> Seq<Seq<char>> {
    v.map_values(|s: String| s@)
}

fn join_names(names: &Vec<String>) -> (r: Vec<char>)
    ensures
        r@ == joined(names_of(names@)),
{
    let mut r: Vec<char> = Vec::new();
    let mut i: usize = 0;
    assert(names_of(names@).take(0) =~= Seq::<Seq<char>>::empty());
    while i < names.len()
        invariant
            i <= names@.len(),
            r@ == joined(names_of(names@).take(i as int)),
        decreases names@.len() - i,
    {
        let ghost t = names_of(names@).take(i + 1);
        assert(t.drop_last() =~= names_of(names@).take(i as int));
        assert(t.last() == names@[i as int]@);
        if i > 0 {
            push_all(&mut r, chars_of(", ").as_slice());
        }
        push_all(&mut r, chars_of(names[i].as_str()).as_slice());
        proof {
            if i == 0 {
                assert(t.len() == 1);
                assert(r@ =~= t[0]);
            } else {
                assert(r@ =~= joined(t.drop_last()) + ", "@ + t.last());
            }
        }
        i = i + 1;
    }
    assert(names_of(names@).take(i as int) =~= names_of(names@));
    r
}

fn contains_name(names: &Vec<String>, n: &String) -> (r: bool)
    ensures
        r == names_of(names@).contains(n@),
{
    let c = chars_of(n.as_str());
    let mut i: usize = 0;
    while i < names.len()
        invariant
            i <= names@.len(),
            c@ == n@,
            forall|j: int| 0 <= j < i ==> names@[j]@ != n@,
        decreases names@.len() - i,
    {
        if chars_eq(chars_of(names[i].as_str()).as_slice(), c.as_slice()) {
            assert(names_of(names@)[i as int] == n@);
            return true;
        }
        i = i + 1;
    }
    assert(!names_of(names@).contains(n@)) by {
        if names_of(names@).contains(n@) {
            let j = choose|j: int| 0 <= j < names_of(names@).len() && names_of(names@)[j] == n@;
            assert(names@[j]@ == n@);
        }
    }
    false
}

/// Checks that the interfaces `want` can be monitored when `available`
/// ones exist (see `interfaces_problem`), returning the problem found.
pub fn check_interfaces(want: &Vec<String>, available: &Vec<String>, require_some: bool) -> (r: Result<
    (),
    NetwatchError,
>)
    ensures
        match interfaces_problem(names_of(want@), names_of(available@), require_some) {
            None => r is Ok,
            Some(p) => r matches Err(e) && e.kind() == p.0 && e.msg() == p.1,
        },
{
    let ghost w = names_of(want@);
    let ghost a = names_of(available@);
    if require_some && want.len() == 0 {
        return Err(NetwatchError::DeviceNotFound(string_of("No network interfaces found")));
    }
    let mut i: usize = 0;
    while i < want.len()
        invariant
            i <= want@.len(),
            w == names_of(want@),
            first_invalid(w, 0) == first_invalid(w, i as int),
        decreases want@.len() - i,
    {
        assert(w[i as int] == want@[i as int]@);
        let name = want[i].as_str();
        assert(name.spec_bytes() == encode_utf8(name@));
        match validate_interface_name(name) {
            Ok(()) => {},
            Err(e) => {
                return Err(e);
            },
        }
        i = i + 1;
    }
    let mut j: usize = 0;
    while j < want.len()
        invariant
            j <= want@.len(),
            w == names_of(want@),
            a == names_of(available@),
            first_invalid(w, 0) is None,
            !(require_some && want@.len() == 0),
            first_missing(w, a, 0) == first_missing(w, a, j as int),
        decreases want@.len() - j,
    {
        assert(w[j as int] == want@[j as int]@);
        if !contains_name(available, &want[j]) {
            let mut m = chars_of("Interface '");
            push_all(&mut m, chars_of(want[j].as_str()).as_slice());
            push_all(&mut m, chars_of("' not found. Available interfaces: ").as_slice());
            let joined_names = join_names(available);
            push_all(&mut m, joined_names.as_slice());
            return Err(NetwatchError::DeviceNotFound(string_from_chars(m.as_slice())));
        }
        j = j + 1;
    }
    Ok(())
}

/// What is wrong with the options, checked in this order: the first
/// device name that is not a valid interface name, the refresh interval,
/// the incoming and then the outgoing bandwidth scale, and the log file
/// (any path but `-` must pass the checks of a `.log` file).
pub open spec fn args_problem(a: Args) -> Option<(ErrorKind, Seq<char>)> {
    match first_invalid(names_of(a.devices@), 0) {
        Some(m) => Some((ErrorKind::Parse, m)),
        None => if a.refresh_interval < MIN_REFRESH_INTERVAL {
            Some((ErrorKind::Config, "Refresh interval too small (minimum 100 ms)"@))
        } else if a.refresh_interval > MAX_REFRESH_INTERVAL {
            Some((ErrorKind::Config, "Refresh interval too large (maximum 60000 ms)"@))
        } else if a.max_incoming > MAX_BANDWIDTH || a.max_outgoing > MAX_BANDWIDTH {
            Some((ErrorKind::Config, "Bandwidth value too large (maximum 1000000000 kbps)"@))
        } else {
            match a.log_file {
                Some(p) => if p@ == "-"@ {
                    None
                } else {
                    match file_path_problem_of(
                        p@,
                        (encode_utf8(p@).len() as usize) as int,
                        Some("log"@),
                    ) {
                        Some(m) => Some((ErrorKind::Config, m)),
                        None => None,
                    }
                },
                None => None,
            }
        },
    }
}

impl Args {
    /// Checks the options before anything runs (see `args_problem`).
    pub fn validate(&self) -> (r: Result<(), NetwatchError>)
        ensures
            match args_problem(*self) {
                None => r is Ok,
                Some(p) => r matches Err(e) && e.kind() == p.0 && e.msg() == p.1,
            },
    {
        let ghost w = names_of(self.devices@);
        let mut i: usize = 0;
        while i < self.devices.len()
            invariant
                i <= self.devices@.len(),
                w == names_of(self.devices@),
                first_invalid(w, 0) == first_invalid(w, i as int),
            decreases self.devices@.len() - i,
        {
            assert(w[i as int] == self.devices@[i as int]@);
            let name = self.devices[i].as_str();
            assert(name.spec_bytes() == encode_utf8(name@));
            match validate_interface_name(name) {
                Ok(()) => {},
                Err(e) => {
                    return Err(e);
                },
            }
            i = i + 1;
        }
        match validate_refresh_interval(self.refresh_interval) {
            Ok(()) => {},
            Err(e) => {
                return Err(e);
            },
        }
        match validate_bandwidth(self.max_incoming) {
            Ok(()) => {},
            Err(e) => {
                return Err(e);
            },
        }
        match validate_bandwidth(self.max_outgoing) {
            Ok(()) => {},
            Err(e) => {
                return Err(e);
            },
        }
        match &self.log_file {
            Some(p) => {
                let path = p.as_str();
                if chars_eq(chars_of(path).as_slice(), chars_of("-").as_slice()) {
                    Ok(())
                } else {
                    assert(path.spec_bytes() == encode_utf8(path@));
                    validate_file_path(path, Some("log"))
                }
            },
            None => Ok(()),
        }
    }
}


/// The first name of `want` from `i` on that is refused as an interface
/// name.
pub open spec fn first_refused(want: Seq<Seq<char>>, i: int) -> Option<Seq<char>>
    decreases want.len() - i,
{
    if i < 0 || i >= want.len() {
        None
    } else {
        match interface_name_problem_of(want[i], (encode_utf8(want[i]).len() as usize) as int) {
            Some(_) => Some(want[i]),
            None => first_refused(want, i + 1),
        }
    }
}

/// The event that checking the interface names `want` records: that of
/// the first refused name (checking stops there), if any.
pub fn names_refusal(want: &Vec<String>) -> (r: Option<SecurityEvent>)
    ensures
        match first_refused(names_of(want@), 0) {
            None => r is None,
            Some(n) => r matches Some(e) && refusal_event(e, "interface_name"@, n),
        },
{
    let ghost w = names_of(want@);
    let mut i: usize = 0;
    while i < want.len()
        invariant
            i <= want@.len(),
            w == names_of(want@),
            first_refused(w, 0) == first_refused(w, i as int),
        decreases want@.len() - i,
    {
        assert(w[i as int] == want@[i as int]@);
        let name = want[i].as_str();
        assert(name.spec_bytes() == encode_utf8(name@));
        match interface_name_refusal(name) {
            Some(e) => {
                return Some(e);
            },
            None => {},
        }
        i = i + 1;
    }
    None
}

/// The (kind, value) of the event that checking the options `a` records:
/// the first refused device name, or, when the names, interval and
/// bandwidth scales pass, a log path refused for holding `".."`.
pub open spec fn args_refusal(a: Args) -> Option<(Seq<char>, Seq<char>)> {
    match first_refused(names_of(a.devices@), 0) {
        Some(n) => Some(("interface_name"@, n)),
        None => if a.refresh_interval < MIN_REFRESH_INTERVAL || a.refresh_interval > MAX_REFRESH_INTERVAL
            || a.max_incoming > MAX_BANDWIDTH || a.max_outgoing > MAX_BANDWIDTH {
            None
        } else {
            match a.log_file {
                Some(p) => if p@ != "-"@ && file_path_problem_of(
                    p@,
                    (encode_utf8(p@).len() as usize) as int,
                    Some("log"@),
                ) == Some("Path traversal detected"@) {
                    Some(("file_path"@, p@))
                } else {
                    None
                },
                None => None,
            }
        },
    }
}

impl Args {
    /// The security event that checking these options records, if any
    /// (see `args_refusal`).
    pub fn refusal_event(&self) -> (r: Option<SecurityEvent>)
        ensures
            match args_refusal(*self) {
                None => r is None,
                Some((k, v)) => r matches Some(e) && refusal_event(e, k, v),
            },
    {
        match names_refusal(&self.devices) {
            Some(e) => {
                return Some(e);
            },
            None => {},
        }
        if self.refresh_interval < MIN_REFRESH_INTERVAL || self.refresh_interval > MAX_REFRESH_INTERVAL
            || self.max_incoming > MAX_BANDWIDTH || self.max_outgoing > MAX_BANDWIDTH {
            return None;
        }
        match &self.log_file {
            Some(p) => {
                let path = p.as_str();
                if chars_eq(chars_of(path).as_slice(), chars_of("-").as_slice()) {
                    None
                } else {
                    assert(path.spec_bytes() == encode_utf8(path@));
                    file_path_refusal(path, Some("log"))
                }
            },
            None => None,
        }
    }
}

} // verus!
