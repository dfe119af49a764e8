//! Command-line options and the traffic unit formats.
use vstd::prelude::*;

use crate::text::{chars_eq, chars_of};

verus! {

/// How traffic speeds (or data totals) are shown.
#[derive(Clone, Copy, Debug, PartialEq, Eq, Structural)]
pub enum TrafficUnit {
    /// Auto-scaled bits.
    HumanBit,
    /// Auto-scaled bytes.
    HumanByte,
    Bit,
    Byte,
    KiloBit,
    KiloByte,
    MegaBit,
    MegaByte,
    GigaBit,
    GigaByte,
}

/// Units for data totals are the same formats.
pub type DataUnit = TrafficUnit;

/// The one-letter code of a unit on the command line and in the
/// configuration file.
pub open spec fn unit_code(u: TrafficUnit) -> Seq<char> {
    match u {
        TrafficUnit::HumanBit => "h"@,
        TrafficUnit::HumanByte => "H"@,
        TrafficUnit::Bit => "b"@,
        TrafficUnit::Byte => "B"@,
        TrafficUnit::KiloBit => "k"@,
        TrafficUnit::KiloByte => "K"@,
        TrafficUnit::MegaBit => "m"@,
        TrafficUnit::MegaByte => "M"@,
        TrafficUnit::GigaBit => "g"@,
        TrafficUnit::GigaByte => "G"@,
    }
}

/// The unit a code names, if any.
pub open spec fn unit_of_code(s: Seq<char>) -> Option<TrafficUnit> {
    if s == "h"@ {
        Some(TrafficUnit::HumanBit)
    } else if s == "H"@ {
        Some(TrafficUnit::HumanByte)
    } else if s == "b"@ {
        Some(TrafficUnit::Bit)
    } else if s == "B"@ {
        Some(TrafficUnit::Byte)
    } else if s == "k"@ {
        Some(TrafficUnit::KiloBit)
    } else if s == "K"@ {
        Some(TrafficUnit::KiloByte)
    } else if s == "m"@ {
        Some(TrafficUnit::MegaBit)
    } else if s == "M"@ {
        Some(TrafficUnit::MegaByte)
    } else if s == "g"@ {
        Some(TrafficUnit::GigaBit)
    } else if s == "G"@ {
        Some(TrafficUnit::GigaByte)
    } else {
        None
    }
}

/// The unit after `u` in the cycle h, H, b, B, k, K, m, M, g, G, h, ...
pub open spec fn unit_next(u: TrafficUnit) -> TrafficUnit {
    match u {
        TrafficUnit::HumanBit => TrafficUnit::HumanByte,
        TrafficUnit::HumanByte => TrafficUnit::Bit,
        TrafficUnit::Bit => TrafficUnit::Byte,
        TrafficUnit::Byte => TrafficUnit::KiloBit,
        TrafficUnit::KiloBit => TrafficUnit::KiloByte,
        TrafficUnit::KiloByte => TrafficUnit::MegaBit,
        TrafficUnit::MegaBit => TrafficUnit::MegaByte,
        TrafficUnit::MegaByte => TrafficUnit::GigaBit,
        TrafficUnit::GigaBit => TrafficUnit::GigaByte,
        TrafficUnit::GigaByte => TrafficUnit::HumanBit,
    }
}

/// The position of a unit in the cycle.
pub open spec fn unit_index(u: TrafficUnit) -> nat {
    match u {
        TrafficUnit::HumanBit => 0,
        TrafficUnit::HumanByte => 1,
        TrafficUnit::Bit => 2,
        TrafficUnit::Byte => 3,
        TrafficUnit::KiloBit => 4,
        TrafficUnit::KiloByte => 5,
        TrafficUnit::MegaBit => 6,
        TrafficUnit::MegaByte => 7,
        TrafficUnit::GigaBit => 8,
        TrafficUnit::GigaByte => 9,
    }
}

impl TrafficUnit {
    /// The next unit in the cycle.
    pub fn next(&self) -> (r: TrafficUnit)
        ensures
            r == unit_next(*self),
    {
        match self {
            TrafficUnit::HumanBit => TrafficUnit::HumanByte,
            TrafficUnit::HumanByte => TrafficUnit::Bit,
            TrafficUnit::Bit => TrafficUnit::Byte,
            TrafficUnit::Byte => TrafficUnit::KiloBit,
            TrafficUnit::KiloBit => TrafficUnit::KiloByte,
            TrafficUnit::KiloByte => TrafficUnit::MegaBit,
            TrafficUnit::MegaBit => TrafficUnit::MegaByte,
            TrafficUnit::MegaByte => TrafficUnit::GigaBit,
            TrafficUnit::GigaBit => TrafficUnit::GigaByte,
            TrafficUnit::GigaByte => TrafficUnit::HumanBit,
        }
    }

    /// The unit's one-letter code.
    pub fn to_string(&self) -> (r: &'static str)
        ensures
            r@ == unit_code(*self),
    {
        match self {
            TrafficUnit::HumanBit => "h",
            TrafficUnit::HumanByte => "H",
            TrafficUnit::Bit => "b",
            TrafficUnit::Byte => "B",
            TrafficUnit::KiloBit => "k",
            TrafficUnit::KiloByte => "K",
            TrafficUnit::MegaBit => "m",
            TrafficUnit::MegaByte => "M",
            TrafficUnit::GigaBit => "g",
            TrafficUnit::GigaByte => "G",
        }
    }

    /// The unit whose code is `s`, if any.
    pub fn from_string(s: &str) -> (r: Option<TrafficUnit>)
        ensures
            r == unit_of_code(s@),
    {
        let v = chars_of(s);
        let v = v.as_slice();
        if chars_eq(v, chars_of("h").as_slice()) {
            Some(TrafficUnit::HumanBit)
        } else if chars_eq(v, chars_of("H").as_slice()) {
            Some(TrafficUnit::HumanByte)
        } else if chars_eq(v, chars_of("b").as_slice()) {
            Some(TrafficUnit::Bit)
        } else if chars_eq(v, chars_of("B").as_slice()) {
            Some(TrafficUnit::Byte)
        } else if chars_eq(v, chars_of("k").as_slice()) {
            Some(TrafficUnit::KiloBit)
        } else if chars_eq(v, chars_of("K").as_slice()) {
            Some(TrafficUnit::KiloByte)
        } else if chars_eq(v, chars_of("m").as_slice()) {
            Some(TrafficUnit::MegaBit)
        } else if chars_eq(v, chars_of("M").as_slice()) {
            Some(TrafficUnit::MegaByte)
        } else if chars_eq(v, chars_of("g").as_slice()) {
            Some(TrafficUnit::GigaBit)
        } else if chars_eq(v, chars_of("G").as_slice()) {
            Some(TrafficUnit::GigaByte)
        } else {
            None
        }
    }
}

impl Default for TrafficUnit {
    fn default() -> (r: TrafficUnit)
        ensures
            r == TrafficUnit::HumanBit,
    {
        TrafficUnit::HumanBit
    }
}

/// A unit's code names it back.
pub proof fn law_unit_code_round_trip(u: TrafficUnit)
    ensures
        unit_of_code(unit_code(u)) == Some(u),
{
    reveal_strlit("h");
    reveal_strlit("H");
    reveal_strlit("b");
    reveal_strlit("B");
    reveal_strlit("k");
    reveal_strlit("K");
    reveal_strlit("m");
    reveal_strlit("M");
    reveal_strlit("g");
    reveal_strlit("G");
    assert("h"@ =~= seq!['h']);
    assert("H"@ =~= seq!['H']);
    assert("b"@ =~= seq!['b']);
    assert("B"@ =~= seq!['B']);
    assert("k"@ =~= seq!['k']);
    assert("K"@ =~= seq!['K']);
    assert("m"@ =~= seq!['m']);
    assert("M"@ =~= seq!['M']);
    assert("g"@ =~= seq!['g']);
    assert("G"@ =~= seq!['G']);
    let c = unit_code(u);
    assert(c.len() == 1);
    assert(c =~= seq![c[0]]);
}

/// Cycling through the units is a rotation through all ten of them: each
/// unit has its own position, and `next` moves one position on, from the
/// last back to the first.
pub proof fn law_unit_cycle(u: TrafficUnit, v: TrafficUnit)
    ensures
        unit_index(unit_next(u)) == (unit_index(u) + 1) % 10,
        unit_index(u) < 10,
        unit_index(u) == unit_index(v) ==> u == v,
{
}

/// The command-line options.
#[derive(Debug, Clone)]
pub struct Args {
    /// Network devices to monitor (none: auto-detect).
    pub devices: Vec<String>,
    /// List the interfaces and exit.
    pub list: bool,
    /// Average window in seconds.
    pub average_window: u32,
    /// Incoming bandwidth scale in kbit/s (0: auto).
    pub max_incoming: u64,
    /// Outgoing bandwidth scale in kbit/s (0: auto).
    pub max_outgoing: u64,
    /// Refresh interval in milliseconds.
    pub refresh_interval: u64,
    pub traffic_unit: TrafficUnit,
    pub data_unit: DataUnit,
    /// Show several devices without graphs.
    pub multiple_devices: bool,
    /// Log traffic to this file (`-` for standard output).
    pub log_file: Option<String>,
    /// Print statistics once and exit.
    pub test: bool,
    pub debug_dashboard: bool,
    pub show_comparison: bool,
    pub show_overview: bool,
    pub force_terminal: bool,
    pub sre_terminal: bool,
}

impl Default for Args {
    /// All flags off, all numbers zero, no devices, human-readable bits.
    fn default() -> (a: Args)
        ensures
            a.devices@.len() == 0,
            !a.list && !a.multiple_devices && !a.test,
            a.average_window == 0 && a.max_incoming == 0 && a.max_outgoing == 0
                && a.refresh_interval == 0,
            a.traffic_unit == TrafficUnit::HumanBit && a.data_unit == TrafficUnit::HumanBit,
            a.log_file is None,
    {
        Args {
            devices: Vec::new(),
            list: false,
            average_window: 0,
            max_incoming: 0,
            max_outgoing: 0,
            refresh_interval: 0,
            traffic_unit: TrafficUnit::HumanBit,
            data_unit: TrafficUnit::HumanBit,
            multiple_devices: false,
            log_file: None,
            test: false,
            debug_dashboard: false,
            show_comparison: false,
            show_overview: false,
            force_terminal: false,
            sre_terminal: false,
        }
    }
}

} // verus!
