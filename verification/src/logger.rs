//! The traffic log: where it goes and what each line says.
//!
//! A log line holds the date, the time, the device, the byte totals, the
//! current, average, minimum and maximum speeds (incoming before outgoing
//! each time), and the time as whole seconds since the epoch and
//! microseconds, separated by single spaces. Reading the clock and writing
//! the file are left to the caller.
use vstd::prelude::*;

use crate::error::{ErrorKind, Result};
use crate::stats::{StatsCalculator, StatsView};
use crate::text::{chars_eq, chars_of, decimal, push_all, push_decimal, string_from_chars};
use crate::validation::{
    file_path_problem, interface_name_problem, validate_file_path, validate_interface_name,
};

verus! {

/// The first line of a new log.
pub fn log_header() -> (r: &'static str)
    ensures
        r@ == "Date Time DeviceName DataInTotal DataOutTotal DataInPerSecond DataOutPerSecond DataInAverage DataOutAverage DataInMin DataOutMin DataInMax DataOutMax TimeSeconds TimeMicroSeconds\n"@,
{
    "Date Time DeviceName DataInTotal DataOutTotal DataInPerSecond DataOutPerSecond DataInAverage DataOutAverage DataInMin DataOutMin DataInMax DataOutMax TimeSeconds TimeMicroSeconds\n"
}

/// Where the log is written.
#[derive(Debug, Clone)]
pub enum LogTarget {
    /// Nowhere: no log was asked for.
    Silent,
    /// To standard output (the path `-`).
    Stdout,
    /// Appended to this file.
    File(String),
}

/// The log asked for by `path`: none without a path, standard output for
/// `-`, else the file, once it passes the checks of a `.log` path.
pub fn log_target(path: Option<&str>) -> (r: Result<LogTarget>)
    ensures
        match path {
            None => r matches Ok(LogTarget::Silent),
            Some(p) => if p@ == "-"@ {
                r matches Ok(LogTarget::Stdout)
            } else {
                &&& (r is Ok <==> file_path_problem(p, Some("log")) is None)
                &&& (r matches Ok(t) ==> t matches LogTarget::File(f) && f@ == p@)
                &&& (r matches Err(e) ==> e.kind() == ErrorKind::Config && Some(e.msg())
                    == file_path_problem(p, Some("log")))
            },
        },
{
    match path {
        None => Ok(LogTarget::Silent),
        Some(p) => {
            if chars_eq(chars_of(p).as_slice(), chars_of("-").as_slice()) {
                Ok(LogTarget::Stdout)
            } else {
                match validate_file_path(p, Some("log")) {
                    Ok(()) => Ok(LogTarget::File(string_from_chars(chars_of(p).as_slice()))),
                    Err(e) => Err(e),
                }
            }
        },
    }
}

/// A whole number in decimal, with a minus sign when negative.
pub open spec fn signed_decimal(x: int) -> Seq<char> {
    if x < 0 {
        seq!['-'] + decimal((-x) as nat)
    } else {
        decimal(x as nat)
    }
}

/// `s` followed by a space and the decimal digits of `n`.
pub open spec fn with_field(s: Seq<char>, n: nat) -> Seq<char> {
    s.push(' ') + decimal(n)
}

/// The log line for `device` with the statistics `s`, read at `date` and
/// `time`, `secs` seconds and `micros` microseconds after the epoch.
pub open spec fn log_line_text(
    date: Seq<char>,
    time: Seq<char>,
    device: Seq<char>,
    s: StatsView,
    secs: int,
    micros: nat,
) -> Seq<char> {
    let head = (date.push(' ') + time).push(' ') + device;
    let totals = with_field(with_field(head, s.total_bytes_in as nat), s.total_bytes_out as nat);
    let current = with_field(with_field(totals, s.current_in as nat), s.current_out as nat);
    let avg = with_field(with_field(current, s.avg_in as nat), s.avg_out as nat);
    let min = with_field(with_field(avg, s.min_in as nat), s.min_out as nat);
    let max = with_field(with_field(min, s.max_in as nat), s.max_out as nat);
    with_field(max.push(' ') + signed_decimal(secs), micros).push('\n')
}

/// Appends a space and the decimal digits of `n`.
fn push_field(out: &mut Vec<char>, n: u64)
    ensures
        final(out)@ == with_field(old(out)@, n as nat),
{
    out.push(' ');
    push_decimal(out, n);
}

/// The log line for `device` (see `log_line_text`); a `Parse` error, as
/// `validate_interface_name` gives it, for a device name that fails its
/// checks.
pub fn log_line(
    date: &str,
    time: &str,
    device: &str,
    stats: &StatsCalculator,
    secs: i64,
    micros: u32,
) -> (r: Result<String>)
    ensures
        r is Ok <==> interface_name_problem(device) is None,
        r matches Err(e) ==> e.kind() == ErrorKind::Parse && Some(e.msg())
            == interface_name_problem(device),
        r matches Ok(line) ==> line@ == log_line_text(
            date@,
            time@,
            device@,
            stats.view(),
            secs as int,
            micros as nat,
        ),
{
    match validate_interface_name(device) {
        Ok(()) => {},
        Err(e) => {
            return Err(e);
        },
    }
    let (total_in, total_out): (u64, u64) = stats.total_bytes();
    let (current_in, current_out): (u64, u64) = stats.current_speed();
    let (avg_in, avg_out): (u64, u64) = stats.average_speed();
    let (min_in, min_out): (u64, u64) = stats.min_speed();
    let (max_in, max_out): (u64, u64) = stats.max_speed();
    let mut out: Vec<char> = chars_of(date);
    out.push(' ');
    push_all(&mut out, chars_of(time).as_slice());
    out.push(' ');
    push_all(&mut out, chars_of(device).as_slice());
    push_field(&mut out, total_in);
    push_field(&mut out, total_out);
    push_field(&mut out, current_in);
    push_field(&mut out, current_out);
    push_field(&mut out, avg_in);
    push_field(&mut out, avg_out);
    push_field(&mut out, min_in);
    push_field(&mut out, min_out);
    push_field(&mut out, max_in);
    push_field(&mut out, max_out);
    out.push(' ');
    let ghost before_secs = out@;
    if secs < 0 {
        out.push('-');
        let magnitude: u64 = (0i128 - secs as i128) as u64;
        push_decimal(&mut out, magnitude);
        assert(out@ =~= before_secs + signed_decimal(secs as int));
    } else {
        push_decimal(&mut out, secs as u64);
    }
    push_field(&mut out, micros as u64);
    out.push('\n');
    Ok(string_from_chars(out.as_slice()))
}

} // verus!
