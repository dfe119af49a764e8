//! Validation and sanitisation of everything a user can hand the
//! monitor: interface names, file paths, intervals, bandwidth limits and
//! configuration strings.
use vstd::prelude::*;

use crate::error::{ErrorKind, NetwatchError, Result};
use crate::security::{
    counts_after, distinct_keys, event_key, law_log_bounded, law_record_counts, log_after, lookup,
    wrap_inc, SecurityEvent, SecurityMonitor, MAX_EVENTS,
};
use crate::text::{
    char_is_alphanumeric, char_is_control, chars_eq, chars_of, contains, contains_char, contains_char_exec,
    contains_exec, has_ctrl, has_ctrl_exec, is_ctrl, slice_chars, starts_with, starts_with_exec,
    str_to_lowercase, string_from_chars, string_of, unicode_alphanumeric, unicode_lowercase,
};

verus! {

/// Longest interface name accepted, in bytes.
pub const MAX_INTERFACE_NAME_LEN: usize = 16;

/// Longest file path accepted, in bytes.
pub const MAX_PATH_LEN: usize = 4096;

/// Largest refresh interval accepted, in milliseconds.
pub const MAX_REFRESH_INTERVAL: u64 = 60_000;

/// Smallest refresh interval accepted, in milliseconds.
pub const MIN_REFRESH_INTERVAL: u64 = 100;

/// Largest bandwidth accepted, in kbit/s (1 Tbit/s).
pub const MAX_BANDWIDTH: u64 = 1_000_000_000;

/// Longest configuration value accepted, in bytes.
pub const MAX_CONFIG_VALUE_LEN: usize = 1024;

/// Characters allowed in an interface name.
pub open spec fn iface_char_ok(c: char) -> bool {
    unicode_alphanumeric(c) || c == '-' || c == '_' || c == '.'
}

/// Why an interface name is refused, as the message of the error, or
/// `None` when it is accepted. The checks apply in this order.
pub open spec fn interface_name_problem(name: &str) -> Option<Seq<char>> {
    interface_name_problem_of(name@, name.len() as int)
}

/// As `interface_name_problem`, for the name whose characters are `s`
/// and whose UTF-8 encoding is `nbytes` long.
pub open spec fn interface_name_problem_of(s: Seq<char>, nbytes: int) -> Option<Seq<char>> {
    if s.len() == 0 {
        Some("Interface name cannot be empty"@)
    } else if nbytes > MAX_INTERFACE_NAME_LEN {
        Some("Interface name too long (max 16 characters)"@)
    } else if contains(s, ".."@) || contains_char(s, '/') || contains_char(s, '\\') {
        Some("Invalid characters in interface name"@)
    } else if has_ctrl(s) {
        Some("Control characters not allowed in interface name"@)
    } else if !(forall|i: int| 0 <= i < s.len() ==> iface_char_ok(#[trigger] s[i])) {
        Some("Invalid characters in interface name"@)
    } else if contains(unicode_lowercase(s), "proc"@) || contains(unicode_lowercase(s), "sys"@)
        || contains(unicode_lowercase(s), "dev"@) {
        Some("Suspicious interface name pattern"@)
    } else {
        None
    }
}

fn all_iface_chars(v: &[char]) -> (r: bool)
    ensures
        r == (forall|i: int| 0 <= i < v@.len() ==> iface_char_ok(#[trigger] v@[i])),
{
    let mut i: usize = 0;
    while i < v.len()
        invariant
            i <= v@.len(),
            forall|k: int| 0 <= k < i ==> iface_char_ok(#[trigger] v@[k]),
        decreases v@.len() - i,
    {
        let c = v[i];
        if !(char_is_alphanumeric(c) || c == '-' || c == '_' || c == '.') {
            assert(!iface_char_ok(v@[i as int]));
            return false;
        }
        i = i + 1;
    }
    true
}

/// Checks that `name` is a plausible network interface name: not empty,
/// at most 16 bytes, no path separators or `".."`, no control
/// characters, only alphanumerics, `-`, `_` and `.`, and none of the
/// patterns `proc`, `sys`, `dev` in any letter case.
pub fn validate_interface_name(name: &str) -> (r: Result<()>)
    ensures
        r is Ok <==> interface_name_problem(name) is None,
        r matches Err(e) ==> e.kind() == ErrorKind::Parse && Some(e.msg())
            == interface_name_problem(name),
{
    let v = chars_of(name);
    if v.len() == 0 {
        return Err(NetwatchError::Parse(string_of("Interface name cannot be empty")));
    }
    if name.len() > MAX_INTERFACE_NAME_LEN {
        return Err(NetwatchError::Parse(string_of("Interface name too long (max 16 characters)")));
    }
    let dots = chars_of("..");
    if contains_exec(v.as_slice(), dots.as_slice()) || contains_char_exec(v.as_slice(), '/')
        || contains_char_exec(v.as_slice(), '\\') {
        return Err(NetwatchError::Parse(string_of("Invalid characters in interface name")));
    }
    if has_ctrl_exec(v.as_slice()) {
        return Err(
            NetwatchError::Parse(string_of("Control characters not allowed in interface name")),
        );
    }
    if !all_iface_chars(v.as_slice()) {
        return Err(NetwatchError::Parse(string_of("Invalid characters in interface name")));
    }
    let lower_s = str_to_lowercase(name);
    let lower = chars_of(lower_s.as_str());
    let p1 = chars_of("proc");
    let p2 = chars_of("sys");
    let p3 = chars_of("dev");
    if contains_exec(lower.as_slice(), p1.as_slice()) || contains_exec(
        lower.as_slice(),
        p2.as_slice(),
    ) || contains_exec(lower.as_slice(), p3.as_slice()) {
        return Err(NetwatchError::Parse(string_of("Suspicious interface name pattern")));
    }
    Ok(())
}

// ---------------------------------------------------------------------
// File paths
// ---------------------------------------------------------------------

/// Index of the last `c` in `s`, or -1 when there is none.
pub open spec fn rfind_char(s: Seq<char>, c: char) -> int
    decreases s.len(),
{
    if s.len() == 0 {
        -1
    } else if s.last() == c {
        s.len() - 1
    } else {
        rfind_char(s.drop_last(), c)
    }
}

pub proof fn lemma_rfind_char(s: Seq<char>, c: char, k: int)
    requires
        -1 <= k < s.len(),
        forall|j: int| k < j < s.len() ==> s[j] != c,
        k >= 0 ==> s[k] == c,
    ensures
        rfind_char(s, c) == k,
    decreases s.len(),
{
    if s.len() > 0 && k < s.len() - 1 {
        lemma_rfind_char(s.drop_last(), c, k);
    }
}

/// The last component of a path that contains no `".."`, as
/// `Path::file_name` finds it: the last `'/'`-separated segment that is
/// neither empty nor `"."`.
pub open spec fn file_name(p: Seq<char>) -> Option<Seq<char>>
    decreases p.len(),
{
    let k = rfind_char(p, '/');
    let seg = p.skip(k + 1);
    if k < -1 || k >= p.len() {
        None
    } else if seg.len() > 0 && seg != seq!['.'] {
        Some(seg)
    } else if k < 0 {
        None
    } else {
        file_name(p.take(k))
    }
}

/// The extension of a file name, as `Path::extension` finds it: what
/// follows the last `'.'`, when that dot is not the first character.
pub open spec fn extension_of(f: Seq<char>) -> Option<Seq<char>> {
    let k = rfind_char(f, '.');
    if 0 < k < f.len() {
        Some(f.skip(k + 1))
    } else {
        None
    }
}

pub open spec fn path_extension(p: Seq<char>) -> Option<Seq<char>> {
    match file_name(p) {
        Some(f) => extension_of(f),
        None => None,
    }
}

/// Directories that no path may start with.
pub open spec fn sensitive_dir(p: Seq<char>) -> bool {
    ||| starts_with(p, "/etc"@)
    ||| starts_with(p, "/boot"@)
    ||| starts_with(p, "/proc"@)
    ||| starts_with(p, "/sys"@)
    ||| starts_with(p, "/dev"@)
    ||| starts_with(p, "/root"@)
    ||| starts_with(p, "/usr/bin"@)
    ||| starts_with(p, "/usr/sbin"@)
    ||| starts_with(p, "/bin"@)
    ||| starts_with(p, "/sbin"@)
}

/// Why a file path is refused, as the message of the error, or `None`.
pub open spec fn file_path_problem(path: &str, expected: Option<&str>) -> Option<Seq<char>> {
    file_path_problem_of(
        path@,
        path.len() as int,
        match expected {
            Some(e) => Some(e@),
            None => None,
        },
    )
}

/// Why a path of characters `s` (`nbytes` bytes long) is refused when
/// the extension `expected` is asked for.
pub open spec fn file_path_problem_of(s: Seq<char>, nbytes: int, expected: Option<Seq<char>>) -> Option<
    Seq<char>,
> {
    if s.len() == 0 {
        Some("File path cannot be empty"@)
    } else if nbytes > MAX_PATH_LEN {
        Some("File path too long (max 4096 characters)"@)
    } else if has_ctrl(s) {
        Some("Control characters not allowed in file path"@)
    } else if contains(s, ".."@) {
        Some("Path traversal detected"@)
    } else if sensitive_dir(s) {
        Some("Access to sensitive directory denied"@)
    } else {
        match expected {
            None => None,
            Some(e) => match path_extension(s) {
                Some(x) => if unicode_lowercase(x) != unicode_lowercase(e) {
                    Some("Invalid file extension, expected: "@ + e)
                } else {
                    None
                },
                None => Some("Missing file extension, expected: "@ + e),
            },
        }
    }
}

/// Index just after the last `c` in `v[..b]` (0 when there is none).
pub(crate) fn segment_start(v: &[char], b: usize, c: char) -> (a: usize)
    requires
        b <= v@.len(),
    ensures
        a <= b,
        rfind_char(v@.take(b as int), c) == a - 1,
{
    let mut a = b;
    while a > 0 && v[a - 1] != c
        invariant
            a <= b <= v@.len(),
            forall|j: int| a <= j < b ==> v@[j] != c,
        decreases a,
    {
        a = a - 1;
    }
    proof {
        lemma_rfind_char(v@.take(b as int), c, a - 1);
    }
    a
}

/// The file name of `v` (see `file_name`).
pub fn file_name_exec(v: &[char]) -> (r: Option<Vec<char>>)
    ensures
        match r {
            Some(f) => file_name(v@) == Some(f@),
            None => file_name(v@) is None,
        },
{
    let mut b = v.len();
    assert(v@.take(b as int) =~= v@);
    loop
        invariant
            b <= v@.len(),
            file_name(v@) == file_name(v@.take(b as int)),
        decreases b,
    {
        let ghost p = v@.take(b as int);
        let a = segment_start(v, b, '/');
        assert(p.skip(a as int) =~= v@.subrange(a as int, b as int));
        let seg = slice_chars(v, a, b);
        let is_dot = seg.len() == 1 && seg[0] == '.';
        assert(is_dot == (seg@ == seq!['.'])) by {
            if seg@.len() == 1 && seg@[0] == '.' {
                assert(seg@ =~= seq!['.']);
            }
        }
        if seg.len() > 0 && !is_dot {
            return Some(seg);
        }
        if a == 0 {
            return None;
        }
        assert(p.take(a - 1) =~= v@.take(a - 1));
        b = a - 1;
    }
}

/// The extension of `v` (see `path_extension`).
pub fn path_extension_exec(v: &[char]) -> (r: Option<Vec<char>>)
    ensures
        match r {
            Some(x) => path_extension(v@) == Some(x@),
            None => path_extension(v@) is None,
        },
{
    match file_name_exec(v) {
        None => None,
        Some(f) => {
            let k = segment_start(f.as_slice(), f.len(), '.');
            assert(f@.take(f@.len() as int) =~= f@);
            if k >= 2 {
                let x = slice_chars(f.as_slice(), k, f.len());
                assert(x@ =~= f@.skip(k as int));
                Some(x)
            } else {
                None
            }
        },
    }
}

fn sensitive_dir_exec(v: &[char]) -> (r: bool)
    ensures
        r == sensitive_dir(v@),
{
    starts_with_exec(v, chars_of("/etc").as_slice()) || starts_with_exec(
        v,
        chars_of("/boot").as_slice(),
    ) || starts_with_exec(v, chars_of("/proc").as_slice()) || starts_with_exec(
        v,
        chars_of("/sys").as_slice(),
    ) || starts_with_exec(v, chars_of("/dev").as_slice()) || starts_with_exec(
        v,
        chars_of("/root").as_slice(),
    ) || starts_with_exec(v, chars_of("/usr/bin").as_slice()) || starts_with_exec(
        v,
        chars_of("/usr/sbin").as_slice(),
    ) || starts_with_exec(v, chars_of("/bin").as_slice()) || starts_with_exec(
        v,
        chars_of("/sbin").as_slice(),
    )
}

/// Checks a path for a log or configuration file: not empty, at most
/// 4096 bytes, no control characters, no `".."`, not under a system
/// directory, and with the expected extension (compared without regard
/// to letter case) when one is given.
pub fn validate_file_path(path: &str, expected_extension: Option<&str>) -> (r: Result<()>)
    ensures
        r is Ok <==> file_path_problem(path, expected_extension) is None,
        r matches Err(e) ==> e.kind() == ErrorKind::Config && Some(e.msg()) == file_path_problem(
            path,
            expected_extension,
        ),
{
    let v = chars_of(path);
    if v.len() == 0 {
        return Err(NetwatchError::Config(string_of("File path cannot be empty")));
    }
    if path.len() > MAX_PATH_LEN {
        return Err(NetwatchError::Config(string_of("File path too long (max 4096 characters)")));
    }
    if has_ctrl_exec(v.as_slice()) {
        return Err(NetwatchError::Config(string_of("Control characters not allowed in file path")));
    }
    if contains_exec(v.as_slice(), chars_of("..").as_slice()) {
        return Err(NetwatchError::Config(string_of("Path traversal detected")));
    }
    if sensitive_dir_exec(v.as_slice()) {
        return Err(NetwatchError::Config(string_of("Access to sensitive directory denied")));
    }
    match expected_extension {
        None => Ok(()),
        Some(e) => match path_extension_exec(v.as_slice()) {
            Some(x) => {
                let xs = string_from_chars(x.as_slice());
                let xl = str_to_lowercase(xs.as_str());
                let el = str_to_lowercase(e);
                if xl != el {
                    let mut m = string_of("Invalid file extension, expected: ");
                    m.append(e);
                    Err(NetwatchError::Config(m))
                } else {
                    Ok(())
                }
            },
            None => {
                let mut m = string_of("Missing file extension, expected: ");
                m.append(e);
                Err(NetwatchError::Config(m))
            },
        },
    }
}

// ---------------------------------------------------------------------
// Numbers
// ---------------------------------------------------------------------

/// Checks that a refresh interval lies within 100..=60000 ms.
pub fn validate_refresh_interval(interval_ms: u64) -> (r: Result<()>)
    ensures
        r is Ok <==> MIN_REFRESH_INTERVAL <= interval_ms <= MAX_REFRESH_INTERVAL,
        r matches Err(e) ==> e.kind() == ErrorKind::Config && e.msg() == (if interval_ms
            < MIN_REFRESH_INTERVAL {
            "Refresh interval too small (minimum 100 ms)"@
        } else {
            "Refresh interval too large (maximum 60000 ms)"@
        }),
{
    if interval_ms < MIN_REFRESH_INTERVAL {
        return Err(
            NetwatchError::Config(string_of("Refresh interval too small (minimum 100 ms)")),
        );
    }
    if interval_ms > MAX_REFRESH_INTERVAL {
        return Err(
            NetwatchError::Config(string_of("Refresh interval too large (maximum 60000 ms)")),
        );
    }
    Ok(())
}

/// Checks that a bandwidth value does not exceed 1 Tbit/s.
pub fn validate_bandwidth(bandwidth_kbps: u64) -> (r: Result<()>)
    ensures
        r is Ok <==> bandwidth_kbps <= MAX_BANDWIDTH,
        r matches Err(e) ==> e.kind() == ErrorKind::Config && e.msg()
            == "Bandwidth value too large (maximum 1000000000 kbps)"@,
{
    if bandwidth_kbps > MAX_BANDWIDTH {
        return Err(
            NetwatchError::Config(
                string_of("Bandwidth value too large (maximum 1000000000 kbps)"),
            ),
        );
    }
    Ok(())
}

// ---------------------------------------------------------------------
// Configuration strings
// ---------------------------------------------------------------------

/// A control character other than newline and tab.
pub open spec fn bad_ctrl(c: char) -> bool {
    is_ctrl(c) && c != '\n' && c != '\t'
}

/// Shell metacharacter sequences refused in configuration values.
pub open spec fn has_injection_pattern(s: Seq<char>) -> bool {
    ||| contains(s, "$("@)
    ||| contains(s, "`"@)
    ||| contains(s, "${"@)
    ||| contains(s, "&&"@)
    ||| contains(s, "||"@)
    ||| contains(s, ";"@)
    ||| contains(s, "|"@)
    ||| contains(s, ">"@)
    ||| contains(s, "<"@)
    ||| contains(s, "&"@)
}

/// Why a configuration value is refused, as the message of the error, or
/// `None`.
pub open spec fn config_string_problem(value: &str, field: &str) -> Option<Seq<char>> {
    let s = value@;
    if value.len() > MAX_CONFIG_VALUE_LEN {
        Some("Configuration value too long for field: "@ + field@)
    } else if exists|i: int| 0 <= i < s.len() && bad_ctrl(#[trigger] s[i]) {
        Some("Invalid characters in configuration field: "@ + field@)
    } else if has_injection_pattern(s) {
        Some("Suspicious pattern detected in field: "@ + field@)
    } else {
        None
    }
}

fn has_bad_ctrl(v: &[char]) -> (r: bool)
    ensures
        r == exists|i: int| 0 <= i < v@.len() && bad_ctrl(#[trigger] v@[i]),
{
    let mut i: usize = 0;
    while i < v.len()
        invariant
            i <= v@.len(),
            forall|k: int| 0 <= k < i ==> !bad_ctrl(#[trigger] v@[k]),
        decreases v@.len() - i,
    {
        let c = v[i];
        if char_is_control(c) && c != '\n' && c != '\t' {
            return true;
        }
        i = i + 1;
    }
    false
}

fn has_injection_pattern_exec(v: &[char]) -> (r: bool)
    ensures
        r == has_injection_pattern(v@),
{
    contains_exec(v, chars_of("$(").as_slice()) || contains_exec(v, chars_of("`").as_slice())
        || contains_exec(v, chars_of("${").as_slice()) || contains_exec(
        v,
        chars_of("&&").as_slice(),
    ) || contains_exec(v, chars_of("||").as_slice()) || contains_exec(
        v,
        chars_of(";").as_slice(),
    ) || contains_exec(v, chars_of("|").as_slice()) || contains_exec(
        v,
        chars_of(">").as_slice(),
    ) || contains_exec(v, chars_of("<").as_slice()) || contains_exec(
        v,
        chars_of("&").as_slice(),
    )
}

/// Checks a configuration value: at most 1024 bytes, no control
/// characters but newline and tab, and no shell metacharacters.
pub fn validate_config_string(value: &str, field_name: &str) -> (r: Result<()>)
    ensures
        r is Ok <==> config_string_problem(value, field_name) is None,
        r matches Err(e) ==> e.kind() == ErrorKind::Config && Some(e.msg())
            == config_string_problem(value, field_name),
{
    if value.len() > MAX_CONFIG_VALUE_LEN {
        let mut m = string_of("Configuration value too long for field: ");
        m.append(field_name);
        return Err(NetwatchError::Config(m));
    }
    let v = chars_of(value);
    if has_bad_ctrl(v.as_slice()) {
        let mut m = string_of("Invalid characters in configuration field: ");
        m.append(field_name);
        return Err(NetwatchError::Config(m));
    }
    if has_injection_pattern_exec(v.as_slice()) {
        let mut m = string_of("Suspicious pattern detected in field: ");
        m.append(field_name);
        return Err(NetwatchError::Config(m));
    }
    Ok(())
}

// ---------------------------------------------------------------------
// Sanitising free text
// ---------------------------------------------------------------------

/// The characters kept by sanitising: everything but control characters,
/// newline and tab excepted.
pub open spec fn keep_char(c: char) -> bool {
    !is_ctrl(c) || c == '\n' || c == '\t'
}

/// `s` without the characters that sanitising drops.
pub open spec fn kept(s: Seq<char>) -> Seq<char>
    decreases s.len(),
{
    if s.len() == 0 {
        s
    } else if keep_char(s.last()) {
        kept(s.drop_last()).push(s.last())
    } else {
        kept(s.drop_last())
    }
}

/// Characters that sanitising escapes with a backslash.
pub open spec fn escaped_char(c: char) -> bool {
    c == '$' || c == '`' || c == '"' || c == '\''
}

/// `s` with a backslash put before each `$`, `` ` ``, `"` and `'`.
pub open spec fn escape(s: Seq<char>) -> Seq<char>
    decreases s.len(),
{
    if s.len() == 0 {
        s
    } else if escaped_char(s.last()) {
        escape(s.drop_last()).push('\\').push(s.last())
    } else {
        escape(s.drop_last()).push(s.last())
    }
}

/// What sanitising `input` with limit `max_length` yields.
pub open spec fn sanitized(input: Seq<char>, max_length: nat) -> Seq<char> {
    let k = kept(input);
    escape(if k.len() > max_length {
        k.take(max_length as int)
    } else {
        k
    })
}

/// Drops control characters (but newline and tab), keeps the first
/// `max_length` remaining characters, and escapes `$`, `` ` ``, `"` and
/// `'` with a backslash.
pub fn sanitize_user_input(input: &str, max_length: usize) -> (r: String)
    ensures
        r@ == sanitized(input@, max_length as nat),
{
    let v = chars_of(input);
    let mut k: Vec<char> = Vec::new();
    let mut i: usize = 0;
    while i < v.len()
        invariant
            i <= v@.len(),
            v@ == input@,
            k@ == kept(v@.take(i as int)),
        decreases v@.len() - i,
    {
        let c = v[i];
        proof {
            assert(v@.take(i + 1).drop_last() =~= v@.take(i as int));
            assert(v@.take(i + 1).last() == c);
        }
        if !char_is_control(c) || c == '\n' || c == '\t' {
            k.push(c);
        }
        i = i + 1;
    }
    assert(v@.take(i as int) =~= v@);
    let t: Vec<char> = if k.len() > max_length {
        slice_chars(k.as_slice(), 0, max_length)
    } else {
        k
    };
    let ghost tv = if kept(input@).len() > max_length {
        kept(input@).take(max_length as int)
    } else {
        kept(input@)
    };
    assert(t@ =~= tv);
    let mut out: Vec<char> = Vec::new();
    let mut j: usize = 0;
    while j < t.len()
        invariant
            j <= t@.len(),
            out@ == escape(t@.take(j as int)),
        decreases t@.len() - j,
    {
        let c = t[j];
        proof {
            assert(t@.take(j + 1).drop_last() =~= t@.take(j as int));
            assert(t@.take(j + 1).last() == c);
        }
        if c == '$' || c == '`' || c == '"' || c == '\'' {
            out.push('\\');
        }
        out.push(c);
        j = j + 1;
    }
    assert(t@.take(j as int) =~= t@);
    string_from_chars(out.as_slice())
}

// ---------------------------------------------------------------------
// What the checks guarantee
// ---------------------------------------------------------------------

/// An interface name that passes the checks is not empty, at most 16
/// bytes long, free of `..`, `/`, `\` and control characters, and made of
/// letters, digits, `-`, `_` and `.` only.
pub proof fn law_accepted_interface_names_are_safe(name: &str)
    requires
        interface_name_problem(name) is None,
    ensures
        name@.len() > 0,
        name.len() <= MAX_INTERFACE_NAME_LEN,
        !contains(name@, ".."@),
        !contains_char(name@, '/') && !contains_char(name@, '\\'),
        !has_ctrl(name@),
        forall|i: int| 0 <= i < name@.len() ==> iface_char_ok(#[trigger] name@[i]),
{
}

/// A file path that passes the checks is not empty, at most 4096 bytes
/// long, free of control characters and of `..`, outside the system
/// directories, and has the expected extension (in any letter case) when
/// one is asked for.
pub proof fn law_accepted_paths_are_safe(path: &str, expected: Option<&str>)
    requires
        file_path_problem(path, expected) is None,
    ensures
        path@.len() > 0,
        path.len() <= MAX_PATH_LEN,
        !has_ctrl(path@),
        !contains(path@, ".."@),
        !sensitive_dir(path@),
        expected matches Some(e) ==> (path_extension(path@) matches Some(x) && unicode_lowercase(x)
            == unicode_lowercase(e@)),
{
}

proof fn lemma_kept_chars(s: Seq<char>)
    ensures
        forall|i: int| 0 <= i < kept(s).len() ==> keep_char(#[trigger] kept(s)[i]),
        kept(s).len() <= s.len(),
    decreases s.len(),
{
    if s.len() > 0 {
        lemma_kept_chars(s.drop_last());
    }
}

proof fn lemma_escape_chars(t: Seq<char>)
    requires
        forall|i: int| 0 <= i < t.len() ==> keep_char(#[trigger] t[i]),
    ensures
        forall|i: int| 0 <= i < escape(t).len() ==> keep_char(#[trigger] escape(t)[i]),
        forall|i: int|
            0 <= i < escape(t).len() && escaped_char(#[trigger] escape(t)[i]) ==> i > 0 && escape(
                t,
            )[i - 1] == '\\',
        escape(t).len() <= 2 * t.len(),
    decreases t.len(),
{
    if t.len() > 0 {
        let u = t.drop_last();
        assert forall|i: int| 0 <= i < u.len() implies keep_char(#[trigger] u[i]) by {
            assert(u[i] == t[i]);
        }
        lemma_escape_chars(u);
        let e = escape(u);
        let c = t.last();
        assert(keep_char(c)) by {
            assert(t[t.len() - 1] == c);
        }
        if escaped_char(c) {
            let r = e.push('\\').push(c);
            assert forall|i: int| 0 <= i < r.len() implies keep_char(#[trigger] r[i]) by {
                if i < e.len() {
                    assert(r[i] == e[i]);
                }
            }
            assert forall|i: int| 0 <= i < r.len() && escaped_char(#[trigger] r[i]) implies i > 0
                && r[i - 1] == '\\' by {
                if i < e.len() {
                    assert(r[i] == e[i]);
                    assert(r[i - 1] == e[i - 1]);
                }
            }
        } else {
            let r = e.push(c);
            assert forall|i: int| 0 <= i < r.len() implies keep_char(#[trigger] r[i]) by {
                if i < e.len() {
                    assert(r[i] == e[i]);
                }
            }
            assert forall|i: int| 0 <= i < r.len() && escaped_char(#[trigger] r[i]) implies i > 0
                && r[i - 1] == '\\' by {
                if i < e.len() {
                    assert(r[i] == e[i]);
                    assert(r[i - 1] == e[i - 1]);
                }
            }
        }
    }
}

/// Sanitised text holds no control character but newline and tab; each
/// `$`, `` ` ``, `"` and `'` in it comes right after a backslash; and it
/// is at most twice `max_length` characters long.
pub proof fn law_sanitized_text_is_safe(input: Seq<char>, max_length: nat)
    ensures
        forall|i: int|
            0 <= i < sanitized(input, max_length).len() ==> keep_char(
                #[trigger] sanitized(input, max_length)[i],
            ),
        forall|i: int|
            0 <= i < sanitized(input, max_length).len() && escaped_char(
                #[trigger] sanitized(input, max_length)[i],
            ) ==> i > 0 && sanitized(input, max_length)[i - 1] == '\\',
        sanitized(input, max_length).len() <= 2 * max_length,
{
    let k = kept(input);
    lemma_kept_chars(input);
    let t = if k.len() > max_length {
        k.take(max_length as int)
    } else {
        k
    };
    assert forall|i: int| 0 <= i < t.len() implies keep_char(#[trigger] t[i]) by {
        assert(t[i] == k[i]);
    }
    lemma_escape_chars(t);
}


// ---------------------------------------------------------------------
// Security events of refused input
// ---------------------------------------------------------------------

/// `e` is the event recorded when a `kind` input `value` is refused: an
/// invalid input holding the value, reported by the validation.
pub open spec fn refusal_event(e: SecurityEvent, kind: Seq<char>, value: Seq<char>) -> bool {
    e matches SecurityEvent::InvalidInput { input_type, attempted_value, source } && input_type@ == kind
        && attempted_value@ == value && source@ == "validation"@
}

/// The event recorded when the `kind` input `value` is refused.
pub fn invalid_input_event(kind: &str, value: &str) -> (e: SecurityEvent)
    ensures
        refusal_event(e, kind@, value@),
{
    SecurityEvent::InvalidInput {
        input_type: string_of(kind),
        attempted_value: string_of(value),
        source: string_of("validation"),
    }
}

/// The event that checking `name` as an interface name records: every
/// refusal records one.
pub fn interface_name_refusal(name: &str) -> (r: Option<SecurityEvent>)
    ensures
        r is Some <==> interface_name_problem(name) is Some,
        r matches Some(e) ==> refusal_event(e, "interface_name"@, name@),
{
    match validate_interface_name(name) {
        Ok(()) => None,
        Err(_) => Some(invalid_input_event("interface_name", name)),
    }
}

/// The event that checking `path` as a file path records: only a path
/// refused for holding `".."` records one.
pub fn file_path_refusal(path: &str, expected_extension: Option<&str>) -> (r: Option<SecurityEvent>)
    ensures
        r is Some <==> file_path_problem(path, expected_extension) == Some("Path traversal detected"@),
        r matches Some(e) ==> refusal_event(e, "file_path"@, path@),
{
    match validate_file_path(path, expected_extension) {
        Ok(()) => None,
        Err(NetwatchError::Config(m)) => {
            if chars_eq(chars_of(m.as_str()).as_slice(), chars_of("Path traversal detected").as_slice()) {
                Some(invalid_input_event("file_path", path))
            } else {
                None
            }
        },
        Err(_) => None,
    }
}


/// Refusing an interface name records exactly one event: the event of a
/// refused `name`, recorded at `t`, adds one entry to the log (until it is
/// full) and increments the counter `invalid_input_interface_name`
/// (creating it at 1), leaving every other counter as it was.
pub proof fn law_refused_name_recorded_once(
    log: Seq<(u64, SecurityEvent)>,
    c: Seq<(Seq<char>, u32)>,
    t: u64,
    name: &str,
    e: SecurityEvent,
    other: Seq<char>,
)
    requires
        distinct_keys(c),
        log.len() <= MAX_EVENTS,
        interface_name_problem(name) is Some,
        refusal_event(e, "interface_name"@, name@),
        other != "invalid_input_interface_name"@,
    ensures
        event_key(e) == "invalid_input_interface_name"@,
        lookup(counts_after(c, event_key(e)), "invalid_input_interface_name"@) == Some(
            match lookup(c, "invalid_input_interface_name"@) {
                Some(n) => wrap_inc(n),
                None => 1u32,
            },
        ),
        lookup(counts_after(c, event_key(e)), other) == lookup(c, other),
        log_after(log, t, e).len() == if log.len() < MAX_EVENTS {
            log.len() + 1
        } else {
            MAX_EVENTS as nat
        },
        log_after(log, t, e).last() == (t, e),
{
    reveal_strlit("invalid_input_");
    reveal_strlit("interface_name");
    reveal_strlit("invalid_input_interface_name");
    assert(event_key(e) =~= "invalid_input_interface_name"@);
    law_record_counts(c, event_key(e), other);
    law_log_bounded(log, t, e);
}

/// Checks `name` as an interface name (see `validate_interface_name`)
/// and records a refusal with `monitor`: a refused name adds its event
/// (see `interface_name_refusal`) to the log and increments the counter
/// `invalid_input_interface_name`; an accepted name leaves the monitor
/// as it was.
pub fn check_interface_name_recorded(name: &str, monitor: &mut SecurityMonitor) -> (r: Result<()>)
    ensures
        r is Ok <==> interface_name_problem(name) is None,
        r matches Err(e) ==> e.kind() == ErrorKind::Parse && Some(e.msg())
            == interface_name_problem(name),
        r is Ok ==> *final(monitor) == *old(monitor),
        r is Err ==> final(monitor).counts() == counts_after(
            old(monitor).counts(),
            "invalid_input_interface_name"@,
        ),
        r is Err ==> exists|t: u64, e: SecurityEvent|
            refusal_event(e, "interface_name"@, name@) && #[trigger] final(monitor).log() == log_after(
                old(monitor).log(),
                t,
                e,
            ),
        final(monitor).windows() == old(monitor).windows(),
{
    let r = validate_interface_name(name);
    match interface_name_refusal(name) {
        Some(e) => {
            proof {
                reveal_strlit("invalid_input_");
                reveal_strlit("interface_name");
                reveal_strlit("invalid_input_interface_name");
                assert(event_key(e) =~= "invalid_input_interface_name"@);
            }
            let ghost ev = e;
            monitor.record_event(e);
            assert(refusal_event(ev, "interface_name"@, name@));
        },
        None => {},
    }
    r
}


/// The limits the checks enforce are those the messages announce: names
/// of at most 16 bytes, paths of at most 4096 bytes, refresh intervals
/// from 100 ms to one minute, bandwidth scales up to 1 Tbit/s.
pub proof fn law_documented_limits()
    ensures
        MAX_INTERFACE_NAME_LEN == 16,
        MAX_PATH_LEN == 4096,
        MIN_REFRESH_INTERVAL == 100,
        MAX_REFRESH_INTERVAL == 60 * 1000,
        MAX_BANDWIDTH == 1000 * 1000 * 1000,
{
}

} // verus!
