//! The crate's error type.
use vstd::prelude::*;

use crate::text::string_of;

verus! {

/// Which kind of failure an error reports.
#[derive(Clone, Copy, PartialEq, Eq, Debug)]
pub enum ErrorKind {
    DeviceNotFound,
    PermissionDenied,
    Io,
    Parse,
    Config,
    Platform,
    Security,
}

/// Errors reported by the monitor. Each variant carries its message.
#[derive(Debug)]
pub enum NetwatchError {
    DeviceNotFound(String),
    PermissionDenied(String),
    /// An I/O failure, described by the operating system's message.
    Io(String),
    Parse(String),
    Config(String),
    Platform(String),
    Security(String),
}

pub type Result<T> = core::result::Result<T, NetwatchError>;

impl NetwatchError {
    pub open spec fn kind(&self) -> ErrorKind {
        match self {
            NetwatchError::DeviceNotFound(_) => ErrorKind::DeviceNotFound,
            NetwatchError::PermissionDenied(_) => ErrorKind::PermissionDenied,
            NetwatchError::Io(_) => ErrorKind::Io,
            NetwatchError::Parse(_) => ErrorKind::Parse,
            NetwatchError::Config(_) => ErrorKind::Config,
            NetwatchError::Platform(_) => ErrorKind::Platform,
            NetwatchError::Security(_) => ErrorKind::Security,
        }
    }

    /// The message the error carries.
    pub open spec fn msg(&self) -> Seq<char> {
        match self {
            NetwatchError::DeviceNotFound(m) => m@,
            NetwatchError::PermissionDenied(m) => m@,
            NetwatchError::Io(m) => m@,
            NetwatchError::Parse(m) => m@,
            NetwatchError::Config(m) => m@,
            NetwatchError::Platform(m) => m@,
            NetwatchError::Security(m) => m@,
        }
    }

    /// The prefix that the error's description puts before its message.
    pub open spec fn prefix(&self) -> Seq<char> {
        match self {
            NetwatchError::DeviceNotFound(_) => "Device not found: "@,
            NetwatchError::PermissionDenied(_) => "Permission denied: "@,
            NetwatchError::Io(_) => "IO error: "@,
            NetwatchError::Parse(_) => "Parse error: "@,
            NetwatchError::Config(_) => "Configuration error: "@,
            NetwatchError::Platform(_) => "Platform error: "@,
            NetwatchError::Security(_) => "Security error: "@,
        }
    }

    /// The human-readable description of the error, e.g.
    /// `"Device not found: eth9"`.
    pub fn describe(&self) -> (s: String)
        ensures
            s@ == self.prefix() + self.msg(),
    {
        let (mut s, m) = match self {
            NetwatchError::DeviceNotFound(m) => (string_of("Device not found: "), m),
            NetwatchError::PermissionDenied(m) => (string_of("Permission denied: "), m),
            NetwatchError::Io(m) => (string_of("IO error: "), m),
            NetwatchError::Parse(m) => (string_of("Parse error: "), m),
            NetwatchError::Config(m) => (string_of("Configuration error: "), m),
            NetwatchError::Platform(m) => (string_of("Platform error: "), m),
            NetwatchError::Security(m) => (string_of("Security error: "), m),
        };
        s.append(m.as_str());
        s
    }
}

} // verus!
