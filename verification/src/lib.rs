//! Verified core of a network traffic monitor: parsing of kernel and
//! tool output, input validation, security event tracking, traffic
//! statistics and the interactive control logic.
pub mod cli;
pub mod clock;
pub mod config;
pub mod connections;
pub mod controls;
pub mod dashboard;
pub mod device;
pub mod diagnostics;
pub mod error;
pub mod format;
pub mod input;
pub mod intelligence;
pub mod launch;
pub mod logger;
pub mod order;
pub mod platform;
pub mod processes;
pub mod security;
pub mod stats;
pub mod system;
pub mod text;
pub mod validation;
