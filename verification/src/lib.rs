//! Decision engine of a local-repository synchronization tool.
//!
//! The library holds everything the tool decides or computes: the bounded
//! authentication-retry dispatcher, the fast-forward merge classification,
//! branch pruning, the synchronization sequence with its partial-failure
//! policy, and the parsing of remote URLs and reference names. The
//! surrounding binaries perform the actual repository and network I/O and
//! feed its outcomes into these functions as plain values.

use vstd::prelude::*;

pub mod auth;
pub mod errors;
pub mod merge;
pub mod repo;
pub mod sync;
pub mod url;

verus! {

/// Log verbosity levels the tool distinguishes.
#[derive(Clone, Copy, PartialEq, Eq, Structural, Debug)]
pub enum LogLevel {
    Info,
    Debug,
    Trace,
}

/// Map the count of `-v` flags to a log level: zero means informational,
/// one enables debug output, and anything more enables tracing.
pub fn log_level(verbose: u8) -> (level: LogLevel)
    ensures
        verbose == 0 ==> level == LogLevel::Info,
        verbose == 1 ==> level == LogLevel::Debug,
        verbose >= 2 ==> level == LogLevel::Trace,
{
    match verbose {
        0 => LogLevel::Info,
        1 => LogLevel::Debug,
        _ => LogLevel::Trace,
    }
}

} // verus!
