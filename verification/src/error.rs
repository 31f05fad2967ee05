//! The error kinds that spawning and session management can surface.

use vstd::prelude::*;

verus! {

/// Everything that can go wrong while preparing or managing a pty session.
///
/// All validation failures are reported before any native call would be
/// attempted; failures of the native calls themselves are reported as
/// `OsSpawnFailure` with the raw error code.
#[derive(Clone, Copy, Debug, PartialEq, Eq, Structural)]
pub enum Error {
    /// A nul unit appeared in a program name, argument, environment key or
    /// value, or working directory.
    InvalidInput,
    /// The requested executable could not be resolved against the effective
    /// search path.
    LookupFailure,
    /// A native allocation or process-creation call failed; carries the raw
    /// operating-system error code.
    OsSpawnFailure(i32),
    /// The reader/writer pair of a `PtyProcess` was already retrieved.
    HandleAlreadyTaken,
    /// The requested operation is not implemented for this platform.
    Unsupported,
}

impl Error {
    /// A short descriptive name for the error, for embedding in messages.
    pub fn describe(&self) -> (r: &'static str)
        ensures
            self is InvalidInput ==> r@ == "nul byte found in provided data"@,
            self is LookupFailure ==> r@ == "could not resolve executable"@,
            self is OsSpawnFailure ==> r@ == "could not spawn pty process"@,
            self is HandleAlreadyTaken ==> r@ == "IO handles already taken"@,
            self is Unsupported ==> r@ == "not supported on this platform"@,
    {
        match self {
            Error::InvalidInput => "nul byte found in provided data",
            Error::LookupFailure => "could not resolve executable",
            Error::OsSpawnFailure(_) => "could not spawn pty process",
            Error::HandleAlreadyTaken => "IO handles already taken",
            Error::Unsupported => "not supported on this platform",
        }
    }
}

/// Relies on std::io::Error::last_os_error, which reads the calling
/// thread's last OS error value, and on raw_os_error, which hands back the
/// raw code such an error was built from.  Which code comes back depends
/// on what the thread last did, so nothing is promised of it.
#[verifier::external_body]
fn last_os_error_code() -> (r: i32) {
    match std::io::Error::last_os_error().raw_os_error() {
        Some(code) => code,
        None => 0,
    }
}

/// The most recent operating-system error of the calling thread, as a
/// spawn failure carrying the raw error code.
pub fn last_error() -> (r: Error)
    ensures
        r is OsSpawnFailure,
{
    Error::OsSpawnFailure(last_os_error_code())
}

} // verus!
