//! The fatal error tier: conditions that abort the whole run with a
//! non-zero exit. Per-candidate failures are never surfaced; they only skip
//! their candidate.

use vstd::prelude::*;
use vstd::string::StringExecFns;

verus! {

/// A condition that aborts the whole run: the current-desktop value is
/// missing, the directory convention cannot be resolved, or reading an
/// existing config file or listing an existing data root failed.
pub enum FatalError {
    MissingDesktopContext,
    DirectoryConvention,
    IoFailure,
}

impl FatalError {
    /// A short description of the fatal condition, for the exit report.
    pub fn message(&self) -> (r: String)
        ensures
            self is MissingDesktopContext ==> r@ == "XDG_CURRENT_DESKTOP is not set"@,
            self is DirectoryConvention ==> r@ == "base directories could not be resolved"@,
            self is IoFailure ==> r@ == "reading a configuration source failed"@,
    {
        match self {
            FatalError::MissingDesktopContext => String::from_str("XDG_CURRENT_DESKTOP is not set"),
            FatalError::DirectoryConvention => String::from_str(
                "base directories could not be resolved",
            ),
            FatalError::IoFailure => String::from_str("reading a configuration source failed"),
        }
    }
}

} // verus!
