//! What can go wrong, for a caller to handle.
use vstd::prelude::*;

verus! {

#[derive(Clone, Debug, PartialEq, Eq)]
pub enum Error {
    /// No state file at the configured location.
    ConfigMissing,
    /// The state file could not be read as a state.
    ConfigCorrupt,
    /// The state location could not be found or written; the text says why.
    IoError(String),
    /// The project name is not in the registry.
    UnknownProject(String),
    /// The remote service could not be reached.
    Unreachable,
    /// The remote service answered with a status other than success.
    RemoteError { status: u16, body: String },
    /// The remote answer did not have the expected shape.
    DecodeError,
    /// A task has a due date, and no time zone is known to read it in.
    MissingTimezone,
}

} // verus!
