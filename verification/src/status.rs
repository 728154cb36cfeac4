//! Status and error taxonomy.
//!
//! The archive engine reports every operation through a signed integer
//! code.  This module maps the raw scale onto a closed set of outcomes,
//! so that no raw code crosses the session or entry boundary, and defines
//! the error types that open and per-entry operations surface.

use vstd::prelude::*;

verus! {

/// Raw engine code: success.
pub const ARCHIVE_OK: i32 = 0;

/// Raw engine code: iteration exhausted.
pub const ARCHIVE_EOF: i32 = 1;

/// Raw engine code: transient condition, the caller may reissue.
pub const ARCHIVE_RETRY: i32 = -10;

/// Raw engine code: success with a recoverable anomaly.
pub const ARCHIVE_WARN: i32 = -20;

/// Raw engine code: the operation failed but the session stays usable.
pub const ARCHIVE_FAILED: i32 = -25;

/// Raw engine code: the session is no longer usable.
pub const ARCHIVE_FATAL: i32 = -30;

/// Outcome of one engine-level operation.
#[derive(Clone, Copy, Debug, PartialEq, Eq, Structural)]
pub enum Status {
    Success,
    Warning,
    Failed,
    Retry,
    EndOfInput,
    Fatal,
}

/// The outcome that a raw engine code denotes.  Codes outside the
/// six-valued scale count as fatal: the session must not be used further.
pub open spec fn spec_status_from_code(code: i32) -> Status {
    if code == ARCHIVE_OK {
        Status::Success
    } else if code == ARCHIVE_EOF {
        Status::EndOfInput
    } else if code == ARCHIVE_RETRY {
        Status::Retry
    } else if code == ARCHIVE_WARN {
        Status::Warning
    } else if code == ARCHIVE_FAILED {
        Status::Failed
    } else {
        Status::Fatal
    }
}

/// Translates a raw engine code into an outcome.
pub fn status_from_code(code: i32) -> (s: Status)
    ensures
        s == spec_status_from_code(code),
{
    if code == ARCHIVE_OK {
        Status::Success
    } else if code == ARCHIVE_EOF {
        Status::EndOfInput
    } else if code == ARCHIVE_RETRY {
        Status::Retry
    } else if code == ARCHIVE_WARN {
        Status::Warning
    } else if code == ARCHIVE_FAILED {
        Status::Failed
    } else {
        Status::Fatal
    }
}

/// Whether an outcome lets the caller keep issuing operations on the
/// same session.  `Failed` is local to one operation; only a fatal
/// outcome poisons the session.
pub open spec fn spec_session_usable(s: Status) -> bool {
    s != Status::Fatal
}

/// Whether an outcome lets the caller keep using the session.
pub fn session_usable(s: Status) -> (r: bool)
    ensures
        r == spec_session_usable(s),
{
    !(s == Status::Fatal)
}

/// Failure while building a session: allocation of the native handle,
/// its configuration, or the attachment to a source or sink.  Whichever
/// step fails, the partially built handle is released before the error
/// is returned.
#[derive(Clone, Copy, Debug, PartialEq, Eq, Structural)]
pub enum Error {
    Allocation,
    Initialization,
    Open,
}

/// Failure of a per-entry operation on an open session.  `Failed` and
/// `PartlyDone` are local to the entry; `Fatal` poisons the session.
#[derive(Clone, Copy, Debug, PartialEq, Eq, Structural)]
pub enum IOError {
    Failed,
    Fatal,
    PartlyDone,
}

} // verus!
