//! OS error values as the filesystem reports them.
//!
//! Every operation that touches the real filesystem yields either success or
//! an error carrying a raw OS errno. The raw value is propagated to the
//! kernel verbatim; only when it is unavailable is `ENOENT` substituted.

use vstd::prelude::*;

verus! {

/// "No such file or directory."
pub const ENOENT: i32 = 2;

/// "Operation not permitted."
pub const EPERM: i32 = 1;

/// "Input/output error": reserved for internal invariant violations.
pub const EIO: i32 = 5;

/// An error from a syscall. The raw errno may be absent when the failure
/// happened before the syscall itself (for instance an unrepresentable path).
#[derive(Debug, Clone, Copy, PartialEq, Eq, Structural)]
pub struct OsError {
    pub raw: Option<i32>,
}

/// The errno reported to the kernel for a syscall error: the raw OS value
/// verbatim when it is known, `ENOENT` otherwise.
pub open spec fn spec_os_error_code(e: OsError) -> i32 {
    match e.raw {
        Some(c) => c,
        None => ENOENT,
    }
}

/// Maps a syscall error to the errno reported to the kernel.
pub fn os_error_code(e: &OsError) -> (r: i32)
    ensures
        r == spec_os_error_code(*e),
{
    match e.raw {
        Some(c) => c,
        None => ENOENT,
    }
}

/// A permission error from the underlying filesystem is surfaced unchanged,
/// never rewritten to `ENOENT`.
pub proof fn lemma_eperm_surfaced_unchanged()
    ensures
        spec_os_error_code(OsError { raw: Some(EPERM) }) == EPERM,
        EPERM != ENOENT,
{
}

} // verus!
