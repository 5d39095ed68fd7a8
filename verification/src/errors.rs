//! Typed failures of the dispatch subsystem.
//!
//! No failure here is fatal: every public operation reports one of these
//! rather than aborting, and dispatch itself swallows problems after logging,
//! since a dropped keypress is far better than a crashed event loop.

use vstd::prelude::*;

verus! {

/// What a registration or window operation can fail with.
#[derive(Clone, Copy, PartialEq, Eq, Structural, Debug)]
pub enum DispatchError {
    /// The shortcut spelling is malformed: it has no key token, or a
    /// modifier token is not one the subsystem knows.
    InvalidShortcutFormat,
    /// The windowing host refused to bind or unbind the combination, for
    /// example because another application already claimed it.
    OsRegistrationFailed,
    /// The operation targeted a window the controller cannot locate.
    WindowNotFound,
}

impl DispatchError {
    /// The human-readable text handed to callers at the outer boundary.
    pub fn message(&self) -> (r: &'static str)
        ensures
            *self == DispatchError::InvalidShortcutFormat ==> r@ == "invalid shortcut format"@,
            *self == DispatchError::OsRegistrationFailed ==> r@
                == "the system refused to bind or unbind the shortcut"@,
            *self == DispatchError::WindowNotFound ==> r@ == "window not found"@,
    {
        match self {
            DispatchError::InvalidShortcutFormat => "invalid shortcut format",
            DispatchError::OsRegistrationFailed => "the system refused to bind or unbind the shortcut",
            DispatchError::WindowNotFound => "window not found",
        }
    }
}

} // verus!
