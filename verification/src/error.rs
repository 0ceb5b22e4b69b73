//! The failures that the command surface reports.

use vstd::prelude::*;

verus! {

/// Why a command failed.
#[derive(Debug, PartialEq, Eq)]
pub enum PtyError {
    /// The pseudo-terminal could not be allocated, the shell could not be
    /// spawned, or a handle could not be had; carries the system's
    /// description. Also when no session identifier is left.
    Allocation(String),
    /// No session is registered under the identifier.
    NotFound,
    /// Writing, flushing or resizing failed; carries the system's description.
    Io(String),
    /// The registry's lock cannot be used; carries the lock's description.
    Lock(String),
}

/// A `PtyError` with its texts as character sequences.
pub enum PtyErrorView {
    Allocation(Seq<char>),
    NotFound,
    Io(Seq<char>),
    Lock(Seq<char>),
}

impl View for PtyError {
    type V = PtyErrorView;

    open spec fn view(&self) -> PtyErrorView {
        match self {
            PtyError::Allocation(reason) => PtyErrorView::Allocation(reason@),
            PtyError::NotFound => PtyErrorView::NotFound,
            PtyError::Io(reason) => PtyErrorView::Io(reason@),
            PtyError::Lock(reason) => PtyErrorView::Lock(reason@),
        }
    }
}

/// What a caller is told when a session is not found.
pub const SESSION_NOT_FOUND: &'static str = "Session not found";

/// What a caller is told when every session identifier has been handed out.
pub const NO_IDENTIFIER_LEFT: &'static str = "No session identifier left";

impl PtyErrorView {
    /// The description handed to the caller: the fixed text for an unknown
    /// session, the carried description for every other failure.
    pub open spec fn message(self) -> Seq<char> {
        match self {
            PtyErrorView::Allocation(reason) => reason,
            PtyErrorView::NotFound => SESSION_NOT_FOUND@,
            PtyErrorView::Io(reason) => reason,
            PtyErrorView::Lock(reason) => reason,
        }
    }
}

impl PtyError {
    /// The description of this failure, as the caller of a command sees it.
    pub fn message(&self) -> (text: String)
        ensures
            text@ == self@.message(),
    {
        match self {
            PtyError::Allocation(reason) => reason.clone(),
            PtyError::NotFound => SESSION_NOT_FOUND.to_owned(),
            PtyError::Io(reason) => reason.clone(),
            PtyError::Lock(reason) => reason.clone(),
        }
    }
}

} // verus!
