//! The events that a session publishes to the presentation layer.

use vstd::prelude::*;

verus! {

/// The name under which a chunk of output is published.
pub const OUTPUT_EVENT: &'static str = "pty-output";

/// The name under which the end of a session's output is published.
pub const EXIT_EVENT: &'static str = "pty-exit";

/// One event of one session.
#[derive(Debug, PartialEq, Eq)]
pub enum PtyEvent {
    /// A chunk of the session's output, as base64 text.
    Output { id: u32, data: String },
    /// The session's output stream has ended.
    Exit { id: u32 },
}

/// A `PtyEvent` with its payload as a character sequence.
pub enum PtyEventView {
    Output { id: u32, data: Seq<char> },
    Exit { id: u32 },
}

impl View for PtyEvent {
    type V = PtyEventView;

    open spec fn view(&self) -> PtyEventView {
        match self {
            PtyEvent::Output { id, data } => PtyEventView::Output { id: *id, data: data@ },
            PtyEvent::Exit { id } => PtyEventView::Exit { id: *id },
        }
    }
}

impl PtyEventView {
    /// The session that the event belongs to.
    pub open spec fn id(self) -> u32 {
        match self {
            PtyEventView::Output { id, .. } => id,
            PtyEventView::Exit { id } => id,
        }
    }

    /// The name under which the event is published.
    pub open spec fn name(self) -> Seq<char> {
        match self {
            PtyEventView::Output { .. } => OUTPUT_EVENT@,
            PtyEventView::Exit { .. } => EXIT_EVENT@,
        }
    }
}

impl PtyEvent {
    /// The session that the event belongs to.
    pub fn id(&self) -> (id: u32)
        ensures
            id == self@.id(),
    {
        match self {
            PtyEvent::Output { id, .. } => *id,
            PtyEvent::Exit { id } => *id,
        }
    }

    /// The name under which the event is published.
    pub fn name(&self) -> (name: &'static str)
        ensures
            name@ == self@.name(),
    {
        match self {
            PtyEvent::Output { .. } => OUTPUT_EVENT,
            PtyEvent::Exit { .. } => EXIT_EVENT,
        }
    }
}

} // verus!
