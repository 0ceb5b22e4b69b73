//! The reader loop of one session, as a state machine. The host blocks on the
//! read of the session's output and hands each outcome to `ReaderLoop::step`,
//! which says what to publish and whether the loop goes on.

use vstd::prelude::*;
use crate::event::{PtyEvent, PtyEventView};
use crate::transport::{base64_encode, encoding};

verus! {

/// The most bytes that one read of a session's output asks for.
pub const CHUNK_SIZE: usize = 4096;

/// What one read of a session's output stream gave.
#[derive(Debug, Clone, Copy, PartialEq, Eq)]
pub enum ReadOutcome<'a> {
    /// The read succeeded with these bytes; none at the end of the stream.
    Bytes(&'a [u8]),
    /// The read failed.
    Failed,
}

/// A `ReadOutcome` with its bytes as a sequence.
pub enum ReadOutcomeView {
    Bytes(Seq<u8>),
    Failed,
}

impl<'a> View for ReadOutcome<'a> {
    type V = ReadOutcomeView;

    open spec fn view(&self) -> ReadOutcomeView {
        match self {
            ReadOutcome::Bytes(bytes) => ReadOutcomeView::Bytes(bytes@),
            ReadOutcome::Failed => ReadOutcomeView::Failed,
        }
    }
}

impl ReadOutcomeView {
    /// A read of no bytes and a failed read both end the loop.
    pub open spec fn ends_stream(self) -> bool {
        match self {
            ReadOutcomeView::Bytes(bytes) => bytes.len() == 0,
            ReadOutcomeView::Failed => true,
        }
    }
}

/// The state of a reader loop: the session it serves, and whether it has
/// published the session's exit.
pub struct ReaderLoop {
    id: u32,
    finished: bool,
}

/// What a loop for session `id` publishes for one outcome: nothing once it
/// has finished, the exit when the stream ends, else the chunk as base64.
pub open spec fn event_for(id: u32, finished: bool, outcome: ReadOutcomeView) -> Option<
    PtyEventView,
> {
    if finished {
        None
    } else {
        match outcome {
            ReadOutcomeView::Bytes(bytes) if bytes.len() > 0 => Some(
                PtyEventView::Output { id, data: encoding(bytes) },
            ),
            _ => Some(PtyEventView::Exit { id }),
        }
    }
}

/// All that a loop for session `id` publishes for `outcomes`, in order.
pub open spec fn published(id: u32, finished: bool, outcomes: Seq<ReadOutcomeView>) -> Seq<
    PtyEventView,
>
    decreases outcomes.len(),
{
    if outcomes.len() == 0 {
        Seq::empty()
    } else {
        let first = match event_for(id, finished, outcomes[0]) {
            Some(event) => seq![event],
            None => Seq::empty(),
        };
        first + published(id, finished || outcomes[0].ends_stream(), outcomes.skip(1))
    }
}

/// The number of outcomes in front of the first one that ends the stream.
pub open spec fn chunks_before_end(outcomes: Seq<ReadOutcomeView>) -> nat
    decreases outcomes.len(),
{
    if outcomes.len() == 0 || outcomes[0].ends_stream() {
        0
    } else {
        1 + chunks_before_end(outcomes.skip(1))
    }
}

impl ReaderLoop {
    /// The session that the loop serves.
    pub closed spec fn session(&self) -> u32 {
        self.id
    }

    /// Whether the loop has published the exit.
    pub closed spec fn finished(&self) -> bool {
        self.finished
    }

    /// The loop of session `id`, before its first read.
    pub fn new(id: u32) -> (reader: Self)
        ensures
            reader.session() == id,
            !reader.finished(),
    {
        ReaderLoop { id, finished: false }
    }

    /// The session that the loop serves.
    pub fn id(&self) -> (id: u32)
        ensures
            id == self.session(),
    {
        self.id
    }

    /// Whether the loop has ended; the host reads on while it has not.
    pub fn is_finished(&self) -> (finished: bool)
        ensures
            finished == self.finished(),
    {
        self.finished
    }

    /// Takes the outcome of one read and returns the event to publish, if
    /// any. A read of no bytes or a failed read publishes the session's exit
    /// and finishes the loop; any other read publishes the bytes as base64.
    /// A finished loop publishes nothing more.
    pub fn step(&mut self, outcome: ReadOutcome) -> (event: Option<PtyEvent>)
        ensures
            final(self).session() == old(self).session(),
            final(self).finished() == (old(self).finished() || outcome@.ends_stream()),
            match event {
                Some(e) => event_for(old(self).session(), old(self).finished(), outcome@) == Some(
                    e@,
                ),
                None => event_for(old(self).session(), old(self).finished(), outcome@) is None,
            },
    {
        if self.finished {
            return None;
        }
        match outcome {
            ReadOutcome::Bytes(bytes) => {
                if bytes.len() > 0 {
                    Some(PtyEvent::Output { id: self.id, data: base64_encode(bytes) })
                } else {
                    self.finished = true;
                    Some(PtyEvent::Exit { id: self.id })
                }
            },
            ReadOutcome::Failed => {
                self.finished = true;
                Some(PtyEvent::Exit { id: self.id })
            },
        }
    }
}

/// A finished loop publishes nothing, whatever it is handed.
pub proof fn lemma_finished_is_silent(id: u32, outcomes: Seq<ReadOutcomeView>)
    ensures
        published(id, true, outcomes) == Seq::<PtyEventView>::empty(),
    decreases outcomes.len(),
{
    if outcomes.len() > 0 {
        lemma_finished_is_silent(id, outcomes.skip(1));
    }
}

/// What a loop publishes from its start: one output event for each chunk in
/// front of the first outcome that ends the stream, in the order of the
/// reads, then the exit if the stream has ended, and nothing after it.
pub proof fn lemma_published_in_order(id: u32, outcomes: Seq<ReadOutcomeView>)
    ensures
        ({
            let events = published(id, false, outcomes);
            let chunks = chunks_before_end(outcomes);
            &&& chunks <= outcomes.len()
            &&& events.len() == if chunks < outcomes.len() { chunks + 1 } else { chunks }
            &&& forall|i: int|
                0 <= i < chunks ==> outcomes[i] is Bytes && #[trigger] events[i]
                    == (PtyEventView::Output { id, data: encoding(outcomes[i]->Bytes_0) })
            &&& chunks < outcomes.len() ==> events[chunks as int] == (PtyEventView::Exit { id })
        }),
    decreases outcomes.len(),
{
    if outcomes.len() == 0 {
    } else if outcomes[0].ends_stream() {
        lemma_finished_is_silent(id, outcomes.skip(1));
    } else {
        let rest = outcomes.skip(1);
        lemma_published_in_order(id, rest);
        let events = published(id, false, outcomes);
        let later = published(id, false, rest);
        assert(events =~= seq![event_for(id, false, outcomes[0])->0] + later);
        assert forall|i: int| 0 <= i < chunks_before_end(outcomes) implies outcomes[i] is Bytes
            && #[trigger] events[i] == (PtyEventView::Output {
            id,
            data: encoding(outcomes[i]->Bytes_0),
        }) by {
            if i > 0 {
                assert(events[i] == later[i - 1]);
                assert(outcomes[i] == rest[i - 1]);
            }
        }
    }
}

/// A session's exit is published at most once, as the last of its events,
/// and it is published exactly when some read has ended the stream, be it
/// by an empty read or by a failure.
pub proof fn lemma_exit_exactly_once(id: u32, outcomes: Seq<ReadOutcomeView>)
    ensures
        ({
            let events = published(id, false, outcomes);
            &&& forall|i: int|
                0 <= i < events.len() && #[trigger] events[i] is Exit ==> i == events.len() - 1
            &&& forall|i: int, j: int|
                0 <= i < events.len() && 0 <= j < events.len() && #[trigger] events[i] is Exit
                    && #[trigger] events[j] is Exit ==> i == j
            &&& (exists|i: int| 0 <= i < events.len() && #[trigger] events[i] is Exit) <==> (
            exists|k: int| 0 <= k < outcomes.len() && #[trigger] outcomes[k].ends_stream())
            &&& forall|i: int| 0 <= i < events.len() ==> (#[trigger] events[i]).id() == id
        }),
{
    lemma_published_in_order(id, outcomes);
    lemma_first_end(outcomes);
    let events = published(id, false, outcomes);
    let chunks = chunks_before_end(outcomes) as int;
    if chunks < outcomes.len() {
        assert(events[chunks] is Exit);
        assert(outcomes[chunks].ends_stream());
    }
}

/// The outcomes in front of the first end of the stream do not end it, and
/// the one behind them, if there is one, does.
proof fn lemma_first_end(outcomes: Seq<ReadOutcomeView>)
    ensures
        chunks_before_end(outcomes) <= outcomes.len(),
        forall|k: int|
            0 <= k < chunks_before_end(outcomes) ==> !(#[trigger] outcomes[k]).ends_stream(),
        chunks_before_end(outcomes) < outcomes.len() ==> outcomes[chunks_before_end(
            outcomes,
        ) as int].ends_stream(),
    decreases outcomes.len(),
{
    if outcomes.len() == 0 || outcomes[0].ends_stream() {
    } else {
        let rest = outcomes.skip(1);
        lemma_first_end(rest);
        assert forall|k: int| 0 <= k < chunks_before_end(outcomes) implies !(
        #[trigger] outcomes[k]).ends_stream() by {
            if k > 0 {
                assert(outcomes[k] == rest[k - 1]);
            }
        }
    }
}

} // verus!
