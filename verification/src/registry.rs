//! The session registry and the command surface: create, write, resize and
//! close, and the question whether any session is still active.
//!
//! The registry performs no input or output. It keeps the handles of each
//! session for the host, without looking into them: a command says what the
//! host has to do with them, or takes the outcome of what the host did.

use std::collections::HashMap;
use vstd::prelude::*;
use crate::error::{PtyError, PtyErrorView, NO_IDENTIFIER_LEFT};
use crate::event::{PtyEvent, PtyEventView};
use crate::reader::{chunks_before_end, lemma_published_in_order, published, ReadOutcomeView};
use crate::terminal::TerminalSize;

verus! {

broadcast use vstd::std_specs::hash::group_hash_axioms;

/// Where a registered session stands: its process runs, or its output
/// stream has ended and the session waits to be closed.
#[derive(Debug, Clone, Copy, PartialEq, Eq, Structural)]
pub enum SessionState {
    Running,
    Exited,
}

/// One registered session: the handles that the host works with, and where
/// the session stands.
#[derive(Debug, PartialEq, Eq)]
pub struct PtySession<H> {
    pub handles: H,
    pub state: SessionState,
}

/// A creation that the registry refused: why, and the handles that the host
/// had for the session, if it had any, so that the host can terminate the
/// process that it spawned.
#[derive(Debug, PartialEq, Eq)]
pub struct Refused<H> {
    pub error: PtyError,
    pub handles: Option<H>,
}

/// The identifier that is handed out when `issued` identifiers have been
/// handed out before: the first is 1, and each is one more than the last.
pub open spec fn id_for(issued: nat) -> nat {
    issued + 1
}

/// The registry as a mathematical value: the registered sessions by their
/// identifiers, and the number of identifiers handed out.
#[verifier::ext_equal]
pub struct RegistryModel<H> {
    pub sessions: Map<u32, PtySession<H>>,
    pub issued: nat,
}

impl<H> RegistryModel<H> {
    /// The registry at process start.
    pub open spec fn empty() -> RegistryModel<H> {
        RegistryModel { sessions: Map::empty(), issued: 0 }
    }

    /// Every identifier that was handed out fits in 32 bits, and every
    /// registered identifier has been handed out: it lies between 1 and the
    /// number of identifiers handed out.
    pub open spec fn wf(self) -> bool {
        &&& self.sessions.dom().finite()
        &&& self.issued <= u32::MAX
        &&& forall|id: u32| self.sessions.contains_key(id) ==> 1 <= id <= self.issued
    }

    /// Whether every identifier has been handed out, so that no session can
    /// be created any more.
    pub open spec fn exhausted(self) -> bool {
        self.issued >= u32::MAX
    }

    /// The identifier of the next session, while one is left.
    pub open spec fn next_id(self) -> u32
        recommends
            !self.exhausted(),
    {
        id_for(self.issued) as u32
    }

    /// After the creation of a session with `handles` has been asked for: it
    /// is registered as running under the next identifier. Nothing changes
    /// if no identifier is left.
    pub open spec fn create(self, handles: H) -> RegistryModel<H> {
        if self.exhausted() {
            self
        } else {
            RegistryModel {
                sessions: self.sessions.insert(
                    self.next_id(),
                    PtySession { handles, state: SessionState::Running },
                ),
                issued: self.issued + 1,
            }
        }
    }

    /// After the end of the output of session `id` has been seen: the
    /// session stays registered, with its handles, as exited. Nothing
    /// changes if it is not registered.
    pub open spec fn record_exit(self, id: u32) -> RegistryModel<H> {
        if self.sessions.contains_key(id) {
            RegistryModel {
                sessions: self.sessions.insert(
                    id,
                    PtySession { handles: self.sessions[id].handles, state: SessionState::Exited },
                ),
                ..self
            }
        } else {
            self
        }
    }

    /// After `event` has been published: an exit is recorded, and an output
    /// changes nothing.
    pub open spec fn observe(self, event: PtyEventView) -> RegistryModel<H> {
        match event {
            PtyEventView::Exit { id } => self.record_exit(id),
            PtyEventView::Output { .. } => self,
        }
    }

    /// After each of `events` has been published, in order.
    pub open spec fn observe_all(self, events: Seq<PtyEventView>) -> RegistryModel<H>
        decreases events.len(),
    {
        if events.len() == 0 {
            self
        } else {
            self.observe(events[0]).observe_all(events.skip(1))
        }
    }

    /// After session `id` has been closed: it is not registered.
    pub open spec fn close(self, id: u32) -> RegistryModel<H> {
        RegistryModel { sessions: self.sessions.remove(id), ..self }
    }

    /// After every session has been closed.
    pub open spec fn close_all(self) -> RegistryModel<H> {
        RegistryModel { sessions: Map::empty(), ..self }
    }

    /// The answer to a write of `data` to session `id`: the handles of the
    /// session and the bytes to send to its input, or that the session is
    /// not found.
    pub open spec fn write(self, id: u32, data: Seq<char>) -> Result<(H, Seq<u8>), PtyErrorView> {
        if self.sessions.contains_key(id) {
            Ok((self.sessions[id].handles, vstd::utf8::encode_utf8(data)))
        } else {
            Err(PtyErrorView::NotFound)
        }
    }

    /// The answer to a resize of session `id`: the handles of the session
    /// and the geometry to give to its pseudo-terminal, or that the session
    /// is not found.
    pub open spec fn resize(self, id: u32, rows: u16, cols: u16) -> Result<
        (H, TerminalSize),
        PtyErrorView,
    > {
        if self.sessions.contains_key(id) {
            Ok(
                (
                    self.sessions[id].handles,
                    TerminalSize { rows, cols, pixel_width: 0, pixel_height: 0 },
                ),
            )
        } else {
            Err(PtyErrorView::NotFound)
        }
    }

    /// Whether some registered session has not exited.
    pub open spec fn has_active_sessions(self) -> bool {
        exists|id: u32| #[trigger]
            self.sessions.contains_key(id) && self.sessions[id].state == SessionState::Running
    }
}

/// The registry of the sessions of one process. `H` is what the host keeps
/// for a session: the handles of its pseudo-terminal and of its process.
pub struct Registry<H> {
    sessions: HashMap<u32, PtySession<H>>,
    issued: u32,
}

impl<H> View for Registry<H> {
    type V = RegistryModel<H>;

    closed spec fn view(&self) -> RegistryModel<H> {
        RegistryModel { sessions: self.sessions@, issued: self.issued as nat }
    }
}

impl<H> Registry<H> {
    #[verifier::type_invariant]
    spec fn inv(self) -> bool {
        self@.wf()
    }

    /// The registry at process start: no session, and 1 as the first
    /// identifier.
    pub fn new() -> (registry: Registry<H>)
        ensures
            registry@ == RegistryModel::<H>::empty(),
            registry@.wf(),
    {
        let registry = Registry { sessions: HashMap::new(), issued: 0 };
        assert(registry@ =~= RegistryModel::<H>::empty());
        registry
    }

    /// Ends the creation of a session, given how the host's allocation of
    /// the pseudo-terminal, the spawn of the shell and the taking of the
    /// handles went. If they gave the handles, the session is registered
    /// with them as running under the next identifier, which is returned and
    /// under which no session was ever registered before.
    ///
    /// The creation is refused, and nothing changes, if the host failed with
    /// `reason`, which is then the description of the failure, or if every
    /// identifier has been handed out; the handles are then handed back.
    pub fn create(&mut self, spawned: Result<H, String>) -> (created: Result<u32, Refused<H>>)
        ensures
            final(self)@.wf(),
            match spawned {
                Ok(handles) => if old(self)@.exhausted() {
                    &&& created matches Err(refused)
                    &&& refused.error@ == PtyErrorView::Allocation(NO_IDENTIFIER_LEFT@)
                    &&& refused.handles == Some(handles)
                    &&& final(self)@ == old(self)@
                } else {
                    &&& created == Ok::<u32, Refused<H>>(old(self)@.next_id())
                    &&& old(self)@.next_id() == id_for(old(self)@.issued)
                    &&& !old(self)@.sessions.contains_key(old(self)@.next_id())
                    &&& final(self)@ == old(self)@.create(handles)
                },
                Err(reason) => {
                    &&& created matches Err(refused)
                    &&& refused.error@ == PtyErrorView::Allocation(reason@)
                    &&& refused.handles is None
                    &&& final(self)@ == old(self)@
                },
            },
    {
        proof {
            use_type_invariant(&*self);
        }
        match spawned {
            Ok(handles) => {
                if self.issued == u32::MAX {
                    return Err(
                        Refused {
                            error: PtyError::Allocation(NO_IDENTIFIER_LEFT.to_owned()),
                            handles: Some(handles),
                        },
                    );
                }
                let id = self.issued + 1;
                let mut sessions = HashMap::new();
                std::mem::swap(&mut sessions, &mut self.sessions);
                sessions.insert(id, PtySession { handles, state: SessionState::Running });
                *self = Registry { sessions, issued: id };
                assert(self@ =~= old(self)@.create(handles));
                Ok(id)
            },
            Err(reason) => Err(Refused { error: PtyError::Allocation(reason), handles: None }),
        }
    }

    /// Answers a write of `data` to session `id`. For a registered session
    /// it returns the session's handles and the bytes that the host is to
    /// write to the session's input, all of them, before it flushes; for any
    /// other identifier it fails with `NotFound`. The registry is not
    /// changed.
    pub fn write<'a, 'b>(&'a self, id: u32, data: &'b str) -> (order: Result<
        (&'a H, &'b [u8]),
        PtyError,
    >)
        ensures
            self@.wf(),
            match (order, self@.write(id, data@)) {
                (Ok(found), Ok(expected)) => *found.0 == expected.0 && found.1@ == expected.1,
                (Err(e), Err(expected)) => e@ == expected,
                _ => false,
            },
    {
        proof {
            use_type_invariant(self);
        }
        match self.sessions.get(&id) {
            Some(session) => Ok((&session.handles, data.as_bytes())),
            None => Err(PtyError::NotFound),
        }
    }

    /// Answers a resize of session `id` to `rows` by `cols` character cells.
    /// For a registered session it returns the session's handles and the
    /// geometry that the host is to give to the session's pseudo-terminal,
    /// its pixel size unset; for any other identifier it fails with
    /// `NotFound`. The registry is not changed.
    pub fn resize(&self, id: u32, rows: u16, cols: u16) -> (order: Result<
        (&H, TerminalSize),
        PtyError,
    >)
        ensures
            self@.wf(),
            match (order, self@.resize(id, rows, cols)) {
                (Ok(found), Ok(expected)) => *found.0 == expected.0 && found.1 == expected.1,
                (Err(e), Err(expected)) => e@ == expected,
                _ => false,
            },
    {
        proof {
            use_type_invariant(self);
        }
        match self.sessions.get(&id) {
            Some(session) => Ok((&session.handles, TerminalSize::cells(rows, cols))),
            None => Err(PtyError::NotFound),
        }
    }

    /// Closes session `id`: it is removed from the registry. Returns the
    /// session as it was registered, so that the host terminates its
    /// process, or `None` if it was not registered, in which case nothing
    /// changes.
    pub fn close(&mut self, id: u32) -> (removed: Option<PtySession<H>>)
        ensures
            final(self)@.wf(),
            final(self)@ == old(self)@.close(id),
            removed == if old(self)@.sessions.contains_key(id) {
                Some(old(self)@.sessions[id])
            } else {
                None
            },
    {
        proof {
            use_type_invariant(&*self);
        }
        let mut sessions = HashMap::new();
        std::mem::swap(&mut sessions, &mut self.sessions);
        let removed = sessions.remove(&id);
        self.sessions = sessions;
        assert(self@ =~= old(self)@.close(id));
        removed
    }

    /// Closes every session, as the host does before the process exits.
    /// Returns the sessions that were registered, each once with its
    /// identifier and in no particular order, so that the host terminates
    /// their processes.
    pub fn close_all(&mut self) -> (closed: Vec<(u32, PtySession<H>)>)
        ensures
            final(self)@.wf(),
            final(self)@ == old(self)@.close_all(),
            forall|i: int, j: int|
                0 <= i < j < closed@.len() ==> (#[trigger] closed@[i]).0 != (
                #[trigger] closed@[j]).0,
            forall|i: int|
                0 <= i < closed@.len() ==> old(self)@.sessions.contains_key(
                    (#[trigger] closed@[i]).0,
                ) && closed@[i].1 == old(self)@.sessions[closed@[i].0],
            forall|id: u32|
                old(self)@.sessions.contains_key(id) ==> exists|i: int|
                    0 <= i < closed@.len() && (#[trigger] closed@[i]).0 == id,
    {
        proof {
            use_type_invariant(&*self);
        }
        let mut sessions = HashMap::new();
        std::mem::swap(&mut sessions, &mut self.sessions);
        let ghost before = sessions@;
        proof {
            vstd::std_specs::hash::axiom_spec_hash_map_iter(&sessions);
        }
        let ghost pairs = vstd::std_specs::iter::IteratorSpec::remaining(
            &vstd::std_specs::hash::spec_hash_map_iter(&sessions),
        );
        let mut ids: Vec<u32> = Vec::new();
        for pair in it: sessions.iter()
            invariant
                it.seq() == pairs,
                ids@.len() == it.index(),
                forall|j: int| 0 <= j < ids@.len() ==> #[trigger] ids@[j] == *pairs[j].0,
        {
            ids.push(*pair.0);
        }
        proof {
            assert(pairs.no_duplicates());
            assert forall|i: int, j: int| 0 <= i < j < ids@.len() implies ids@[i] != ids@[j] by {
                assert(before.contains_key(*pairs[i].0));
                assert(before.contains_key(*pairs[j].0));
                assert(pairs[i] != pairs[j]);
            }
            assert forall|id: u32| before.contains_key(id) implies exists|i: int|
                0 <= i < ids@.len() && #[trigger] ids@[i] == id by {
                assert(pairs.contains((&id, &before[id])));
                let j = choose|j: int| 0 <= j < pairs.len() && pairs[j] == (&id, &before[id]);
                assert(ids@[j] == id);
            }
            assert forall|i: int| 0 <= i < ids@.len() implies before.contains_key(
                #[trigger] ids@[i],
            ) by {
                assert(before.contains_key(*pairs[i].0));
            }
        }
        let mut closed: Vec<(u32, PtySession<H>)> = Vec::new();
        let mut done: usize = 0;
        while done < ids.len()
            invariant
                done <= ids@.len(),
                closed@.len() == done,
                forall|i: int, j: int| 0 <= i < j < ids@.len() ==> ids@[i] != ids@[j],
                forall|i: int| 0 <= i < ids@.len() ==> before.contains_key(#[trigger] ids@[i]),
                forall|id: u32|
                    before.contains_key(id) ==> exists|i: int|
                        0 <= i < ids@.len() && #[trigger] ids@[i] == id,
                forall|i: int|
                    0 <= i < done ==> (#[trigger] closed@[i]).0 == ids@[i] && closed@[i].1
                        == before[ids@[i]],
                forall|i: int|
                    done <= i < ids@.len() ==> sessions@.contains_key(#[trigger] ids@[i])
                        && sessions@[ids@[i]] == before[ids@[i]],
            decreases ids@.len() - done,
        {
            let id = ids[done];
            match sessions.remove(&id) {
                Some(session) => {
                    closed.push((id, session));
                },
                None => {},
            }
            done = done + 1;
        }
        proof {
            assert forall|id: u32| before.contains_key(id) implies exists|i: int|
                0 <= i < closed@.len() && (#[trigger] closed@[i]).0 == id by {
                let i = choose|i: int| 0 <= i < ids@.len() && #[trigger] ids@[i] == id;
                assert(closed@[i].0 == id);
            }
        }
        assert(self@ =~= old(self)@.close_all());
        closed
    }

    /// Records that the output stream of session `id` has ended. The session
    /// stays registered until it is closed. Nothing changes if the session is
    /// not registered.
    pub fn record_exit(&mut self, id: u32)
        ensures
            final(self)@.wf(),
            final(self)@ == old(self)@.record_exit(id),
    {
        proof {
            use_type_invariant(&*self);
        }
        let mut sessions = HashMap::new();
        std::mem::swap(&mut sessions, &mut self.sessions);
        match sessions.remove(&id) {
            Some(session) => {
                sessions.insert(
                    id,
                    PtySession { handles: session.handles, state: SessionState::Exited },
                );
            },
            None => {},
        }
        self.sessions = sessions;
        assert(self@ =~= old(self)@.record_exit(id));
    }

    /// Takes note of an event of a session before the host publishes it: the
    /// exit of a session is recorded, an output changes nothing.
    pub fn observe(&mut self, event: &PtyEvent)
        ensures
            final(self)@.wf(),
            final(self)@ == old(self)@.observe(event@),
    {
        proof {
            use_type_invariant(&*self);
        }
        match event {
            PtyEvent::Exit { id } => self.record_exit(*id),
            PtyEvent::Output { .. } => {},
        }
    }

    /// Where session `id` stands, or `None` if it is not registered.
    pub fn state(&self, id: u32) -> (state: Option<SessionState>)
        ensures
            self@.wf(),
            state == if self@.sessions.contains_key(id) {
                Some(self@.sessions[id].state)
            } else {
                None
            },
    {
        proof {
            use_type_invariant(self);
        }
        match self.sessions.get(&id) {
            Some(session) => Some(session.state),
            None => None,
        }
    }

    /// Whether any registered session has not exited.
    pub fn has_active_sessions(&self) -> (active: bool)
        ensures
            self@.wf(),
            active == self@.has_active_sessions(),
    {
        proof {
            use_type_invariant(self);
            vstd::std_specs::hash::axiom_spec_hash_map_iter(&self.sessions);
        }
        let ghost pairs = vstd::std_specs::iter::IteratorSpec::remaining(
            &vstd::std_specs::hash::spec_hash_map_iter(&self.sessions),
        );
        for pair in it: self.sessions.iter()
            invariant
                self@.wf(),
                it.seq() == pairs,
                forall|j: int|
                    0 <= j < it.index() ==> (#[trigger] pairs[j]).1.state != SessionState::Running,
        {
            if pair.1.state == SessionState::Running {
                proof {
                    let found = pairs[it.index()];
                    assert(self.sessions@.contains_key(*found.0));
                }
                return true;
            }
        }
        proof {
            if self@.has_active_sessions() {
                let id = choose|id: u32| #[trigger]
                    self.sessions@.contains_key(id) && self.sessions@[id].state
                        == SessionState::Running;
                assert(pairs.contains((&id, &self.sessions@[id])));
                let j = choose|j: int|
                    0 <= j < pairs.len() && pairs[j] == (&id, &self.sessions@[id]);
                assert(pairs[j].1.state == SessionState::Running);
            }
        }
        false
    }
}

/// What the caller of a write or a resize is told, given how the host's
/// writing and flushing, or its resizing, went: a failure with `reason` is
/// reported as an `Io` failure with that description.
pub fn io_outcome(done: Result<(), String>) -> (reply: Result<(), PtyError>)
    ensures
        match done {
            Ok(_) => reply is Ok,
            Err(reason) => reply matches Err(e) && e@ == PtyErrorView::Io(reason@),
        },
{
    match done {
        Ok(_) => Ok(()),
        Err(reason) => Err(PtyError::Io(reason)),
    }
}

/// The first identifier is 1.
pub proof fn lemma_first_id<H>()
    ensures
        RegistryModel::<H>::empty().wf(),
        !RegistryModel::<H>::empty().exhausted(),
        RegistryModel::<H>::empty().next_id() == 1,
{
}

/// Identifiers are handed out in strictly increasing order, and so none
/// twice: the identifier of an earlier creation is less than that of a
/// later one.
pub proof fn lemma_ids_strictly_increase(earlier: nat, later: nat)
    requires
        earlier < later,
    ensures
        id_for(earlier) < id_for(later),
{
}

/// An identifier is never handed out again, whether its session is still
/// registered or has been closed: the identifier of a creation is greater
/// than every identifier handed out before, and no session is registered
/// under it. Once every identifier has been handed out, no session is
/// created any more.
pub proof fn lemma_next_id_is_new<H>(registry: RegistryModel<H>, handles: H, id: u32)
    requires
        registry.wf(),
    ensures
        registry.exhausted() ==> registry.create(handles) == registry,
        !registry.exhausted() ==> registry.next_id() == id_for(registry.issued),
        !registry.exhausted() ==> !registry.sessions.contains_key(registry.next_id()),
        !registry.exhausted() && 1 <= id <= registry.issued ==> id < registry.next_id(),
        id >= id_for(registry.issued) ==> !registry.sessions.contains_key(id),
{
}

/// Every command keeps the registry well formed, and only a creation hands
/// out an identifier.
pub proof fn lemma_commands_keep_wf<H>(registry: RegistryModel<H>, handles: H, id: u32)
    requires
        registry.wf(),
    ensures
        registry.create(handles).wf(),
        registry.record_exit(id).wf(),
        registry.close(id).wf(),
        registry.close_all().wf(),
        registry.create(handles).issued == if registry.exhausted() {
            registry.issued
        } else {
            registry.issued + 1
        },
        registry.record_exit(id).issued == registry.issued,
        registry.close(id).issued == registry.issued,
        registry.close_all().issued == registry.issued,
{
}

/// After a session has been closed, a write to it and a resize of it are
/// answered with `NotFound`.
pub proof fn lemma_closed_is_not_found<H>(
    registry: RegistryModel<H>,
    id: u32,
    data: Seq<char>,
    rows: u16,
    cols: u16,
)
    ensures
        registry.close(id).write(id, data) == Err::<(H, Seq<u8>), PtyErrorView>(
            PtyErrorView::NotFound,
        ),
        registry.close(id).resize(id, rows, cols) == Err::<(H, TerminalSize), PtyErrorView>(
            PtyErrorView::NotFound,
        ),
{
}

/// Closing an identifier under which no session is registered, because none
/// was ever created under it or because it has been closed before, changes
/// nothing; so closing twice is closing once.
pub proof fn lemma_close_is_idempotent<H>(registry: RegistryModel<H>, id: u32)
    ensures
        !registry.sessions.contains_key(id) ==> registry.close(id) == registry,
        registry.close(id).close(id) == registry.close(id),
{
    if !registry.sessions.contains_key(id) {
        assert(registry.close(id) =~= registry);
    }
    assert(registry.close(id).close(id) =~= registry.close(id));
}

/// Right after a session has been created, some session is active.
pub proof fn lemma_active_after_create<H>(registry: RegistryModel<H>, handles: H)
    requires
        !registry.exhausted(),
    ensures
        registry.create(handles).has_active_sessions(),
{
    assert(registry.create(handles).sessions.contains_key(registry.next_id()));
}

/// Once the exit of every registered session has been recorded, no session
/// is active, though each of them stays registered until it is closed.
pub proof fn lemma_inactive_when_all_exited<H>(registry: RegistryModel<H>)
    requires
        forall|id: u32|
            registry.sessions.contains_key(id) ==> registry.sessions[id].state
                == SessionState::Exited,
    ensures
        !registry.has_active_sessions(),
{
}

/// Recording the exit of a session leaves it registered with its handles, as
/// exited, and leaves every other session as it was.
pub proof fn lemma_exit_keeps_registered<H>(registry: RegistryModel<H>, id: u32, other: u32)
    requires
        registry.sessions.contains_key(id),
    ensures
        registry.record_exit(id).sessions.dom() == registry.sessions.dom(),
        registry.record_exit(id).sessions[id].state == SessionState::Exited,
        registry.record_exit(id).sessions[id].handles == registry.sessions[id].handles,
        other != id && registry.sessions.contains_key(other) ==> registry.record_exit(
            id,
        ).sessions[other] == registry.sessions[other],
{
    assert(registry.record_exit(id).sessions.dom() =~= registry.sessions.dom());
}

/// Once the reader loop of a session has seen the end of its output and the
/// events of the loop have been published, the session is on record as
/// exited, whether the stream ended by an empty read or by a failure. It
/// stays registered, and no other session is touched.
pub proof fn lemma_ended_stream_is_recorded<H>(
    registry: RegistryModel<H>,
    id: u32,
    outcomes: Seq<ReadOutcomeView>,
)
    requires
        chunks_before_end(outcomes) < outcomes.len(),
    ensures
        registry.observe_all(published(id, false, outcomes)) == registry.record_exit(id),
{
    lemma_published_in_order(id, outcomes);
    let events = published(id, false, outcomes);
    lemma_outputs_change_nothing(registry, events, chunks_before_end(outcomes) as int);
    let last = events.skip(chunks_before_end(outcomes) as int);
    assert(last.len() == 1);
    assert(last[0] == (PtyEventView::Exit { id }));
    assert(last.skip(1).len() == 0);
    assert(registry.observe_all(last.skip(1)) == registry);
    assert(registry.record_exit(id).observe_all(last.skip(1)) == registry.record_exit(id));
}

/// Output events in front of the rest of the events change nothing.
proof fn lemma_outputs_change_nothing<H>(
    registry: RegistryModel<H>,
    events: Seq<PtyEventView>,
    outputs: int,
)
    requires
        0 <= outputs <= events.len(),
        forall|i: int| 0 <= i < outputs ==> (#[trigger] events[i]) is Output,
    ensures
        registry.observe_all(events) == registry.observe_all(events.skip(outputs)),
    decreases outputs,
{
    if outputs == 0 {
        assert(events.skip(0) =~= events);
    } else {
        assert(events[0] is Output);
        let rest = events.skip(1);
        assert forall|i: int| 0 <= i < outputs - 1 implies (#[trigger] rest[i]) is Output by {
            assert(rest[i] == events[i + 1]);
        }
        lemma_outputs_change_nothing(registry, rest, outputs - 1);
        assert(rest.skip(outputs - 1) =~= events.skip(outputs));
    }
}

/// A session stays registered, with its handles, from its creation until it
/// is closed: the end of its process does not remove it, and neither does a
/// creation nor the close of another session.
pub proof fn lemma_registered_until_closed<H>(
    registry: RegistryModel<H>,
    id: u32,
    handles: H,
    other: u32,
    event: PtyEventView,
)
    requires
        registry.wf(),
        registry.sessions.contains_key(id),
    ensures
        registry.create(handles).sessions.contains_key(id),
        registry.create(handles).sessions[id] == registry.sessions[id],
        registry.record_exit(other).sessions.contains_key(id),
        registry.record_exit(other).sessions[id].handles == registry.sessions[id].handles,
        registry.observe(event).sessions.contains_key(id),
        registry.observe(event).sessions[id].handles == registry.sessions[id].handles,
        other != id ==> registry.close(other).sessions.contains_key(id),
        other != id ==> registry.close(other).sessions[id] == registry.sessions[id],
{
}

/// A session that has exited never runs again: no command makes a session
/// that is registered as exited a running one.
pub proof fn lemma_exit_is_final<H>(
    registry: RegistryModel<H>,
    id: u32,
    handles: H,
    other: u32,
    event: PtyEventView,
)
    requires
        registry.wf(),
        registry.sessions.contains_key(id),
        registry.sessions[id].state == SessionState::Exited,
    ensures
        registry.create(handles).sessions[id] == registry.sessions[id],
        registry.record_exit(other).sessions[id] == registry.sessions[id],
        registry.observe(event).sessions[id] == registry.sessions[id],
        other != id ==> registry.close(other).sessions[id] == registry.sessions[id],
{
}

} // verus!
