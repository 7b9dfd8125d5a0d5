//! Session state: affinity, reconnects, lease refreshes and per-stream
//! sequence cursors.
use std::collections::HashMap;
use vstd::prelude::*;

use crate::error::SessionRpcError;
use crate::frame::{Frame, FrameView};
use crate::gpu::GpuLease;
use crate::ids::{ClientId, FrameSeq, LeaseEpoch, SessionId, StreamId};
use crate::keyset::map_keys;

verus! {

broadcast use vstd::std_specs::hash::group_hash_axioms;

/// The live sessions, keyed by session id.
#[derive(Debug)]
pub struct SessionRegistry {
    sessions: HashMap<u128, SessionState>,
}

#[derive(Clone, Debug, Eq, PartialEq)]
pub struct OpenedSession {
    pub session_id: SessionId,
    pub client_id: ClientId,
    pub lease: GpuLease,
    pub lease_epoch: LeaseEpoch,
}

#[derive(Clone, Debug, Eq, PartialEq)]
pub struct ResumedSession {
    pub session_id: SessionId,
    pub client_id: ClientId,
    pub lease: GpuLease,
    pub lease_epoch: LeaseEpoch,
    /// The next expected sequence number of every stream the session has
    /// seen, keyed by stream id.
    pub inbound_cursors: HashMap<u64, FrameSeq>,
}

#[derive(Clone, Debug, Eq, PartialEq)]
pub struct AcceptedFrame {
    pub session_id: SessionId,
    pub stream_id: StreamId,
    pub next_inbound_seq: FrameSeq,
    pub lease: GpuLease,
}

/// One session as the registry holds it, for routing projections.
#[derive(Clone, Debug, Eq, PartialEq)]
pub struct SessionSnapshot {
    pub session_id: SessionId,
    pub client_id: ClientId,
    pub lease: GpuLease,
    pub lease_epoch: LeaseEpoch,
}

#[derive(Debug)]
struct SessionState {
    client_id: ClientId,
    lease: GpuLease,
    inbound_cursors: HashMap<u64, FrameSeq>,
}

/// A session: the client bound to it, its lease, and the next expected
/// inbound sequence number of every stream it has seen, keyed by stream id.
pub struct SessionView {
    pub client_id: ClientId,
    pub lease: GpuLease,
    pub cursors: Map<u64, FrameSeq>,
}

spec fn state_view(s: SessionState) -> SessionView {
    SessionView { client_id: s.client_id, lease: s.lease, cursors: s.inbound_cursors@ }
}

impl View for SessionRegistry {
    type V = Map<u128, SessionView>;

    closed spec fn view(&self) -> Map<u128, SessionView> {
        self.sessions@.map_values(|s: SessionState| state_view(s))
    }
}

/// The snapshot of session `id` in state `s`.
pub open spec fn snapshot_of(id: u128, s: SessionView) -> SessionSnapshot {
    SessionSnapshot { session_id: SessionId(id), client_id: s.client_id, lease: s.lease, lease_epoch: s.lease.epoch }
}

/// The next sequence number expected on `stream`: zero for a stream not
/// seen yet.
pub open spec fn cursor_of(cursors: Map<u64, FrameSeq>, stream: u64) -> FrameSeq {
    if cursors.contains_key(stream) {
        cursors[stream]
    } else {
        FrameSeq(0)
    }
}

/// Accepting `f` would move a stream's cursor past `u64::MAX`.
pub open spec fn accept_overflows(reg: Map<u128, SessionView>, f: FrameView) -> bool {
    &&& reg.contains_key(f.session_id)
    &&& reg[f.session_id].lease.epoch.0 == f.lease_epoch
    &&& cursor_of(reg[f.session_id].cursors, f.stream_id).0 == u64::MAX
    &&& f.seq == u64::MAX
}

/// Validating an inbound frame against the registry: an unknown session, a
/// lease epoch other than the session's current one, or a sequence number
/// other than the stream's cursor is refused; an accepted frame advances
/// its stream's cursor by one.  The stream's cursor is recorded once the
/// epoch check passes, whatever the sequence number.
pub open spec fn accept_outcome(reg: Map<u128, SessionView>, f: FrameView) -> (
    Map<u128, SessionView>,
    Result<AcceptedFrame, SessionRpcError>,
) {
    if !reg.contains_key(f.session_id) {
        (reg, Err(SessionRpcError::UnknownSession(SessionId(f.session_id))))
    } else {
        let s = reg[f.session_id];
        if f.lease_epoch != s.lease.epoch.0 {
            (
                reg,
                Err(
                    SessionRpcError::StaleLeaseEpoch {
                        expected: s.lease.epoch,
                        actual: LeaseEpoch(f.lease_epoch),
                    },
                ),
            )
        } else {
            let expected = cursor_of(s.cursors, f.stream_id);
            if f.seq != expected.0 {
                (
                    reg.insert(
                        f.session_id,
                        SessionView { cursors: s.cursors.insert(f.stream_id, expected), ..s },
                    ),
                    Err(
                        SessionRpcError::OutOfOrderFrame {
                            stream_id: StreamId(f.stream_id),
                            expected,
                            actual: FrameSeq(f.seq),
                        },
                    ),
                )
            } else {
                let next = FrameSeq((expected.0 + 1) as u64);
                (
                    reg.insert(
                        f.session_id,
                        SessionView { cursors: s.cursors.insert(f.stream_id, next), ..s },
                    ),
                    Ok(
                        AcceptedFrame {
                            session_id: SessionId(f.session_id),
                            stream_id: StreamId(f.stream_id),
                            next_inbound_seq: next,
                            lease: s.lease,
                        },
                    ),
                )
            }
        }
    }
}

/// An accepted frame moves its stream's cursor to the frame's sequence
/// number plus one; nothing else changes.
pub proof fn lemma_accept_advances_cursor(reg: Map<u128, SessionView>, f: FrameView)
    requires
        accept_outcome(reg, f).1 is Ok,
        !accept_overflows(reg, f),
    ensures
        ({
            let after = accept_outcome(reg, f).0;
            &&& after.dom() == reg.dom()
            &&& cursor_of(after[f.session_id].cursors, f.stream_id).0 == f.seq + 1
            &&& after[f.session_id].lease == reg[f.session_id].lease
            &&& after[f.session_id].client_id == reg[f.session_id].client_id
        }),
{
    assert(accept_outcome(reg, f).0.dom() =~= reg.dom());
}

/// A frame is accepted exactly when its session is live, it carries the
/// session's current lease epoch, and its sequence number is the stream's
/// cursor.
pub proof fn lemma_accept_succeeds_iff_in_order(reg: Map<u128, SessionView>, f: FrameView)
    ensures
        accept_outcome(reg, f).1 is Ok <==> {
            &&& reg.contains_key(f.session_id)
            &&& reg[f.session_id].lease.epoch.0 == f.lease_epoch
            &&& cursor_of(reg[f.session_id].cursors, f.stream_id).0 == f.seq
        },
{
}

/// Frames carrying a lease epoch other than the session's current one are
/// refused with `StaleLeaseEpoch`, naming both epochs, and change nothing.
pub proof fn lemma_stale_epoch_rejected(reg: Map<u128, SessionView>, f: FrameView)
    requires
        reg.contains_key(f.session_id),
        reg[f.session_id].lease.epoch.0 != f.lease_epoch,
    ensures
        accept_outcome(reg, f) == (
            reg,
            Err::<AcceptedFrame, SessionRpcError>(
                SessionRpcError::StaleLeaseEpoch {
                    expected: reg[f.session_id].lease.epoch,
                    actual: LeaseEpoch(f.lease_epoch),
                },
            ),
        ),
{
}

/// After a lease refresh to a lease with another epoch, frames carrying the
/// old epoch are refused.
pub proof fn lemma_refresh_rejects_old_epoch(
    reg: Map<u128, SessionView>,
    f: FrameView,
    lease: GpuLease,
)
    requires
        reg.contains_key(f.session_id),
        reg[f.session_id].lease.epoch.0 == f.lease_epoch,
        lease.epoch.0 != f.lease_epoch,
    ensures
        ({
            let refreshed = reg.insert(f.session_id, SessionView { lease, ..reg[f.session_id] });
            accept_outcome(refreshed, f).1 == Err::<AcceptedFrame, SessionRpcError>(
                SessionRpcError::StaleLeaseEpoch { expected: lease.epoch, actual: LeaseEpoch(f.lease_epoch) },
            )
        }),
{
}

/// A frame that was accepted is refused if it arrives again: the stream now
/// expects the following sequence number.
pub proof fn lemma_duplicate_frame_rejected(reg: Map<u128, SessionView>, f: FrameView)
    requires
        accept_outcome(reg, f).1 is Ok,
        !accept_overflows(reg, f),
    ensures
        accept_outcome(accept_outcome(reg, f).0, f).1 == Err::<AcceptedFrame, SessionRpcError>(
            SessionRpcError::OutOfOrderFrame {
                stream_id: StreamId(f.stream_id),
                expected: FrameSeq((f.seq + 1) as u64),
                actual: FrameSeq(f.seq),
            },
        ),
{
}

/// Validating a frame touches only its own session and stream: every other
/// stream cursor, and every session's client and lease, stay as they were.
pub proof fn lemma_accept_keeps_other_streams(
    reg: Map<u128, SessionView>,
    f: FrameView,
    session: u128,
    stream: u64,
)
    requires
        reg.contains_key(session),
        session != f.session_id || stream != f.stream_id,
    ensures
        ({
            let after = accept_outcome(reg, f).0;
            &&& after.contains_key(session)
            &&& cursor_of(after[session].cursors, stream) == cursor_of(reg[session].cursors, stream)
            &&& after[session].client_id == reg[session].client_id
            &&& after[session].lease == reg[session].lease
        }),
{
}

/// A refused frame changes no session's client, lease or cursors (the
/// stream's cursor may be recorded, with the value it already had).
pub proof fn lemma_rejected_frame_changes_nothing(
    reg: Map<u128, SessionView>,
    f: FrameView,
    session: u128,
    stream: u64,
)
    requires
        accept_outcome(reg, f).1 is Err,
        reg.contains_key(session),
    ensures
        ({
            let after = accept_outcome(reg, f).0;
            &&& after.dom() == reg.dom()
            &&& cursor_of(after[session].cursors, stream) == cursor_of(reg[session].cursors, stream)
            &&& after[session].client_id == reg[session].client_id
            &&& after[session].lease == reg[session].lease
        }),
{
    assert(accept_outcome(reg, f).0.dom() =~= reg.dom());
}

/// A stream a session has not seen yet expects sequence number 0, and a
/// stream it has seen expects the number recorded for it; so every stream
/// of a freshly opened session expects 0.
pub proof fn lemma_new_streams_expect_zero(cursors: Map<u64, FrameSeq>, stream: u64)
    ensures
        !cursors.contains_key(stream) ==> cursor_of(cursors, stream).0 == 0,
        cursors.contains_key(stream) ==> cursor_of(cursors, stream) == cursors[stream],
        cursor_of(Map::empty(), stream).0 == 0,
{
}

/// A frame of a live session, carrying its current lease epoch, whose
/// sequence number is not the one its stream expects is refused with
/// `OutOfOrderFrame`, naming the stream, the expected and the received
/// sequence numbers; the stream's expected number does not change.
pub proof fn lemma_out_of_order_rejected(reg: Map<u128, SessionView>, f: FrameView)
    requires
        reg.contains_key(f.session_id),
        reg[f.session_id].lease.epoch.0 == f.lease_epoch,
        cursor_of(reg[f.session_id].cursors, f.stream_id).0 != f.seq,
    ensures
        accept_outcome(reg, f).1 == Err::<AcceptedFrame, SessionRpcError>(
            SessionRpcError::OutOfOrderFrame {
                stream_id: StreamId(f.stream_id),
                expected: cursor_of(reg[f.session_id].cursors, f.stream_id),
                actual: FrameSeq(f.seq),
            },
        ),
        cursor_of(accept_outcome(reg, f).0[f.session_id].cursors, f.stream_id) == cursor_of(
            reg[f.session_id].cursors,
            f.stream_id,
        ),
{
}

/// The registry after validating the frames `fs` one after another.
pub open spec fn accept_all(reg: Map<u128, SessionView>, fs: Seq<FrameView>) -> Map<u128, SessionView>
    decreases fs.len(),
{
    if fs.len() == 0 {
        reg
    } else {
        accept_outcome(accept_all(reg, fs.drop_last()), fs.last()).0
    }
}

/// How many of the frames `fs`, validated one after another, were accepted
/// on stream `stream` of session `session`.
pub open spec fn accepted_count(reg: Map<u128, SessionView>, fs: Seq<FrameView>, session: u128, stream: u64) -> nat
    decreases fs.len(),
{
    if fs.len() == 0 {
        0
    } else {
        let f = fs.last();
        let before = accepted_count(reg, fs.drop_last(), session, stream);
        if f.session_id == session && f.stream_id == stream && accept_outcome(
            accept_all(reg, fs.drop_last()),
            f,
        ).1 is Ok {
            before + 1
        } else {
            before
        }
    }
}

/// A stream's cursor counts the frames accepted on it: after validating any
/// frames one after another, a live session's cursor on a stream has moved
/// forward by exactly the number of them that were accepted on that stream
/// (so a stream of a fresh session expects as many frames as it has
/// accepted), and no session appears or disappears.  Histories in which
/// some step would move a cursor past `u64::MAX` are left out.
pub proof fn lemma_cursor_counts_accepted_frames(
    reg: Map<u128, SessionView>,
    fs: Seq<FrameView>,
    session: u128,
    stream: u64,
)
    requires
        reg.contains_key(session),
        forall|i: int|
            0 <= i < fs.len() ==> !accept_overflows(#[trigger] accept_all(reg, fs.take(i)), fs[i]),
    ensures
        accept_all(reg, fs).dom() == reg.dom(),
        cursor_of(accept_all(reg, fs)[session].cursors, stream).0 == cursor_of(
            reg[session].cursors,
            stream,
        ).0 + accepted_count(reg, fs, session, stream),
    decreases fs.len(),
{
    if fs.len() > 0 {
        let rest = fs.drop_last();
        assert forall|i: int| 0 <= i < rest.len() implies !accept_overflows(
            #[trigger] accept_all(reg, rest.take(i)),
            rest[i],
        ) by {
            assert(rest.take(i) =~= fs.take(i));
            assert(rest[i] == fs[i]);
            assert(!accept_overflows(accept_all(reg, fs.take(i)), fs[i]));
        }
        lemma_cursor_counts_accepted_frames(reg, rest, session, stream);
        let prev = accept_all(reg, rest);
        let f = fs.last();
        assert(fs.take(fs.len() - 1) =~= rest);
        assert(!accept_overflows(accept_all(reg, fs.take(fs.len() - 1)), fs[fs.len() - 1]));
        if accept_outcome(prev, f).1 is Ok {
            lemma_accept_advances_cursor(prev, f);
            if f.session_id != session || f.stream_id != stream {
                lemma_accept_keeps_other_streams(prev, f, session, stream);
            }
        } else {
            lemma_rejected_frame_changes_nothing(prev, f, session, stream);
        }
    }
}

impl ResumedSession {
    /// The resumed session's stream cursors.
    pub open spec fn cursors(&self) -> Map<u64, FrameSeq> {
        self.inbound_cursors@
    }

    /// The next sequence number the session expects on `stream_id`.
    pub fn next_inbound_seq(&self, stream_id: StreamId) -> (s: FrameSeq)
        ensures
            s == cursor_of(self.cursors(), stream_id@),
    {
        match self.inbound_cursors.get(&stream_id.0) {
            Some(s) => *s,
            None => FrameSeq::new(0),
        }
    }
}

impl Default for SessionRegistry {
    fn default() -> (r: Self)
        ensures
            r@ == Map::<u128, SessionView>::empty(),
    {
        let r = SessionRegistry { sessions: HashMap::new() };
        assert(r@ =~= Map::<u128, SessionView>::empty());
        r
    }
}

impl ClientId {
    /// A second client id equal to this one.
    pub fn copied(&self) -> (c: Self)
        ensures
            c == *self,
    {
        ClientId(self.0.clone())
    }
}

impl SessionRegistry {
    proof fn lemma_view_insert(self, after: Self, id: u128, s: SessionState)
        requires
            after.sessions@ == self.sessions@.insert(id, s),
        ensures
            after@ == self@.insert(id, state_view(s)),
    {
        assert(after@ =~= self@.insert(id, state_view(s)));
    }

    /// Opens a session for `client_id` on `lease` under a fresh random id.
    pub fn open_session(&mut self, client_id: ClientId, lease: GpuLease) -> (o: OpenedSession)
        ensures
            o.client_id == client_id,
            o.lease == lease,
            o.lease_epoch == lease.epoch,
            final(self)@ == old(self)@.insert(
                o.session_id@,
                SessionView { client_id, lease, cursors: Map::empty() },
            ),
    {
        let session_id = SessionId::new();
        let opened = OpenedSession {
            session_id,
            client_id: client_id.copied(),
            lease: lease.copied(),
            lease_epoch: lease.epoch,
        };
        let state = SessionState { client_id, lease, inbound_cursors: HashMap::new() };
        let ghost before = *self;
        self.sessions.insert(session_id.0, state);
        proof {
            before.lemma_view_insert(*self, session_id.0, state);
            assert(state_view(state).cursors =~= Map::<u64, FrameSeq>::empty());
        }
        opened
    }

    /// Rebinds a session to a reconnecting client; its lease and stream
    /// cursors are kept.
    pub fn resume_session(&mut self, session_id: SessionId, client_id: ClientId) -> (r: Result<
        ResumedSession,
        SessionRpcError,
    >)
        ensures
            match r {
                Ok(res) => {
                    &&& old(self)@.contains_key(session_id@)
                    &&& final(self)@ == old(self)@.insert(
                        session_id@,
                        SessionView { client_id, ..old(self)@[session_id@] },
                    )
                    &&& res.session_id == session_id
                    &&& res.client_id == client_id
                    &&& res.lease == old(self)@[session_id@].lease
                    &&& res.lease_epoch == res.lease.epoch
                    &&& res.cursors() == old(self)@[session_id@].cursors
                },
                Err(e) => {
                    &&& !old(self)@.contains_key(session_id@)
                    &&& e == SessionRpcError::UnknownSession(session_id)
                    &&& final(self)@ == old(self)@
                },
            },
    {
        let ghost before = *self;
        let mut state = match self.sessions.remove(&session_id.0) {
            Some(s) => s,
            None => return Err(SessionRpcError::UnknownSession(session_id)),
        };
        state.client_id = client_id.copied();
        let resumed = ResumedSession {
            session_id,
            client_id,
            lease: state.lease.copied(),
            lease_epoch: state.lease.epoch,
            inbound_cursors: state.inbound_cursors.clone(),
        };
        self.sessions.insert(session_id.0, state);
        proof {
            assert(self.sessions@ =~= before.sessions@.insert(session_id.0, state));
            before.lemma_view_insert(*self, session_id.0, state);
        }
        Ok(resumed)
    }

    /// Moves a session onto `lease`; its client and stream cursors are kept.
    pub fn refresh_lease(&mut self, session_id: SessionId, lease: GpuLease) -> (r: Result<
        ResumedSession,
        SessionRpcError,
    >)
        ensures
            match r {
                Ok(res) => {
                    &&& old(self)@.contains_key(session_id@)
                    &&& final(self)@ == old(self)@.insert(
                        session_id@,
                        SessionView { lease, ..old(self)@[session_id@] },
                    )
                    &&& res.session_id == session_id
                    &&& res.client_id == old(self)@[session_id@].client_id
                    &&& res.lease == lease
                    &&& res.lease_epoch == lease.epoch
                    &&& res.cursors() == old(self)@[session_id@].cursors
                },
                Err(e) => {
                    &&& !old(self)@.contains_key(session_id@)
                    &&& e == SessionRpcError::UnknownSession(session_id)
                    &&& final(self)@ == old(self)@
                },
            },
    {
        let ghost before = *self;
        let mut state = match self.sessions.remove(&session_id.0) {
            Some(s) => s,
            None => return Err(SessionRpcError::UnknownSession(session_id)),
        };
        state.lease = lease;
        let resumed = ResumedSession {
            session_id,
            client_id: state.client_id.copied(),
            lease: state.lease.copied(),
            lease_epoch: state.lease.epoch,
            inbound_cursors: state.inbound_cursors.clone(),
        };
        self.sessions.insert(session_id.0, state);
        proof {
            assert(self.sessions@ =~= before.sessions@.insert(session_id.0, state));
            before.lemma_view_insert(*self, session_id.0, state);
        }
        Ok(resumed)
    }

    /// The current lease of a session.
    pub fn lease(&self, session_id: SessionId) -> (r: Result<GpuLease, SessionRpcError>)
        ensures
            match r {
                Ok(l) => self@.contains_key(session_id@) && l == self@[session_id@].lease,
                Err(e) => !self@.contains_key(session_id@) && e == SessionRpcError::UnknownSession(
                    session_id,
                ),
            },
    {
        match self.sessions.get(&session_id.0) {
            Some(state) => Ok(state.lease.copied()),
            None => Err(SessionRpcError::UnknownSession(session_id)),
        }
    }

    /// One snapshot per live session, in no particular order.
    pub fn snapshots(&self) -> (r: Vec<SessionSnapshot>)
        ensures
            r@.len() == self@.dom().len(),
            forall|i: int|
                #![trigger r@[i]]
                0 <= i < r@.len() ==> self@.contains_key(r@[i].session_id.0) && r@[i] == snapshot_of(
                    r@[i].session_id.0,
                    self@[r@[i].session_id.0],
                ),
            forall|i: int, j: int|
                #![trigger r@[i], r@[j]]
                0 <= i < j < r@.len() ==> r@[i].session_id != r@[j].session_id,
            forall|id: u128|
                #![trigger self@.contains_key(id)]
                self@.contains_key(id) ==> exists|i: int|
                    0 <= i < r@.len() && #[trigger] r@[i].session_id.0 == id,
    {
        let ids = map_keys(&self.sessions);
        let mut out: Vec<SessionSnapshot> = Vec::new();
        let mut i: usize = 0;
        while i < ids.len()
            invariant
                i <= ids@.len(),
                ids@.to_set() == self.sessions@.dom(),
                out@.len() == i,
                forall|j: int|
                    #![trigger out@[j]]
                    0 <= j < i ==> out@[j].session_id.0 == ids@[j] && self@.contains_key(ids@[j])
                        && out@[j] == snapshot_of(ids@[j], self@[ids@[j]]),
            decreases ids@.len() - i,
        {
            let id = ids[i];
            proof {
                assert(ids@.to_set().contains(id));
            }
            match self.sessions.get(&id) {
                Some(state) => {
                    out.push(
                        SessionSnapshot {
                            session_id: SessionId(id),
                            client_id: state.client_id.copied(),
                            lease: state.lease.copied(),
                            lease_epoch: state.lease.epoch,
                        },
                    );
                },
                None => {},
            }
            i = i + 1;
        }
        proof {
            assert(self@.dom() =~= self.sessions@.dom());
            assert forall|a: int, b: int| 0 <= a < b < out@.len() implies out@[a].session_id
                != out@[b].session_id by {
                assert(ids@[a] != ids@[b]);
            }
            assert forall|id: u128| self@.contains_key(id) implies exists|k: int|
                0 <= k < out@.len() && #[trigger] out@[k].session_id.0 == id by {
                assert(ids@.to_set().contains(id));
                let k = choose|k: int| 0 <= k < ids@.len() && ids@[k] == id;
                assert(out@[k].session_id.0 == id);
            }
        }
        out
    }

    /// Validates an inbound frame against its session's lease epoch and its
    /// stream's sequence cursor.
    pub fn accept_frame(&mut self, frame: Frame) -> (r: Result<AcceptedFrame, SessionRpcError>)
        requires
            !accept_overflows(old(self)@, frame@),
        ensures
            (final(self)@, r) == accept_outcome(old(self)@, frame@),
    {
        let ghost before = *self;
        let session_id = frame.session_id();
        let mut state = match self.sessions.remove(&session_id.0) {
            Some(s) => s,
            None => return Err(SessionRpcError::UnknownSession(session_id)),
        };
        if frame.lease_epoch().0 != state.lease.epoch.0 {
            let expected = state.lease.epoch;
            self.sessions.insert(session_id.0, state);
            proof {
                assert(self.sessions@ =~= before.sessions@);
                assert(self@ =~= before@);
            }
            return Err(SessionRpcError::StaleLeaseEpoch { expected, actual: frame.lease_epoch() });
        }
        let stream_id = frame.stream_id();
        let expected = match state.inbound_cursors.get(&stream_id.0) {
            Some(c) => *c,
            None => FrameSeq::new(0),
        };
        if frame.seq().0 != expected.0 {
            state.inbound_cursors.insert(stream_id.0, expected);
            self.sessions.insert(session_id.0, state);
            proof {
                assert(self.sessions@ =~= before.sessions@.insert(session_id.0, state));
                before.lemma_view_insert(*self, session_id.0, state);
            }
            return Err(
                SessionRpcError::OutOfOrderFrame { stream_id, expected, actual: frame.seq() },
            );
        }
        let next = expected.next();
        state.inbound_cursors.insert(stream_id.0, next);
        let lease = state.lease.copied();
        self.sessions.insert(session_id.0, state);
        proof {
            assert(self.sessions@ =~= before.sessions@.insert(session_id.0, state));
            before.lemma_view_insert(*self, session_id.0, state);
        }
        Ok(AcceptedFrame { session_id, stream_id, next_inbound_seq: next, lease })
    }
}

} // verus!
