//! Per-stream byte credit.
use std::collections::HashMap;
use vstd::prelude::*;

use crate::error::SessionRpcError;
use crate::frame::{payload_of, Frame, FrameView};
use crate::ids::StreamId;

verus! {

broadcast use vstd::std_specs::hash::group_hash_axioms;

/// Tracks how many payload bytes each stream may still send.  A stream that
/// has not been seen yet has the default credit.
#[derive(Clone, Debug)]
pub struct FlowController {
    default_credit: usize,
    available: HashMap<u64, usize>,
}

/// A flow controller's state: the default credit, and the credit of every
/// stream it has touched, keyed by stream id.
pub struct FlowView {
    pub default_credit: usize,
    pub credits: Map<u64, usize>,
}

impl View for FlowController {
    type V = FlowView;

    closed spec fn view(&self) -> FlowView {
        FlowView { default_credit: self.default_credit, credits: self.available@ }
    }
}

/// The credit of `stream`.
pub open spec fn credit_of(v: FlowView, stream: u64) -> usize {
    if v.credits.contains_key(stream) {
        v.credits[stream]
    } else {
        v.default_credit
    }
}

/// Reserving `requested` bytes on `stream`: refused with
/// `InsufficientCredit` when the stream has less credit, else the credit
/// drops by `requested`.  Either way the stream's credit is recorded.
pub open spec fn reserve_outcome(v: FlowView, stream: u64, requested: usize) -> (
    FlowView,
    Result<(), SessionRpcError>,
) {
    let available = credit_of(v, stream);
    if requested > available {
        (
            FlowView { credits: v.credits.insert(stream, available), ..v },
            Err(
                SessionRpcError::InsufficientCredit {
                    stream_id: StreamId(stream),
                    requested,
                    available,
                },
            ),
        )
    } else {
        (FlowView { credits: v.credits.insert(stream, (available - requested) as usize), ..v }, Ok(()))
    }
}

/// Reserving credit for a frame: its payload bytes, and nothing for a frame
/// without payload bytes.
pub open spec fn reserve_frame_outcome(v: FlowView, frame: FrameView) -> (
    FlowView,
    Result<(), SessionRpcError>,
) {
    let requested = payload_of(frame.kind).len();
    if requested == 0 {
        (v, Ok(()))
    } else {
        reserve_outcome(v, frame.stream_id, requested as usize)
    }
}

/// Giving `bytes` of credit back to `stream`.
pub open spec fn replenish_outcome(v: FlowView, stream: u64, bytes: usize) -> FlowView {
    FlowView { credits: v.credits.insert(stream, (credit_of(v, stream) + bytes) as usize), ..v }
}

impl FlowController {
    pub fn new(default_credit: usize) -> (f: Self)
        ensures
            f@.default_credit == default_credit,
            f@.credits == Map::<u64, usize>::empty(),
    {
        FlowController { default_credit, available: HashMap::new() }
    }

    /// Reserves the credit a frame's payload needs.
    pub fn reserve_frame(&mut self, frame: &Frame) -> (r: Result<(), SessionRpcError>)
        ensures
            (final(self)@, r) == reserve_frame_outcome(old(self)@, frame@),
    {
        let requested = frame.payload_len();
        if requested == 0 {
            return Ok(());
        }
        self.reserve(frame.stream_id(), requested)
    }

    /// Reserves `requested` bytes of credit on `stream_id`.
    pub fn reserve(&mut self, stream_id: StreamId, requested: usize) -> (r: Result<(), SessionRpcError>)
        ensures
            (final(self)@, r) == reserve_outcome(old(self)@, stream_id@, requested),
    {
        let available = match self.available.get(&stream_id.0) {
            Some(a) => *a,
            None => self.default_credit,
        };
        if requested > available {
            self.available.insert(stream_id.0, available);
            return Err(SessionRpcError::InsufficientCredit { stream_id, requested, available });
        }
        self.available.insert(stream_id.0, available - requested);
        Ok(())
    }

    /// Gives `bytes` of credit back to `stream_id`.
    pub fn replenish(&mut self, stream_id: StreamId, bytes: usize)
        requires
            credit_of(old(self)@, stream_id@) + bytes <= usize::MAX,
        ensures
            final(self)@ == replenish_outcome(old(self)@, stream_id@, bytes),
            credit_of(final(self)@, stream_id@) == credit_of(old(self)@, stream_id@) + bytes,
    {
        let available = match self.available.get(&stream_id.0) {
            Some(a) => *a,
            None => self.default_credit,
        };
        self.available.insert(stream_id.0, available + bytes);
    }

    /// The credit `stream_id` has left.
    pub fn available(&self, stream_id: StreamId) -> (n: usize)
        ensures
            n == credit_of(self@, stream_id@),
    {
        match self.available.get(&stream_id.0) {
            Some(a) => *a,
            None => self.default_credit,
        }
    }
}

/// Credit is per stream: reserving on one stream, successful or not, leaves
/// every other stream's credit as it was.
pub proof fn lemma_reserve_keeps_other_streams(v: FlowView, stream: u64, requested: usize, other: u64)
    requires
        other != stream,
    ensures
        credit_of(reserve_outcome(v, stream, requested).0, other) == credit_of(v, other),
{
}

/// A reservation succeeds exactly when the stream has that much credit, and
/// then lowers the stream's credit by exactly that amount; a refused
/// reservation leaves the stream's credit as it was.
pub proof fn lemma_reserve_succeeds_iff_credit(v: FlowView, stream: u64, requested: usize)
    ensures
        reserve_outcome(v, stream, requested).1 is Ok <==> requested <= credit_of(v, stream),
        reserve_outcome(v, stream, requested).1 is Ok ==> credit_of(
            reserve_outcome(v, stream, requested).0,
            stream,
        ) == credit_of(v, stream) - requested,
        reserve_outcome(v, stream, requested).1 is Err ==> credit_of(
            reserve_outcome(v, stream, requested).0,
            stream,
        ) == credit_of(v, stream),
{
}

/// Replenishing what a successful reservation took restores the stream's
/// credit.
pub proof fn lemma_reserve_then_replenish_restores(v: FlowView, stream: u64, n: usize)
    requires
        reserve_outcome(v, stream, n).1 is Ok,
    ensures
        credit_of(replenish_outcome(reserve_outcome(v, stream, n).0, stream, n), stream) == credit_of(
            v,
            stream,
        ),
{
}

/// Frames without payload bytes (control frames among them) never consume
/// credit and are never refused.
pub proof fn lemma_empty_frames_are_free(v: FlowView, frame: FrameView)
    requires
        payload_of(frame.kind).len() == 0,
    ensures
        reserve_frame_outcome(v, frame) == (v, Ok::<(), SessionRpcError>(())),
{
}

/// Replenishing adds to whatever credit the stream has (the default credit
/// for a stream not seen yet): its credit afterwards is its credit before
/// plus the bytes given back, and every other stream's credit, and the
/// default credit, stay as they were.
pub proof fn lemma_replenish_adds_credit(v: FlowView, stream: u64, bytes: usize, other: u64)
    requires
        credit_of(v, stream) + bytes <= usize::MAX,
    ensures
        credit_of(replenish_outcome(v, stream, bytes), stream) == credit_of(v, stream) + bytes,
        other != stream ==> credit_of(replenish_outcome(v, stream, bytes), other) == credit_of(
            v,
            other,
        ),
        replenish_outcome(v, stream, bytes).default_credit == v.default_credit,
{
}

/// A stream that has not been touched has the default credit, and a stream
/// that has keeps the credit recorded for it; so a fresh controller gives
/// every stream the default credit.
pub proof fn lemma_untouched_streams_have_default_credit(v: FlowView, stream: u64)
    ensures
        !v.credits.contains_key(stream) ==> credit_of(v, stream) == v.default_credit,
        v.credits.contains_key(stream) ==> credit_of(v, stream) == v.credits[stream],
        credit_of(FlowView { default_credit: v.default_credit, credits: Map::empty() }, stream)
            == v.default_credit,
{
}

} // verus!
