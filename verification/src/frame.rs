//! The protocol envelope.
use bytes::Bytes;
use vstd::prelude::*;

use crate::ids::{FrameSeq, LeaseEpoch, SessionId, StreamId};
use crate::payload::{bytes_as_slice, bytes_view};
use crate::telemetry::TraceContext;

verus! {

/// A frame: routing identifiers, a kind (data carrying a payload, or a
/// control event), an optional token count and an optional trace context.
#[derive(Clone, Debug, Eq, PartialEq)]
pub struct Frame {
    session_id: SessionId,
    stream_id: StreamId,
    seq: FrameSeq,
    lease_epoch: LeaseEpoch,
    kind: FrameKind,
    token_count: Option<u64>,
    trace_context: Option<TraceContext>,
}

#[derive(Clone, Debug, Eq, PartialEq)]
pub enum FrameKind {
    Data(Bytes),
    Cancel,
    Open,
    End,
    Ping,
}

/// What a frame kind is: the data payload's bytes, or a control event.
pub enum KindView {
    Data(Seq<u8>),
    Cancel,
    Open,
    End,
    Ping,
}

impl View for FrameKind {
    type V = KindView;

    open spec fn view(&self) -> KindView {
        match self {
            FrameKind::Data(b) => KindView::Data(bytes_view(*b)),
            FrameKind::Cancel => KindView::Cancel,
            FrameKind::Open => KindView::Open,
            FrameKind::End => KindView::End,
            FrameKind::Ping => KindView::Ping,
        }
    }
}

/// What a frame is, as plain values.
pub struct FrameView {
    pub session_id: u128,
    pub stream_id: u64,
    pub seq: u64,
    pub lease_epoch: u64,
    pub kind: KindView,
    pub token_count: Option<u64>,
    pub trace_context: Option<Seq<char>>,
}

/// The payload a frame kind carries: the data bytes, or nothing.
pub open spec fn payload_of(kind: KindView) -> Seq<u8> {
    match kind {
        KindView::Data(p) => p,
        _ => Seq::empty(),
    }
}

/// The `traceparent` text of an optional trace context.
pub open spec fn trace_view(t: Option<TraceContext>) -> Option<Seq<char>> {
    match t {
        Some(c) => Some(c@),
        None => None,
    }
}

impl View for Frame {
    type V = FrameView;

    closed spec fn view(&self) -> FrameView {
        FrameView {
            session_id: self.session_id@,
            stream_id: self.stream_id@,
            seq: self.seq@,
            lease_epoch: self.lease_epoch@,
            kind: self.kind@,
            token_count: self.token_count,
            trace_context: trace_view(self.trace_context),
        }
    }
}

impl Frame {
    /// The trace context this frame carries.
    pub closed spec fn trace_value(&self) -> Option<TraceContext> {
        self.trace_context
    }

    /// The trace context a frame carries is the one its view describes.
    pub proof fn lemma_trace_value_view(&self)
        ensures
            trace_view(self.trace_value()) == self@.trace_context,
    {
    }

    /// A data frame carrying `payload`, with no token count and no trace.
    pub fn data(
        session_id: SessionId,
        stream_id: StreamId,
        seq: FrameSeq,
        lease_epoch: LeaseEpoch,
        payload: Bytes,
    ) -> (f: Self)
        ensures
            f@ == (FrameView {
                session_id: session_id@,
                stream_id: stream_id@,
                seq: seq@,
                lease_epoch: lease_epoch@,
                kind: KindView::Data(bytes_view(payload)),
                token_count: None,
                trace_context: None,
            }),
            f.trace_value() is None,
    {
        Frame {
            session_id,
            stream_id,
            seq,
            lease_epoch,
            kind: FrameKind::Data(payload),
            token_count: None,
            trace_context: None,
        }
    }

    /// A data frame carrying `payload` and the number of tokens it holds.
    pub fn data_with_tokens(
        session_id: SessionId,
        stream_id: StreamId,
        seq: FrameSeq,
        lease_epoch: LeaseEpoch,
        payload: Bytes,
        token_count: u64,
    ) -> (f: Self)
        ensures
            f@ == (FrameView {
                session_id: session_id@,
                stream_id: stream_id@,
                seq: seq@,
                lease_epoch: lease_epoch@,
                kind: KindView::Data(bytes_view(payload)),
                token_count: Some(token_count),
                trace_context: None,
            }),
            f.trace_value() is None,
    {
        Frame {
            session_id,
            stream_id,
            seq,
            lease_epoch,
            kind: FrameKind::Data(payload),
            token_count: Some(token_count),
            trace_context: None,
        }
    }

    /// A frame of the given kind, with no token count and no trace.
    pub fn control(
        session_id: SessionId,
        stream_id: StreamId,
        seq: FrameSeq,
        lease_epoch: LeaseEpoch,
        kind: FrameKind,
    ) -> (f: Self)
        ensures
            f@ == (FrameView {
                session_id: session_id@,
                stream_id: stream_id@,
                seq: seq@,
                lease_epoch: lease_epoch@,
                kind: kind@,
                token_count: None,
                trace_context: None,
            }),
            f.trace_value() is None,
    {
        Frame { session_id, stream_id, seq, lease_epoch, kind, token_count: None, trace_context: None }
    }

    /// The same frame, carrying `trace_context`.
    pub fn with_trace_context(self, trace_context: TraceContext) -> (f: Self)
        ensures
            f@ == (FrameView { trace_context: Some(trace_context@), ..self@ }),
            f.trace_value() == Some(trace_context),
    {
        Frame { trace_context: Some(trace_context), ..self }
    }

    pub fn session_id(&self) -> (id: SessionId)
        ensures
            id@ == self@.session_id,
    {
        self.session_id
    }

    pub fn stream_id(&self) -> (id: StreamId)
        ensures
            id@ == self@.stream_id,
    {
        self.stream_id
    }

    pub fn seq(&self) -> (s: FrameSeq)
        ensures
            s@ == self@.seq,
    {
        self.seq
    }

    pub fn lease_epoch(&self) -> (e: LeaseEpoch)
        ensures
            e@ == self@.lease_epoch,
    {
        self.lease_epoch
    }

    pub fn kind(&self) -> (k: &FrameKind)
        ensures
            k@ == self@.kind,
    {
        &self.kind
    }

    pub fn token_count(&self) -> (t: Option<u64>)
        ensures
            t == self@.token_count,
    {
        self.token_count
    }

    pub fn trace_context(&self) -> (t: Option<&TraceContext>)
        ensures
            match t {
                Some(c) => self@.trace_context == Some(c@) && self.trace_value() == Some(*c),
                None => self@.trace_context is None && self.trace_value() is None,
            },
    {
        match &self.trace_context {
            Some(c) => Some(c),
            None => None,
        }
    }

    /// The data payload, or `None` for a control frame.
    pub fn payload(&self) -> (p: Option<Bytes>)
        ensures
            match p {
                Some(b) => self@.kind == KindView::Data(bytes_view(b)),
                None => !(self@.kind is Data),
            },
    {
        match &self.kind {
            FrameKind::Data(payload) => Some(payload.clone()),
            _ => None,
        }
    }

    /// The number of payload bytes; zero for a control frame.
    pub fn payload_len(&self) -> (n: usize)
        ensures
            n == payload_of(self@.kind).len(),
    {
        match &self.kind {
            FrameKind::Data(payload) => bytes_as_slice(payload).len(),
            _ => 0,
        }
    }
}

} // verus!
