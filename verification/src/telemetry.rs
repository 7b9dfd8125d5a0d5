//! Trace context carried on frames, and the span hooks the router calls after
//! a frame has been routed.
use vstd::prelude::*;

use crate::ids::{FrameSeq, LeaseEpoch, SessionId, StreamId};

verus! {

/// A W3C `traceparent` value carried on a frame.
#[derive(Clone, Debug, Eq, PartialEq)]
pub struct TraceContext {
    traceparent: String,
}

impl View for TraceContext {
    type V = Seq<char>;

    closed spec fn view(&self) -> Seq<char> {
        self.traceparent@
    }
}

impl TraceContext {
    pub fn new(traceparent: &str) -> (t: Self)
        ensures
            t@ == traceparent@,
    {
        TraceContext { traceparent: traceparent.to_owned() }
    }

    pub(crate) fn from_string(traceparent: String) -> (t: Self)
        ensures
            t@ == traceparent@,
    {
        TraceContext { traceparent }
    }

    pub fn traceparent(&self) -> (s: &str)
        ensures
            s@ == self@,
    {
        self.traceparent.as_str()
    }

    /// Whether both carry the same `traceparent`.
    pub fn same_as(&self, other: &TraceContext) -> (r: bool)
        ensures
            r == (self@ == other@),
    {
        self.traceparent == other.traceparent
    }

    /// A second trace context equal to this one.
    pub fn copied(&self) -> (t: Self)
        ensures
            t == *self,
    {
        TraceContext { traceparent: self.traceparent.clone() }
    }
}

/// Receives one span per successfully routed frame.
pub trait FrameTracer {
    /// `after` is a state this tracer may be in once it has recorded `span`
    /// in this state.
    spec fn records_span(&self, span: FrameSpan, after: &Self) -> bool;

    fn record_span(&mut self, span: FrameSpan)
        ensures
            old(self).records_span(span, final(self)),
    ;
}

/// A span describing how a frame was routed.
#[derive(Clone, Debug, Eq, PartialEq)]
pub struct FrameSpan {
    pub name: &'static str,
    pub trace_context: Option<TraceContext>,
    pub session_id: SessionId,
    pub stream_id: StreamId,
    pub seq: FrameSeq,
    pub lease_epoch: LeaseEpoch,
    pub worker_id: String,
    pub device_ordinal: u32,
    pub model_id: String,
    pub payload_bytes: u64,
    pub tokens: u64,
}

/// A tracer that discards every span.
#[derive(Clone, Debug, Default)]
pub struct NoopFrameTracer;

impl FrameTracer for NoopFrameTracer {
    open spec fn records_span(&self, span: FrameSpan, after: &Self) -> bool {
        *after == *self
    }

    fn record_span(&mut self, span: FrameSpan) {
    }
}

/// A tracer that keeps every span in memory, in the order recorded.
#[derive(Clone, Debug)]
pub struct InMemoryFrameTracer {
    spans: Vec<FrameSpan>,
}

impl Default for InMemoryFrameTracer {
    fn default() -> (t: Self)
        ensures
            t.recorded() == Seq::<FrameSpan>::empty(),
    {
        InMemoryFrameTracer { spans: Vec::new() }
    }
}

impl InMemoryFrameTracer {
    /// The recorded spans, oldest first.
    pub closed spec fn recorded(&self) -> Seq<FrameSpan> {
        self.spans@
    }

    pub fn new() -> (t: Self)
        ensures
            t.recorded() == Seq::<FrameSpan>::empty(),
    {
        InMemoryFrameTracer { spans: Vec::new() }
    }

    pub fn spans(&self) -> (s: &[FrameSpan])
        ensures
            s@ == self.recorded(),
    {
        self.spans.as_slice()
    }
}

impl FrameTracer for InMemoryFrameTracer {
    open spec fn records_span(&self, span: FrameSpan, after: &Self) -> bool {
        after.recorded() == self.recorded().push(span)
    }

    fn record_span(&mut self, span: FrameSpan) {
        self.spans.push(span);
    }
}

/// Recording a span in an in-memory tracer appends it: afterwards the
/// tracer holds one more span, the spans recorded before come first, in
/// the same order, and the new span comes last.
pub proof fn lemma_recording_appends_span(
    tracer: InMemoryFrameTracer,
    span: FrameSpan,
    after: InMemoryFrameTracer,
)
    requires
        tracer.records_span(span, &after),
    ensures
        after.recorded().len() == tracer.recorded().len() + 1,
        after.recorded().take(tracer.recorded().len() as int) == tracer.recorded(),
        after.recorded().last() == span,
{
    assert(after.recorded().take(tracer.recorded().len() as int) =~= tracer.recorded());
}

} // verus!
