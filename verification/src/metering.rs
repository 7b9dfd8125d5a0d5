//! Protocol-layer metering hooks.
use vstd::prelude::*;

use crate::ids::{FrameSeq, LeaseEpoch, SessionId, StreamId};

verus! {

/// Receives one event per successfully routed frame.
pub trait MeteringSink {
    /// `after` is a state this sink may be in once it has recorded `event`
    /// in this state.
    spec fn records_frame(&self, event: MeteringEvent, after: &Self) -> bool;

    fn record_frame(&mut self, event: MeteringEvent)
        ensures
            old(self).records_frame(event, final(self)),
    ;
}

/// What a routed frame is billed for.
#[derive(Clone, Debug, Eq, PartialEq)]
pub struct MeteringEvent {
    pub session_id: SessionId,
    pub stream_id: StreamId,
    pub seq: FrameSeq,
    pub lease_epoch: LeaseEpoch,
    pub worker_id: String,
    pub device_ordinal: u32,
    pub model_id: String,
    pub payload_bytes: u64,
    pub tokens: u64,
    pub session_seconds: u64,
}

/// Totals over the recorded events.
#[derive(Clone, Debug, Eq, PartialEq)]
pub struct MeteringSnapshot {
    pub frames: u64,
    pub payload_bytes: u64,
    pub tokens: u64,
    pub session_seconds: u64,
}

/// A sink that discards every event.
#[derive(Clone, Debug, Default)]
pub struct NoopMeter;

impl MeteringSink for NoopMeter {
    open spec fn records_frame(&self, event: MeteringEvent, after: &Self) -> bool {
        *after == *self
    }

    fn record_frame(&mut self, event: MeteringEvent) {
    }
}

/// A sink that keeps every event in memory, in the order recorded.
#[derive(Clone, Debug)]
pub struct InMemoryMeter {
    events: Vec<MeteringEvent>,
}

impl Default for MeteringSnapshot {
    fn default() -> (s: Self)
        ensures
            s == (MeteringSnapshot { frames: 0, payload_bytes: 0, tokens: 0, session_seconds: 0 }),
    {
        MeteringSnapshot { frames: 0, payload_bytes: 0, tokens: 0, session_seconds: 0 }
    }
}

impl Default for InMemoryMeter {
    fn default() -> (m: Self)
        ensures
            m.recorded() == Seq::<MeteringEvent>::empty(),
    {
        InMemoryMeter { events: Vec::new() }
    }
}

/// Sum of the payload bytes of `events`.
pub open spec fn total_payload_bytes(events: Seq<MeteringEvent>) -> int
    decreases events.len(),
{
    if events.len() == 0 {
        0
    } else {
        total_payload_bytes(events.drop_last()) + events.last().payload_bytes
    }
}

/// Sum of the token counts of `events`.
pub open spec fn total_tokens(events: Seq<MeteringEvent>) -> int
    decreases events.len(),
{
    if events.len() == 0 {
        0
    } else {
        total_tokens(events.drop_last()) + events.last().tokens
    }
}

/// Sum of the session seconds of `events`.
pub open spec fn total_session_seconds(events: Seq<MeteringEvent>) -> int
    decreases events.len(),
{
    if events.len() == 0 {
        0
    } else {
        total_session_seconds(events.drop_last()) + events.last().session_seconds
    }
}

proof fn lemma_totals_grow(events: Seq<MeteringEvent>, i: int)
    requires
        0 <= i <= events.len(),
    ensures
        total_payload_bytes(events.take(i)) <= total_payload_bytes(events),
        total_tokens(events.take(i)) <= total_tokens(events),
        total_session_seconds(events.take(i)) <= total_session_seconds(events),
    decreases events.len(),
{
    if i < events.len() {
        assert(events.drop_last().take(i) =~= events.take(i));
        lemma_totals_grow(events.drop_last(), i);
    } else {
        assert(events.take(i) =~= events);
    }
}

impl InMemoryMeter {
    /// The recorded events, oldest first.
    pub closed spec fn recorded(&self) -> Seq<MeteringEvent> {
        self.events@
    }

    pub fn new() -> (m: Self)
        ensures
            m.recorded() == Seq::<MeteringEvent>::empty(),
    {
        InMemoryMeter { events: Vec::new() }
    }

    pub fn events(&self) -> (e: &[MeteringEvent])
        ensures
            e@ == self.recorded(),
    {
        self.events.as_slice()
    }

    /// Counts the recorded frames and sums their payload bytes, tokens and
    /// session seconds.
    pub fn snapshot(&self) -> (s: MeteringSnapshot)
        requires
            total_payload_bytes(self.recorded()) <= u64::MAX,
            total_tokens(self.recorded()) <= u64::MAX,
            total_session_seconds(self.recorded()) <= u64::MAX,
        ensures
            s == (MeteringSnapshot {
                frames: self.recorded().len() as u64,
                payload_bytes: total_payload_bytes(self.recorded()) as u64,
                tokens: total_tokens(self.recorded()) as u64,
                session_seconds: total_session_seconds(self.recorded()) as u64,
            }),
    {
        let mut snapshot = MeteringSnapshot { frames: 0, payload_bytes: 0, tokens: 0, session_seconds: 0 };
        let n = self.events.len();
        let mut i: usize = 0;
        while i < n
            invariant
                n == self.events@.len(),
                i <= n,
                total_payload_bytes(self.events@) <= u64::MAX,
                total_tokens(self.events@) <= u64::MAX,
                total_session_seconds(self.events@) <= u64::MAX,
                snapshot.frames == i,
                snapshot.payload_bytes == total_payload_bytes(self.events@.take(i as int)),
                snapshot.tokens == total_tokens(self.events@.take(i as int)),
                snapshot.session_seconds == total_session_seconds(self.events@.take(i as int)),
            decreases n - i,
        {
            let event = &self.events[i];
            proof {
                assert(self.events@.take(i + 1).drop_last() =~= self.events@.take(i as int));
                lemma_totals_grow(self.events@, i + 1);
            }
            snapshot.frames = snapshot.frames + 1;
            snapshot.payload_bytes = snapshot.payload_bytes + event.payload_bytes;
            snapshot.tokens = snapshot.tokens + event.tokens;
            snapshot.session_seconds = snapshot.session_seconds + event.session_seconds;
            i = i + 1;
        }
        assert(self.events@.take(n as int) =~= self.events@);
        snapshot
    }
}

/// Recording an event adds one frame and the event's payload bytes, tokens
/// and session seconds to the totals an in-memory meter reports, and keeps
/// the events recorded before it.
pub proof fn lemma_recording_adds_to_totals(
    meter: InMemoryMeter,
    event: MeteringEvent,
    after: InMemoryMeter,
)
    requires
        meter.records_frame(event, &after),
    ensures
        after.recorded().len() == meter.recorded().len() + 1,
        after.recorded().take(meter.recorded().len() as int) == meter.recorded(),
        after.recorded().last() == event,
        total_payload_bytes(after.recorded()) == total_payload_bytes(meter.recorded())
            + event.payload_bytes,
        total_tokens(after.recorded()) == total_tokens(meter.recorded()) + event.tokens,
        total_session_seconds(after.recorded()) == total_session_seconds(meter.recorded())
            + event.session_seconds,
{
    assert(after.recorded().drop_last() =~= meter.recorded());
    assert(after.recorded().take(meter.recorded().len() as int) =~= meter.recorded());
}

impl MeteringSink for InMemoryMeter {
    open spec fn records_frame(&self, event: MeteringEvent, after: &Self) -> bool {
        after.recorded() == self.recorded().push(event)
    }

    fn record_frame(&mut self, event: MeteringEvent) {
        self.events.push(event);
    }
}

} // verus!
