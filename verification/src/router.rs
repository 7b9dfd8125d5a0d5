//! The front door: placement, session lifecycle, flow control, validation,
//! metering and tracing for inbound frames.
use vstd::prelude::*;

use crate::error::SessionRpcError;
use crate::flow::{reserve_frame_outcome, FlowController, FlowView};
use crate::frame::{payload_of, Frame, FrameView};
use crate::gpu::GpuLease;
use crate::ids::{ClientId, FrameSeq, LeaseEpoch, SessionId, StreamId};
use crate::metering::{MeteringEvent, MeteringSink, NoopMeter};
use crate::scheduler::{GpuScheduler, PlacementRequest};
use crate::session::{
    accept_outcome, accept_overflows, AcceptedFrame, OpenedSession, ResumedSession, SessionRegistry,
    SessionView,
};
use crate::telemetry::{FrameSpan, FrameTracer, NoopFrameTracer};

verus! {

/// The name of the span recorded for every routed frame.
pub const ROUTE_SPAN_NAME: &'static str = "sessionrpc.frame.route";

/// The metering event for a frame that was routed as `accepted`.
pub open spec fn routed_event(f: FrameView, accepted: AcceptedFrame) -> MeteringEvent {
    MeteringEvent {
        session_id: SessionId(f.session_id),
        stream_id: StreamId(f.stream_id),
        seq: FrameSeq(f.seq),
        lease_epoch: LeaseEpoch(f.lease_epoch),
        worker_id: accepted.lease.worker_id,
        device_ordinal: accepted.lease.device_ordinal,
        model_id: accepted.lease.model_id,
        payload_bytes: payload_of(f.kind).len() as u64,
        tokens: match f.token_count {
            Some(n) => n,
            None => 0,
        },
        session_seconds: 0,
    }
}

/// The span recorded for frame `f` routed as `accepted`.
pub open spec fn routed_span(f: Frame, accepted: AcceptedFrame) -> FrameSpan {
    FrameSpan {
        name: ROUTE_SPAN_NAME,
        trace_context: f.trace_value(),
        session_id: SessionId(f@.session_id),
        stream_id: StreamId(f@.stream_id),
        seq: FrameSeq(f@.seq),
        lease_epoch: LeaseEpoch(f@.lease_epoch),
        worker_id: accepted.lease.worker_id,
        device_ordinal: accepted.lease.device_ordinal,
        model_id: accepted.lease.model_id,
        payload_bytes: payload_of(f@.kind).len() as u64,
        tokens: match f@.token_count {
            Some(n) => n,
            None => 0,
        },
    }
}

/// Routes sessions onto GPU leases from a scheduler and validates, meters
/// and traces their inbound frames.
#[derive(Debug)]
pub struct SessionRouter<S, M = NoopMeter, T = NoopFrameTracer> {
    scheduler: S,
    registry: SessionRegistry,
    flow: FlowController,
    meter: M,
    tracer: T,
}

impl<S, M, T> SessionRouter<S, M, T> {
    /// The live sessions.
    pub closed spec fn sessions(&self) -> Map<u128, SessionView> {
        self.registry@
    }

    /// The per-stream credit.
    pub closed spec fn credit(&self) -> FlowView {
        self.flow@
    }

    pub closed spec fn scheduler_state(&self) -> S {
        self.scheduler
    }

    pub closed spec fn meter_state(&self) -> M {
        self.meter
    }

    pub closed spec fn tracer_state(&self) -> T {
        self.tracer
    }
}

impl<S: GpuScheduler> SessionRouter<S, NoopMeter, NoopFrameTracer> {
    pub fn new(scheduler: S, default_stream_credit: usize) -> (r: Self)
        ensures
            r.scheduler_state() == scheduler,
            r.sessions() == Map::<u128, SessionView>::empty(),
            r.credit() == (FlowView {
                default_credit: default_stream_credit,
                credits: Map::<u64, usize>::empty(),
            }),
    {
        Self::with_meter_and_tracer(scheduler, default_stream_credit, NoopMeter, NoopFrameTracer)
    }

    pub fn with_meter<M: MeteringSink>(scheduler: S, default_stream_credit: usize, meter: M) -> (r:
        SessionRouter<S, M, NoopFrameTracer>)
        ensures
            r.scheduler_state() == scheduler,
            r.meter_state() == meter,
            r.sessions() == Map::<u128, SessionView>::empty(),
            r.credit() == (FlowView {
                default_credit: default_stream_credit,
                credits: Map::<u64, usize>::empty(),
            }),
    {
        SessionRouter::with_meter_and_tracer(scheduler, default_stream_credit, meter, NoopFrameTracer)
    }

    pub fn with_tracer<T: FrameTracer>(scheduler: S, default_stream_credit: usize, tracer: T) -> (r:
        SessionRouter<S, NoopMeter, T>)
        ensures
            r.scheduler_state() == scheduler,
            r.tracer_state() == tracer,
            r.sessions() == Map::<u128, SessionView>::empty(),
            r.credit() == (FlowView {
                default_credit: default_stream_credit,
                credits: Map::<u64, usize>::empty(),
            }),
    {
        SessionRouter::with_meter_and_tracer(scheduler, default_stream_credit, NoopMeter, tracer)
    }

    pub fn with_meter_and_tracer<M: MeteringSink, T: FrameTracer>(
        scheduler: S,
        default_stream_credit: usize,
        meter: M,
        tracer: T,
    ) -> (r: SessionRouter<S, M, T>)
        ensures
            r.scheduler_state() == scheduler,
            r.meter_state() == meter,
            r.tracer_state() == tracer,
            r.sessions() == Map::<u128, SessionView>::empty(),
            r.credit() == (FlowView {
                default_credit: default_stream_credit,
                credits: Map::<u64, usize>::empty(),
            }),
    {
        SessionRouter {
            scheduler,
            registry: SessionRegistry::default(),
            flow: FlowController::new(default_stream_credit),
            meter,
            tracer,
        }
    }
}

impl<S: GpuScheduler, M: MeteringSink, T: FrameTracer> SessionRouter<S, M, T> {
    /// Asks the scheduler for a placement and opens a session on the lease it
    /// grants; a refused placement is returned as it came.
    pub fn open(&mut self, client_id: ClientId, placement: PlacementRequest) -> (r: Result<
        OpenedSession,
        SessionRpcError,
    >)
        ensures
            old(self).scheduler_state().grants(
                placement,
                match r {
                    Ok(o) => Ok::<GpuLease, SessionRpcError>(o.lease),
                    Err(e) => Err::<GpuLease, SessionRpcError>(e),
                },
                &final(self).scheduler_state(),
            ),
            match r {
                Ok(o) => {
                    &&& o.client_id == client_id
                    &&& o.lease_epoch == o.lease.epoch
                    &&& final(self).sessions() == old(self).sessions().insert(
                        o.session_id@,
                        SessionView { client_id, lease: o.lease, cursors: Map::empty() },
                    )
                },
                Err(_) => final(self).sessions() == old(self).sessions(),
            },
            final(self).credit() == old(self).credit(),
            final(self).meter_state() == old(self).meter_state(),
            final(self).tracer_state() == old(self).tracer_state(),
    {
        let lease = match self.scheduler.allocate(&placement) {
            Ok(lease) => lease,
            Err(e) => return Err(e),
        };
        Ok(self.registry.open_session(client_id, lease))
    }

    /// Rebinds a session to a reconnecting client.
    pub fn resume(&mut self, session_id: SessionId, client_id: ClientId) -> (r: Result<
        ResumedSession,
        SessionRpcError,
    >)
        ensures
            match r {
                Ok(res) => {
                    &&& old(self).sessions().contains_key(session_id@)
                    &&& final(self).sessions() == old(self).sessions().insert(
                        session_id@,
                        SessionView { client_id, ..old(self).sessions()[session_id@] },
                    )
                    &&& res.session_id == session_id
                    &&& res.client_id == client_id
                    &&& res.lease == old(self).sessions()[session_id@].lease
                    &&& res.lease_epoch == res.lease.epoch
                    &&& res.cursors() == old(self).sessions()[session_id@].cursors
                },
                Err(e) => {
                    &&& !old(self).sessions().contains_key(session_id@)
                    &&& e == SessionRpcError::UnknownSession(session_id)
                    &&& final(self).sessions() == old(self).sessions()
                },
            },
            final(self).scheduler_state() == old(self).scheduler_state(),
            final(self).credit() == old(self).credit(),
            final(self).meter_state() == old(self).meter_state(),
            final(self).tracer_state() == old(self).tracer_state(),
    {
        self.registry.resume_session(session_id, client_id)
    }

    /// Asks the scheduler to refresh a session's current lease and moves the
    /// session onto the lease it grants, keeping its client and stream
    /// cursors; a refusal by the scheduler is returned as it came.
    pub fn refresh_lease(&mut self, session_id: SessionId) -> (r: Result<
        ResumedSession,
        SessionRpcError,
    >)
        ensures
            !old(self).sessions().contains_key(session_id@) ==> {
                &&& r == Err::<ResumedSession, SessionRpcError>(
                    SessionRpcError::UnknownSession(session_id),
                )
                &&& final(self).scheduler_state() == old(self).scheduler_state()
            },
            old(self).sessions().contains_key(session_id@) ==> old(
                self,
            ).scheduler_state().refreshes(
                session_id,
                old(self).sessions()[session_id@].lease,
                match r {
                    Ok(res) => Ok::<GpuLease, SessionRpcError>(res.lease),
                    Err(e) => Err::<GpuLease, SessionRpcError>(e),
                },
                &final(self).scheduler_state(),
            ),
            match r {
                Ok(res) => {
                    &&& old(self).sessions().contains_key(session_id@)
                    &&& final(self).sessions() == old(self).sessions().insert(
                        session_id@,
                        SessionView { lease: res.lease, ..old(self).sessions()[session_id@] },
                    )
                    &&& res.session_id == session_id
                    &&& res.client_id == old(self).sessions()[session_id@].client_id
                    &&& res.lease_epoch == res.lease.epoch
                    &&& res.cursors() == old(self).sessions()[session_id@].cursors
                },
                Err(_) => final(self).sessions() == old(self).sessions(),
            },
            final(self).credit() == old(self).credit(),
            final(self).meter_state() == old(self).meter_state(),
            final(self).tracer_state() == old(self).tracer_state(),
    {
        let current = match self.registry.lease(session_id) {
            Ok(l) => l,
            Err(e) => return Err(e),
        };
        let lease = match self.scheduler.refresh(session_id, &current) {
            Ok(l) => l,
            Err(e) => return Err(e),
        };
        self.registry.refresh_lease(session_id, lease)
    }

    /// Reserves the frame's credit, validates it against its session, and
    /// then meters and traces it.  A frame refused by flow control leaves
    /// the sessions as they were; a frame refused by the session keeps the
    /// credit it reserved; only an accepted frame is metered and traced.
    pub fn route_inbound(&mut self, frame: Frame) -> (r: Result<AcceptedFrame, SessionRpcError>)
        requires
            !accept_overflows(old(self).sessions(), frame@),
        ensures
            final(self).credit() == reserve_frame_outcome(old(self).credit(), frame@).0,
            final(self).scheduler_state() == old(self).scheduler_state(),
            match reserve_frame_outcome(old(self).credit(), frame@).1 {
                Err(e) => {
                    &&& r == Err::<AcceptedFrame, SessionRpcError>(e)
                    &&& final(self).sessions() == old(self).sessions()
                    &&& final(self).meter_state() == old(self).meter_state()
                    &&& final(self).tracer_state() == old(self).tracer_state()
                },
                Ok(_) => {
                    &&& (final(self).sessions(), r) == accept_outcome(old(self).sessions(), frame@)
                    &&& match r {
                        Ok(accepted) => {
                            &&& old(self).meter_state().records_frame(
                                routed_event(frame@, accepted),
                                &final(self).meter_state(),
                            )
                            &&& old(self).tracer_state().records_span(
                                routed_span(frame, accepted),
                                &final(self).tracer_state(),
                            )
                        },
                        Err(_) => {
                            &&& final(self).meter_state() == old(self).meter_state()
                            &&& final(self).tracer_state() == old(self).tracer_state()
                        },
                    }
                },
            },
    {
        let ghost f = frame;
        match self.flow.reserve_frame(&frame) {
            Ok(()) => {},
            Err(e) => return Err(e),
        }
        let payload_bytes = frame.payload_len() as u64;
        let tokens = match frame.token_count() {
            Some(n) => n,
            None => 0,
        };
        let session_id = frame.session_id();
        let stream_id = frame.stream_id();
        let seq = frame.seq();
        let lease_epoch = frame.lease_epoch();
        let trace_context = match frame.trace_context() {
            Some(t) => Some(t.copied()),
            None => None,
        };
        let accepted = match self.registry.accept_frame(frame) {
            Ok(a) => a,
            Err(e) => return Err(e),
        };
        self.meter.record_frame(
            MeteringEvent {
                session_id,
                stream_id,
                seq,
                lease_epoch,
                worker_id: accepted.lease.worker_id.clone(),
                device_ordinal: accepted.lease.device_ordinal,
                model_id: accepted.lease.model_id.clone(),
                payload_bytes,
                tokens,
                session_seconds: 0,
            },
        );
        let span = FrameSpan {
            name: ROUTE_SPAN_NAME,
            trace_context,
            session_id,
            stream_id,
            seq,
            lease_epoch,
            worker_id: accepted.lease.worker_id.clone(),
            device_ordinal: accepted.lease.device_ordinal,
            model_id: accepted.lease.model_id.clone(),
            payload_bytes,
            tokens,
        };
        assert(span == routed_span(f, accepted));
        self.tracer.record_span(span);
        Ok(accepted)
    }

    /// Gives `bytes` of credit back to `stream_id`.
    pub fn replenish(&mut self, stream_id: StreamId, bytes: usize)
        requires
            crate::flow::credit_of(old(self).credit(), stream_id@) + bytes <= usize::MAX,
        ensures
            final(self).credit() == crate::flow::replenish_outcome(old(self).credit(), stream_id@, bytes),
            final(self).sessions() == old(self).sessions(),
            final(self).scheduler_state() == old(self).scheduler_state(),
            final(self).meter_state() == old(self).meter_state(),
            final(self).tracer_state() == old(self).tracer_state(),
    {
        self.flow.replenish(stream_id, bytes);
    }

    pub fn meter(&self) -> (m: &M)
        ensures
            *m == self.meter_state(),
    {
        &self.meter
    }

    pub fn meter_mut(&mut self) -> (m: &mut M)
        ensures
            *m == old(self).meter_state(),
            final(self).meter_state() == *final(m),
            final(self).sessions() == old(self).sessions(),
            final(self).credit() == old(self).credit(),
            final(self).scheduler_state() == old(self).scheduler_state(),
            final(self).tracer_state() == old(self).tracer_state(),
    {
        &mut self.meter
    }

    pub fn tracer(&self) -> (t: &T)
        ensures
            *t == self.tracer_state(),
    {
        &self.tracer
    }

    pub fn tracer_mut(&mut self) -> (t: &mut T)
        ensures
            *t == old(self).tracer_state(),
            final(self).tracer_state() == *final(t),
            final(self).sessions() == old(self).sessions(),
            final(self).credit() == old(self).credit(),
            final(self).scheduler_state() == old(self).scheduler_state(),
            final(self).meter_state() == old(self).meter_state(),
    {
        &mut self.tracer
    }
}

/// The metering event of a routed frame bills the accepted lease's
/// placement: its worker id, GPU ordinal and model id are the lease's, its
/// session, stream, sequence number and lease epoch are the frame's, it
/// counts the frame's payload bytes and token count (zero when the frame
/// carries none), and no session seconds.
pub proof fn lemma_routed_event_bills_the_lease(f: FrameView, accepted: AcceptedFrame)
    requires
        payload_of(f.kind).len() <= u64::MAX,
    ensures
        ({
            let e = routed_event(f, accepted);
            &&& e.worker_id == accepted.lease.worker_id
            &&& e.device_ordinal == accepted.lease.device_ordinal
            &&& e.model_id == accepted.lease.model_id
            &&& e.session_id@ == f.session_id
            &&& e.stream_id@ == f.stream_id
            &&& e.seq@ == f.seq
            &&& e.lease_epoch@ == f.lease_epoch
            &&& e.payload_bytes == payload_of(f.kind).len()
            &&& (f.token_count matches Some(n) ==> e.tokens == n)
            &&& (f.token_count is None ==> e.tokens == 0)
            &&& e.session_seconds == 0
        }),
{
}

/// The span of a routed frame is named `sessionrpc.frame.route`, carries the
/// frame's trace context, session, stream, sequence number and lease epoch,
/// the accepted lease's worker id, GPU ordinal and model id, and the
/// frame's payload bytes and token count (zero when the frame carries none).
pub proof fn lemma_routed_span_describes_the_route(f: Frame, accepted: AcceptedFrame)
    requires
        payload_of(f@.kind).len() <= u64::MAX,
    ensures
        ({
            let span = routed_span(f, accepted);
            &&& span.name@ == "sessionrpc.frame.route"@
            &&& span.trace_context == f.trace_value()
            &&& span.worker_id == accepted.lease.worker_id
            &&& span.device_ordinal == accepted.lease.device_ordinal
            &&& span.model_id == accepted.lease.model_id
            &&& span.session_id@ == f@.session_id
            &&& span.stream_id@ == f@.stream_id
            &&& span.seq@ == f@.seq
            &&& span.lease_epoch@ == f@.lease_epoch
            &&& span.payload_bytes == payload_of(f@.kind).len()
            &&& (f@.token_count matches Some(n) ==> span.tokens == n)
            &&& (f@.token_count is None ==> span.tokens == 0)
        }),
{
    reveal_strlit("sessionrpc.frame.route");
}

} // verus!
