//! GPU-session-aware, bidirectional streaming RPC for stateful inference fleets.
//!
//! The library holds the protocol core: identifiers, frames, the binary wire
//! codec, per-stream flow control, the session registry, GPU placement, the
//! session router, metering and tracing hooks, and Kubernetes sticky routing.

pub mod error;
pub mod ffi;
pub mod flow;
pub mod frame;
pub mod gpu;
pub mod ids;
pub mod k8s;
mod keyset;
pub mod metering;
pub mod payload;
pub mod router;
pub mod scheduler;
pub mod session;
pub mod telemetry;
pub mod transport;
pub mod wire;

pub use error::SessionRpcError;
pub use ffi::{
    SessionRpcStatus, SESSIONRPC_FRAME_CANCEL, SESSIONRPC_FRAME_DATA, SESSIONRPC_FRAME_END,
    SESSIONRPC_FRAME_OPEN, SESSIONRPC_FRAME_PING,
};
pub use flow::FlowController;
pub use frame::{Frame, FrameKind};
pub use gpu::GpuLease;
pub use ids::{ClientId, FrameSeq, LeaseEpoch, SessionId, StreamId};
pub use k8s::{K8sRoutePolicy, StickyRouteDecision, StickyRouteTable};
pub use metering::{InMemoryMeter, MeteringEvent, MeteringSink, MeteringSnapshot, NoopMeter};
pub use router::SessionRouter;
pub use scheduler::{GpuScheduler, PlacementRequest, StaticGpuScheduler};
pub use session::{
    AcceptedFrame, OpenedSession, ResumedSession, SessionRegistry, SessionSnapshot,
};
pub use telemetry::{FrameSpan, FrameTracer, InMemoryFrameTracer, NoopFrameTracer, TraceContext};
pub use transport::{conformance_frames, same_frame};
pub use wire::FrameCodec;
