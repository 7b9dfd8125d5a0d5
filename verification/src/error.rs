//! The error type shared by every fallible operation of the library.
use crate::ids::{FrameSeq, LeaseEpoch, SessionId, StreamId};
use vstd::prelude::*;

verus! {

/// Why an operation was refused.
#[derive(Clone, Debug, Eq, PartialEq)]
pub enum SessionRpcError {
    UnknownSession(SessionId),
    StaleLeaseEpoch { expected: LeaseEpoch, actual: LeaseEpoch },
    OutOfOrderFrame { stream_id: StreamId, expected: FrameSeq, actual: FrameSeq },
    InsufficientCredit { stream_id: StreamId, requested: usize, available: usize },
    InvalidFrameMagic,
    UnsupportedFrameVersion { supported: u8, actual: u8 },
    UnknownFrameKind(u8),
    TruncatedFrame { needed: usize, actual: usize },
    FrameTooLarge(usize),
    PlacementUnavailable { model_id: String },
    TransportClosed,
    Transport(String),
}

} // verus!
