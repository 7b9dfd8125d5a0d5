//! The computing side of the C binding: frames described by plain values
//! are checked, encoded and decoded here; the binding itself only moves
//! bytes across the pointer boundary.
use bytes::Bytes;
use vstd::prelude::*;
use vstd::utf8::*;

use crate::error::SessionRpcError;
use crate::frame::{payload_of, Frame, FrameKind, FrameView, KindView};
use crate::ids::{FrameSeq, LeaseEpoch, SessionId, StreamId};
use crate::payload::{bytes_as_slice, bytes_copy_from_slice, bytes_view};
use crate::telemetry::TraceContext;
use crate::wire::{
    be128, be128_value, bytes_result_view, decode_outcome, encode_outcome, frame_result_view,
    kind_code, kind_from_code, kind_to_u8, lemma_be128_roundtrip, trace_bytes, utf8_str, FrameCodec,
    DEFAULT_MAX_PAYLOAD_LEN,
};

verus! {

pub const SESSIONRPC_FRAME_DATA: u8 = 0;

pub const SESSIONRPC_FRAME_CANCEL: u8 = 1;

pub const SESSIONRPC_FRAME_OPEN: u8 = 2;

pub const SESSIONRPC_FRAME_END: u8 = 3;

pub const SESSIONRPC_FRAME_PING: u8 = 4;

/// The outcome of a binding call.
#[derive(Clone, Copy, Debug, Eq, PartialEq, Structural)]
pub enum SessionRpcStatus {
    /// The call succeeded (`Ok` in the C header).
    Success,
    InvalidArgument,
    DecodeError,
}

/// The frame that the binding's plain fields describe: an unknown kind, or
/// a trace context that is not UTF-8, is an invalid argument; the token
/// count counts only on data frames; an empty trace context is none.
pub open spec fn view_frame(
    session_id: Seq<u8>,
    stream_id: u64,
    seq: u64,
    lease_epoch: u64,
    kind: u8,
    has_token_count: bool,
    token_count: u64,
    payload: Seq<u8>,
    trace_context: Seq<u8>,
) -> Result<FrameView, SessionRpcStatus> {
    if kind > 4 {
        Err(SessionRpcStatus::InvalidArgument)
    } else if trace_context.len() > 0 && !valid_utf8(trace_context) {
        Err(SessionRpcStatus::InvalidArgument)
    } else {
        Ok(
            FrameView {
                session_id: be128_value(session_id),
                stream_id,
                seq,
                lease_epoch,
                kind: kind_from_code(kind, payload),
                token_count: if kind == 0 && has_token_count {
                    Some(token_count)
                } else {
                    None
                },
                trace_context: if trace_context.len() == 0 {
                    None
                } else {
                    Some(decode_utf8(trace_context))
                },
            },
        )
    }
}

/// A binding result, with the frame taken by its view.
pub open spec fn frame_status_view(r: Result<Frame, SessionRpcStatus>) -> Result<FrameView, SessionRpcStatus> {
    match r {
        Ok(f) => Ok(f@),
        Err(s) => Err(s),
    }
}

/// Builds the frame that the binding's plain fields describe.
pub fn frame_from_view(
    session_id: [u8; 16],
    stream_id: u64,
    seq: u64,
    lease_epoch: u64,
    kind: u8,
    has_token_count: bool,
    token_count: u64,
    payload: &[u8],
    trace_context: &[u8],
) -> (r: Result<Frame, SessionRpcStatus>)
    ensures
        frame_status_view(r) == view_frame(
            session_id@,
            stream_id,
            seq,
            lease_epoch,
            kind,
            has_token_count,
            token_count,
            payload@,
            trace_context@,
        ),
{
    let session_id = SessionId::from_bytes(session_id);
    let stream_id = StreamId::new(stream_id);
    let seq = FrameSeq::new(seq);
    let lease_epoch = LeaseEpoch::new(lease_epoch);
    let frame = if kind == SESSIONRPC_FRAME_DATA {
        let payload = bytes_copy_from_slice(payload);
        if has_token_count {
            Frame::data_with_tokens(session_id, stream_id, seq, lease_epoch, payload, token_count)
        } else {
            Frame::data(session_id, stream_id, seq, lease_epoch, payload)
        }
    } else if kind == SESSIONRPC_FRAME_CANCEL {
        Frame::control(session_id, stream_id, seq, lease_epoch, FrameKind::Cancel)
    } else if kind == SESSIONRPC_FRAME_OPEN {
        Frame::control(session_id, stream_id, seq, lease_epoch, FrameKind::Open)
    } else if kind == SESSIONRPC_FRAME_END {
        Frame::control(session_id, stream_id, seq, lease_epoch, FrameKind::End)
    } else if kind == SESSIONRPC_FRAME_PING {
        Frame::control(session_id, stream_id, seq, lease_epoch, FrameKind::Ping)
    } else {
        return Err(SessionRpcStatus::InvalidArgument);
    };
    if trace_context.len() == 0 {
        return Ok(frame);
    }
    match utf8_str(trace_context) {
        None => Err(SessionRpcStatus::InvalidArgument),
        Some(text) => Ok(frame.with_trace_context(TraceContext::from_string(text.to_owned()))),
    }
}

/// Encodes the frame that the binding's plain fields describe with the
/// default codec; a frame the codec refuses is an invalid argument.
pub fn encode_view(
    session_id: [u8; 16],
    stream_id: u64,
    seq: u64,
    lease_epoch: u64,
    kind: u8,
    has_token_count: bool,
    token_count: u64,
    payload: &[u8],
    trace_context: &[u8],
) -> (r: Result<Bytes, SessionRpcStatus>)
    ensures
        match view_frame(
            session_id@,
            stream_id,
            seq,
            lease_epoch,
            kind,
            has_token_count,
            token_count,
            payload@,
            trace_context@,
        ) {
            Err(s) => r == Err::<Bytes, SessionRpcStatus>(s),
            Ok(f) => match encode_outcome(DEFAULT_MAX_PAYLOAD_LEN, f) {
                Ok(b) => r matches Ok(e) && bytes_view(e) == b,
                Err(_) => r == Err::<Bytes, SessionRpcStatus>(SessionRpcStatus::InvalidArgument),
            },
        },
{
    let frame = match frame_from_view(
        session_id,
        stream_id,
        seq,
        lease_epoch,
        kind,
        has_token_count,
        token_count,
        payload,
        trace_context,
    ) {
        Ok(f) => f,
        Err(s) => return Err(s),
    };
    match FrameCodec::default().encode(&frame) {
        Ok(b) => Ok(b),
        Err(_) => Err(SessionRpcStatus::InvalidArgument),
    }
}

/// Decodes a frame with the default codec; a frame the codec refuses is a
/// decode error.
pub fn decode_encoded(encoded: &[u8]) -> (r: Result<Frame, SessionRpcStatus>)
    ensures
        match decode_outcome(DEFAULT_MAX_PAYLOAD_LEN, encoded@) {
            Ok(f) => r matches Ok(g) && g@ == f,
            Err(_) => r == Err::<Frame, SessionRpcStatus>(SessionRpcStatus::DecodeError),
        },
{
    let codec = FrameCodec::default();
    let r = codec.decode(encoded);
    proof {
        let ghost decoded: Result<Frame, SessionRpcError> = r;
        assert(frame_result_view(decoded) == decode_outcome(DEFAULT_MAX_PAYLOAD_LEN, encoded@));
    }
    match r {
        Ok(f) => Ok(f),
        Err(_) => Err(SessionRpcStatus::DecodeError),
    }
}

/// A frame as the binding's plain fields: UUID bytes, stream, sequence,
/// epoch, kind byte, payload bytes, token count and `traceparent` bytes.
pub struct FrameFields {
    pub session_id: [u8; 16],
    pub stream_id: u64,
    pub seq: u64,
    pub lease_epoch: u64,
    pub kind: u8,
    pub payload: Vec<u8>,
    pub has_token_count: bool,
    pub token_count: u64,
    pub trace_context: Vec<u8>,
}

/// The plain fields the binding hands back for a decoded frame: no token
/// count reads as zero, and no trace context as empty bytes.
pub fn frame_fields(frame: &Frame) -> (d: FrameFields)
    ensures
        d.session_id@ == be128(frame@.session_id),
        d.stream_id == frame@.stream_id,
        d.seq == frame@.seq,
        d.lease_epoch == frame@.lease_epoch,
        d.kind == kind_code(frame@.kind),
        d.payload@ == payload_of(frame@.kind),
        d.has_token_count == frame@.token_count is Some,
        d.token_count == match frame@.token_count {
            Some(n) => n,
            None => 0,
        },
        d.trace_context@ == trace_bytes(frame@.trace_context),
{
    let payload = match frame.kind() {
        FrameKind::Data(p) => vstd::slice::slice_to_vec(bytes_as_slice(p)),
        _ => Vec::new(),
    };
    let trace_context = match frame.trace_context() {
        Some(t) => vstd::slice::slice_to_vec(t.traceparent().as_bytes()),
        None => Vec::new(),
    };
    let (has_token_count, token_count) = match frame.token_count() {
        Some(n) => (true, n),
        None => (false, 0),
    };
    FrameFields {
        session_id: frame.session_id().to_bytes(),
        stream_id: frame.stream_id().get(),
        seq: frame.seq().get(),
        lease_epoch: frame.lease_epoch().get(),
        kind: kind_to_u8(frame.kind()),
        payload,
        has_token_count,
        token_count,
        trace_context,
    }
}

/// The plain fields taken from a frame describe that frame again, as long
/// as its trace context, if any, is not empty (an empty section reads as no
/// trace context) and only a data frame carries a token count.
pub proof fn lemma_fields_describe_frame(f: FrameView)
    requires
        f.trace_context != Some(Seq::<char>::empty()),
        !(f.kind is Data) ==> f.token_count is None,
    ensures
        view_frame(
            be128(f.session_id),
            f.stream_id,
            f.seq,
            f.lease_epoch,
            kind_code(f.kind),
            f.token_count is Some,
            match f.token_count {
                Some(n) => n,
                None => 0,
            },
            payload_of(f.kind),
            trace_bytes(f.trace_context),
        ) == Ok::<FrameView, SessionRpcStatus>(f),
{
    lemma_be128_roundtrip(f.session_id);
    assert(kind_from_code(kind_code(f.kind), payload_of(f.kind)) == f.kind);
    if let Some(t) = f.trace_context {
        encode_utf8_valid_utf8(t);
        encode_utf8_decode_utf8(t);
    }
}

/// The binding's kind constants follow the documented table (0 data,
/// 1 cancel, 2 open, 3 end, 4 ping), and the plain fields describe a frame
/// of the kind their kind byte names by that table; any other byte is an
/// invalid argument.
pub proof fn lemma_binding_kind_table(
    session_id: Seq<u8>,
    stream_id: u64,
    seq: u64,
    lease_epoch: u64,
    kind: u8,
    has_token_count: bool,
    token_count: u64,
    payload: Seq<u8>,
    trace_context: Seq<u8>,
)
    ensures
        SESSIONRPC_FRAME_DATA == 0,
        SESSIONRPC_FRAME_CANCEL == 1,
        SESSIONRPC_FRAME_OPEN == 2,
        SESSIONRPC_FRAME_END == 3,
        SESSIONRPC_FRAME_PING == 4,
        ({
            let r = view_frame(
                session_id,
                stream_id,
                seq,
                lease_epoch,
                kind,
                has_token_count,
                token_count,
                payload,
                trace_context,
            );
            &&& kind > 4 ==> r == Err::<FrameView, SessionRpcStatus>(SessionRpcStatus::InvalidArgument)
            &&& r matches Ok(f) ==> {
                &&& (kind == 0 <==> f.kind == KindView::Data(payload))
                &&& (kind == 1 <==> f.kind is Cancel)
                &&& (kind == 2 <==> f.kind is Open)
                &&& (kind == 3 <==> f.kind is End)
                &&& (kind == 4 <==> f.kind is Ping)
            }
        }),
{
}

} // verus!
