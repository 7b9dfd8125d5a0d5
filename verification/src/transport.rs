//! The frames of the transport conformance exchange, and the frame identity
//! a transport must preserve.  Sending and receiving belong to the
//! transports themselves.
use vstd::prelude::*;
use vstd::utf8::*;

use crate::frame::{Frame, FrameKind, FrameView, KindView};
use crate::ids::{FrameSeq, LeaseEpoch, SessionId, StreamId};
use crate::payload::{bytes_as_slice, bytes_copy_from_slice};

verus! {

pub const CLIENT_FIRST_PAYLOAD: &'static str = "client-first";

pub const CLIENT_SECOND_PAYLOAD: &'static str = "client-second";

pub const WORKER_REPLY_PAYLOAD: &'static str = "worker-reply";

/// A data frame of the conformance exchange.
pub open spec fn exchange_frame(session_id: u128, stream_id: u64, seq: u64, payload: Seq<char>) -> FrameView {
    FrameView {
        session_id,
        stream_id,
        seq,
        lease_epoch: 1,
        kind: KindView::Data(encode_utf8(payload)),
        token_count: None,
        trace_context: None,
    }
}

/// The three frames of the conformance exchange for `session_id`: two
/// client frames on stream 1 (sequence 0 and 1) and one worker reply on
/// stream 2, all under lease epoch 1.
pub fn conformance_frames(session_id: SessionId) -> (r: (Frame, Frame, Frame))
    ensures
        r.0@ == exchange_frame(session_id@, 1, 0, CLIENT_FIRST_PAYLOAD@),
        r.1@ == exchange_frame(session_id@, 1, 1, CLIENT_SECOND_PAYLOAD@),
        r.2@ == exchange_frame(session_id@, 2, 0, WORKER_REPLY_PAYLOAD@),
{
    let lease_epoch = LeaseEpoch::new(1);
    let client_first = Frame::data(
        session_id,
        StreamId::new(1),
        FrameSeq::new(0),
        lease_epoch,
        bytes_copy_from_slice(CLIENT_FIRST_PAYLOAD.as_bytes()),
    );
    let client_second = Frame::data(
        session_id,
        StreamId::new(1),
        FrameSeq::new(1),
        lease_epoch,
        bytes_copy_from_slice(CLIENT_SECOND_PAYLOAD.as_bytes()),
    );
    let worker_reply = Frame::data(
        session_id,
        StreamId::new(2),
        FrameSeq::new(0),
        lease_epoch,
        bytes_copy_from_slice(WORKER_REPLY_PAYLOAD.as_bytes()),
    );
    (client_first, client_second, worker_reply)
}

fn same_bytes(a: &[u8], b: &[u8]) -> (r: bool)
    ensures
        r == (a@ == b@),
{
    if a.len() != b.len() {
        return false;
    }
    let mut i: usize = 0;
    while i < a.len()
        invariant
            a@.len() == b@.len(),
            i <= a@.len(),
            forall|k: int| 0 <= k < i ==> a@[k] == b@[k],
        decreases a@.len() - i,
    {
        if a[i] != b[i] {
            return false;
        }
        i = i + 1;
    }
    assert(a@ =~= b@);
    true
}

/// Whether two frames are the same frame: same identifiers, kind, payload
/// bytes, token count and trace context.
pub fn same_frame(a: &Frame, b: &Frame) -> (r: bool)
    ensures
        r == (a@ == b@),
{
    if a.session_id().get() != b.session_id().get() || a.stream_id().get() != b.stream_id().get()
        || a.seq().get() != b.seq().get() || a.lease_epoch().get() != b.lease_epoch().get() {
        return false;
    }
    if a.token_count() != b.token_count() {
        return false;
    }
    let same_kind = match (a.kind(), b.kind()) {
        (FrameKind::Data(p), FrameKind::Data(q)) => same_bytes(bytes_as_slice(p), bytes_as_slice(q)),
        (FrameKind::Cancel, FrameKind::Cancel) => true,
        (FrameKind::Open, FrameKind::Open) => true,
        (FrameKind::End, FrameKind::End) => true,
        (FrameKind::Ping, FrameKind::Ping) => true,
        _ => false,
    };
    if !same_kind {
        return false;
    }
    match (a.trace_context(), b.trace_context()) {
        (None, None) => true,
        (Some(s), Some(t)) => s.same_as(t),
        _ => false,
    }
}

} // verus!
