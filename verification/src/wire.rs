//! The binary wire format.
//!
//! A frame is encoded as a 58-byte header followed by the data payload.
//! Integers are big-endian.
//!
//! | Offset | Size | Field |
//! | --- | ---: | --- |
//! | 0 | 4 | Magic bytes: `SRP1` |
//! | 4 | 1 | Version: `1` |
//! | 5 | 1 | Frame kind (0 data, 1 cancel, 2 open, 3 end, 4 ping) |
//! | 6 | 4 | Payload length in bytes |
//! | 10 | 16 | Session id UUID bytes |
//! | 26 | 8 | Stream id |
//! | 34 | 8 | Frame sequence |
//! | 42 | 8 | Lease epoch |
//! | 50 | 8 | Token count, or `u64::MAX` when absent |
//! | 58 | N | Payload bytes |
//!
//! A frame that carries a trace context continues after the payload with a
//! 4-byte length followed by that many bytes of UTF-8 `traceparent` text.
//! The decoder takes a trace context from what follows the payload only
//! when a complete section of valid UTF-8 is there, and otherwise ignores
//! those bytes.
use bytes::Bytes;
use vstd::prelude::*;
use vstd::utf8::*;

use crate::error::SessionRpcError;
use crate::frame::{payload_of, Frame, FrameKind, FrameView, KindView};
use crate::ids::{FrameSeq, LeaseEpoch, SessionId, StreamId};
use crate::payload::{bytes_as_slice, bytes_copy_from_slice, bytes_from_vec, bytes_view};
use crate::telemetry::TraceContext;

verus! {

/// The only wire version this codec speaks.
pub const VERSION: u8 = 1;

/// Length of the fixed header.
pub const HEADER_LEN: usize = 58;

/// The token-count field's value for a frame without a token count.
pub const ABSENT_TOKEN_COUNT: u64 = 0xffff_ffff_ffff_ffff;

/// The payload limit of `FrameCodec::default()`: 16 MiB.
pub const DEFAULT_MAX_PAYLOAD_LEN: usize = 16777216;

/// The magic bytes `SRP1`.
pub open spec fn magic() -> Seq<u8> {
    seq![0x53u8, 0x52u8, 0x50u8, 0x31u8]
}

/// The 4 big-endian bytes of `x`.
pub open spec fn be32(x: u32) -> Seq<u8> {
    seq![(x >> 24u32) as u8, (x >> 16u32) as u8, (x >> 8u32) as u8, x as u8]
}

/// The value of 4 big-endian bytes.
pub open spec fn be32_value(s: Seq<u8>) -> u32 {
    ((s[0] as u32) << 24u32) | ((s[1] as u32) << 16u32) | ((s[2] as u32) << 8u32) | (s[3] as u32)
}

/// The 8 big-endian bytes of `x`.
pub open spec fn be64(x: u64) -> Seq<u8> {
    seq![
        (x >> 56u64) as u8,
        (x >> 48u64) as u8,
        (x >> 40u64) as u8,
        (x >> 32u64) as u8,
        (x >> 24u64) as u8,
        (x >> 16u64) as u8,
        (x >> 8u64) as u8,
        x as u8,
    ]
}

/// The value of 8 big-endian bytes.
pub open spec fn be64_value(s: Seq<u8>) -> u64 {
    ((s[0] as u64) << 56u64) | ((s[1] as u64) << 48u64) | ((s[2] as u64) << 40u64) | ((s[3] as u64)
        << 32u64) | ((s[4] as u64) << 24u64) | ((s[5] as u64) << 16u64) | ((s[6] as u64) << 8u64)
        | (s[7] as u64)
}

/// The 16 big-endian bytes of `x`.
pub open spec fn be128(x: u128) -> Seq<u8> {
    be64((x >> 64u128) as u64) + be64(x as u64)
}

/// The value of 16 big-endian bytes.
pub open spec fn be128_value(s: Seq<u8>) -> u128 {
    ((be64_value(s.subrange(0, 8)) as u128) << 64u128) | (be64_value(s.subrange(8, 16)) as u128)
}

/// The kind byte of a frame kind.
pub open spec fn kind_code(kind: KindView) -> u8 {
    match kind {
        KindView::Data(_) => 0,
        KindView::Cancel => 1,
        KindView::Open => 2,
        KindView::End => 3,
        KindView::Ping => 4,
    }
}

/// The frame kind a kind byte (at most 4) names, with the payload for data.
pub open spec fn kind_from_code(code: u8, payload: Seq<u8>) -> KindView {
    if code == 0 {
        KindView::Data(payload)
    } else if code == 1 {
        KindView::Cancel
    } else if code == 2 {
        KindView::Open
    } else if code == 3 {
        KindView::End
    } else {
        KindView::Ping
    }
}

/// The token-count field of a frame's header.
pub open spec fn token_field(token_count: Option<u64>) -> u64 {
    match token_count {
        Some(n) => n,
        None => ABSENT_TOKEN_COUNT,
    }
}

/// The UTF-8 bytes of a trace context, empty when there is none.
pub open spec fn trace_bytes(trace: Option<Seq<char>>) -> Seq<u8> {
    match trace {
        Some(t) => encode_utf8(t),
        None => Seq::empty(),
    }
}

/// The section after the payload: absent without a trace context, else its
/// length and its UTF-8 bytes.
pub open spec fn trace_section(trace: Option<Seq<char>>) -> Seq<u8> {
    match trace {
        Some(t) => be32(encode_utf8(t).len() as u32) + encode_utf8(t),
        None => Seq::empty(),
    }
}

/// The bytes of an encoded frame.
pub open spec fn encoded_frame(f: FrameView) -> Seq<u8> {
    magic() + seq![VERSION, kind_code(f.kind)] + be32(payload_of(f.kind).len() as u32) + be128(
        f.session_id,
    ) + be64(f.stream_id) + be64(f.seq) + be64(f.lease_epoch) + be64(token_field(f.token_count))
        + payload_of(f.kind) + trace_section(f.trace_context)
}

/// What encoding a frame gives with the payload limit `max`.
pub open spec fn encode_outcome(max: usize, f: FrameView) -> Result<Seq<u8>, SessionRpcError> {
    let plen = payload_of(f.kind).len();
    let tlen = trace_bytes(f.trace_context).len();
    if plen > max || plen > u32::MAX {
        Err(SessionRpcError::FrameTooLarge(plen as usize))
    } else if tlen > u32::MAX {
        Err(SessionRpcError::FrameTooLarge(tlen as usize))
    } else {
        Ok(encoded_frame(f))
    }
}

/// The trace context that the bytes after a payload ending at `start`
/// carry: one when a complete section follows (a 4-byte length and that
/// many bytes of valid UTF-8), and none otherwise.
pub open spec fn trace_outcome(b: Seq<u8>, start: int) -> Option<Seq<char>> {
    if b.len() < start + 4 {
        None
    } else {
        let body = start + 4;
        let end = body + be32_value(b.subrange(start, body));
        if b.len() < end || !valid_utf8(b.subrange(body, end)) {
            None
        } else {
            Some(decode_utf8(b.subrange(body, end)))
        }
    }
}

/// The frame (or the error) that decoding `b` with the payload limit `max`
/// gives.  Once the header and payload are valid the frame is decoded; the
/// bytes after the payload only supply its trace context when they hold a
/// complete trace section, and are otherwise ignored.
pub open spec fn decode_outcome(max: usize, b: Seq<u8>) -> Result<FrameView, SessionRpcError> {
    if b.len() < HEADER_LEN {
        Err(SessionRpcError::TruncatedFrame { needed: HEADER_LEN, actual: b.len() as usize })
    } else if b.subrange(0, 4) != magic() {
        Err(SessionRpcError::InvalidFrameMagic)
    } else if b[4] != VERSION {
        Err(SessionRpcError::UnsupportedFrameVersion { supported: VERSION, actual: b[4] })
    } else {
        let plen = be32_value(b.subrange(6, 10));
        let needed = HEADER_LEN + plen;
        if plen > max {
            Err(SessionRpcError::FrameTooLarge(plen as usize))
        } else if b.len() < needed {
            Err(SessionRpcError::TruncatedFrame { needed: needed as usize, actual: b.len() as usize })
        } else if b[5] > 4 {
            Err(SessionRpcError::UnknownFrameKind(b[5]))
        } else {
            let tokens = be64_value(b.subrange(50, 58));
            Ok(
                FrameView {
                    session_id: be128_value(b.subrange(10, 26)),
                    stream_id: be64_value(b.subrange(26, 34)),
                    seq: be64_value(b.subrange(34, 42)),
                    lease_epoch: be64_value(b.subrange(42, 50)),
                    kind: kind_from_code(b[5], b.subrange(HEADER_LEN as int, needed)),
                    token_count: if b[5] == 0 && tokens != ABSENT_TOKEN_COUNT {
                        Some(tokens)
                    } else {
                        None
                    },
                    trace_context: trace_outcome(b, needed),
                },
            )
        }
    }
}

/// Decoding `b` would have to count a header-plus-payload length that does
/// not fit in `usize` (possible only where `usize` has 32 bits).
pub open spec fn decode_overflows(max: usize, b: Seq<u8>) -> bool {
    &&& b.len() >= HEADER_LEN
    &&& b.subrange(0, 4) == magic()
    &&& b[4] == VERSION
    &&& be32_value(b.subrange(6, 10)) <= max
    &&& HEADER_LEN + be32_value(b.subrange(6, 10)) > usize::MAX
}

/// A decoding result, with the frame taken by its view.
pub open spec fn frame_result_view(r: Result<Frame, SessionRpcError>) -> Result<FrameView, SessionRpcError> {
    match r {
        Ok(f) => Ok(f@),
        Err(e) => Err(e),
    }
}

/// An encoding result, with the buffer taken by the bytes it holds.
pub open spec fn bytes_result_view(r: Result<Bytes, SessionRpcError>) -> Result<Seq<u8>, SessionRpcError> {
    match r {
        Ok(b) => Ok(bytes_view(b)),
        Err(e) => Err(e),
    }
}

/// Reading back the 4 big-endian bytes of `x` gives `x`.
pub proof fn lemma_be32_roundtrip(x: u32)
    ensures
        be32_value(be32(x)) == x,
{
    assert((((x >> 24u32) as u8 as u32) << 24u32) | (((x >> 16u32) as u8 as u32) << 16u32) | (((x
        >> 8u32) as u8 as u32) << 8u32) | (x as u8 as u32) == x) by (bit_vector);
}

/// Reading back the 8 big-endian bytes of `x` gives `x`.
pub proof fn lemma_be64_roundtrip(x: u64)
    ensures
        be64_value(be64(x)) == x,
{
    assert((((x >> 56u64) as u8 as u64) << 56u64) | (((x >> 48u64) as u8 as u64) << 48u64) | (((x
        >> 40u64) as u8 as u64) << 40u64) | (((x >> 32u64) as u8 as u64) << 32u64) | (((x >> 24u64)
        as u8 as u64) << 24u64) | (((x >> 16u64) as u8 as u64) << 16u64) | (((x >> 8u64) as u8 as u64)
        << 8u64) | (x as u8 as u64) == x) by (bit_vector);
}

/// Reading back the 16 big-endian bytes of `x` gives `x`.
pub proof fn lemma_be128_roundtrip(x: u128)
    ensures
        be128_value(be128(x)) == x,
{
    let hi = (x >> 64u128) as u64;
    let lo = x as u64;
    assert(be128(x).subrange(0, 8) =~= be64(hi));
    assert(be128(x).subrange(8, 16) =~= be64(lo));
    lemma_be64_roundtrip(hi);
    lemma_be64_roundtrip(lo);
    assert(((((x >> 64u128) as u64) as u128) << 64u128) | ((x as u64) as u128) == x) by (bit_vector);
}

/// The 58-byte header of an encoded frame.
pub open spec fn encoded_header(f: FrameView) -> Seq<u8> {
    magic() + seq![VERSION, kind_code(f.kind)] + be32(payload_of(f.kind).len() as u32) + be128(
        f.session_id,
    ) + be64(f.stream_id) + be64(f.seq) + be64(f.lease_epoch) + be64(token_field(f.token_count))
}

proof fn lemma_header_layout(f: FrameView)
    ensures
        ({
            let h = encoded_header(f);
            &&& h.len() == HEADER_LEN
            &&& h.subrange(0, 4) == magic()
            &&& h[4] == VERSION
            &&& h[5] == kind_code(f.kind)
            &&& h.subrange(6, 10) == be32(payload_of(f.kind).len() as u32)
            &&& h.subrange(10, 26) == be128(f.session_id)
            &&& h.subrange(26, 34) == be64(f.stream_id)
            &&& h.subrange(34, 42) == be64(f.seq)
            &&& h.subrange(42, 50) == be64(f.lease_epoch)
            &&& h.subrange(50, 58) == be64(token_field(f.token_count))
        }),
{
    let h0 = magic() + seq![VERSION, kind_code(f.kind)];
    let h1 = h0 + be32(payload_of(f.kind).len() as u32);
    let h2 = h1 + be128(f.session_id);
    let h3 = h2 + be64(f.stream_id);
    let h4 = h3 + be64(f.seq);
    let h5 = h4 + be64(f.lease_epoch);
    let h = h5 + be64(token_field(f.token_count));
    assert(h.subrange(0, 4) =~= magic());
    assert(h.subrange(6, 10) =~= be32(payload_of(f.kind).len() as u32));
    assert(h.subrange(10, 26) =~= be128(f.session_id));
    assert(h.subrange(26, 34) =~= be64(f.stream_id));
    assert(h.subrange(34, 42) =~= be64(f.seq));
    assert(h.subrange(42, 50) =~= be64(f.lease_epoch));
    assert(h.subrange(50, 58) =~= be64(token_field(f.token_count)));
}

proof fn lemma_prefix_subrange(b: Seq<u8>, h: Seq<u8>, i: int, j: int)
    requires
        0 <= i <= j <= h.len(),
        h.len() <= b.len(),
        b.subrange(0, h.len() as int) == h,
    ensures
        b.subrange(i, j) == h.subrange(i, j),
{
    assert(b.subrange(i, j) =~= h.subrange(i, j)) by {
        assert forall|k: int| 0 <= k < j - i implies b.subrange(i, j)[k] == h.subrange(i, j)[k] by {
            assert(b[i + k] == b.subrange(0, h.len() as int)[i + k]);
        }
    }
}

/// Decoding what encoding produced gives back the frame: every frame that
/// encodes under a payload limit decodes under the same limit to itself,
/// as long as its token count is representable on the wire (a data frame's
/// token count is not `u64::MAX`, which marks an absent count, and a control
/// frame carries none).
pub proof fn lemma_decode_encode_roundtrip(max: usize, f: FrameView)
    requires
        encode_outcome(max, f) is Ok,
        f.kind is Data ==> f.token_count != Some(ABSENT_TOKEN_COUNT),
        !(f.kind is Data) ==> f.token_count is None,
    ensures
        decode_outcome(max, encoded_frame(f)) == Ok::<FrameView, SessionRpcError>(f),
{
    let p = payload_of(f.kind);
    let plen = p.len() as u32;
    let h = encoded_header(f);
    let ts = trace_section(f.trace_context);
    let b = encoded_frame(f);
    assert(b == h + p + ts);
    lemma_header_layout(f);
    assert(b.subrange(0, 58) =~= h);
    lemma_prefix_subrange(b, h, 0, 4);
    lemma_prefix_subrange(b, h, 6, 10);
    lemma_prefix_subrange(b, h, 10, 26);
    lemma_prefix_subrange(b, h, 26, 34);
    lemma_prefix_subrange(b, h, 34, 42);
    lemma_prefix_subrange(b, h, 42, 50);
    lemma_prefix_subrange(b, h, 50, 58);
    assert(b[4] == h[4] && b[5] == h[5]);
    lemma_be32_roundtrip(plen);
    lemma_be128_roundtrip(f.session_id);
    lemma_be64_roundtrip(f.stream_id);
    lemma_be64_roundtrip(f.seq);
    lemma_be64_roundtrip(f.lease_epoch);
    lemma_be64_roundtrip(token_field(f.token_count));
    let needed: int = 58 + p.len() as int;
    assert(b.subrange(58, needed) =~= p);
    assert(kind_from_code(kind_code(f.kind), p) == f.kind);
    match f.trace_context {
        None => {
            assert(b.len() == needed);
        },
        Some(t) => {
            let tb = encode_utf8(t);
            assert(b.subrange(needed, needed + 4) =~= be32(tb.len() as u32));
            lemma_be32_roundtrip(tb.len() as u32);
            assert(b.subrange(needed + 4, needed + 4 + tb.len() as int) =~= tb);
            encode_utf8_valid_utf8(t);
            encode_utf8_decode_utf8(t);
        },
    }
}

fn read_be32(b: &[u8], off: usize) -> (v: u32)
    requires
        off + 4 <= b@.len(),
    ensures
        v == be32_value(b@.subrange(off as int, off + 4)),
{
    let ghost s = b@.subrange(off as int, off + 4);
    assert(s[0] == b@[off as int] && s[1] == b@[off + 1] && s[2] == b@[off + 2] && s[3] == b@[off
        + 3]);
    ((b[off] as u32) << 24u32) | ((b[off + 1] as u32) << 16u32) | ((b[off + 2] as u32) << 8u32) | (b[off
        + 3] as u32)
}

fn read_be64(b: &[u8], off: usize) -> (v: u64)
    requires
        off + 8 <= b@.len(),
    ensures
        v == be64_value(b@.subrange(off as int, off + 8)),
{
    let ghost s = b@.subrange(off as int, off + 8);
    assert(s[0] == b@[off as int] && s[1] == b@[off + 1] && s[2] == b@[off + 2] && s[3] == b@[off
        + 3]);
    assert(s[4] == b@[off + 4] && s[5] == b@[off + 5] && s[6] == b@[off + 6] && s[7] == b@[off
        + 7]);
    ((b[off] as u64) << 56u64) | ((b[off + 1] as u64) << 48u64) | ((b[off + 2] as u64) << 40u64) | ((
    b[off + 3] as u64) << 32u64) | ((b[off + 4] as u64) << 24u64) | ((b[off + 5] as u64) << 16u64) | ((
    b[off + 6] as u64) << 8u64) | (b[off + 7] as u64)
}

pub(crate) fn read_be128(b: &[u8], off: usize) -> (v: u128)
    requires
        off + 16 <= b@.len(),
    ensures
        v == be128_value(b@.subrange(off as int, off + 16)),
{
    // Reading the length tells Verus that it fits in `usize`, so `off + 8`
    // cannot overflow.
    let len = b.len();
    assert(off + 8 < len);
    let hi = read_be64(b, off);
    let lo = read_be64(b, off + 8);
    let ghost s = b@.subrange(off as int, off + 16);
    assert(s.subrange(0, 8) =~= b@.subrange(off as int, off + 8));
    assert(s.subrange(8, 16) =~= b@.subrange(off + 8, off + 16));
    ((hi as u128) << 64u128) | (lo as u128)
}

fn push_be32(out: &mut Vec<u8>, x: u32)
    ensures
        final(out)@ == old(out)@ + be32(x),
{
    out.push((x >> 24u32) as u8);
    out.push((x >> 16u32) as u8);
    out.push((x >> 8u32) as u8);
    out.push(x as u8);
    assert(out@ =~= old(out)@ + be32(x));
}

fn push_be64(out: &mut Vec<u8>, x: u64)
    ensures
        final(out)@ == old(out)@ + be64(x),
{
    out.push((x >> 56u64) as u8);
    out.push((x >> 48u64) as u8);
    out.push((x >> 40u64) as u8);
    out.push((x >> 32u64) as u8);
    out.push((x >> 24u64) as u8);
    out.push((x >> 16u64) as u8);
    out.push((x >> 8u64) as u8);
    out.push(x as u8);
    assert(out@ =~= old(out)@ + be64(x));
}

fn push_be128(out: &mut Vec<u8>, x: u128)
    ensures
        final(out)@ == old(out)@ + be128(x),
{
    push_be64(out, (x >> 64u128) as u64);
    push_be64(out, x as u64);
    assert(out@ =~= old(out)@ + be128(x));
}

fn push_bytes(out: &mut Vec<u8>, s: &[u8])
    ensures
        final(out)@ == old(out)@ + s@,
{
    let ghost start = out@;
    let mut i: usize = 0;
    while i < s.len()
        invariant
            i <= s@.len(),
            out@ == start + s@.subrange(0, i as int),
        decreases s@.len() - i,
    {
        out.push(s[i]);
        i = i + 1;
        assert(out@ =~= start + s@.subrange(0, i as int));
    }
    assert(s@.subrange(0, i as int) =~= s@);
}

/// The kind byte that encodes `kind`.
pub fn kind_to_u8(kind: &FrameKind) -> (b: u8)
    ensures
        b == kind_code(kind@),
        kind@ is Data ==> b == 0,
        kind@ is Cancel ==> b == 1,
        kind@ is Open ==> b == 2,
        kind@ is End ==> b == 3,
        kind@ is Ping ==> b == 4,
{
    match kind {
        FrameKind::Data(_) => 0,
        FrameKind::Cancel => 1,
        FrameKind::Open => 2,
        FrameKind::End => 3,
        FrameKind::Ping => 4,
    }
}

/// Reads the trace-context section that starts at `start`, if a complete
/// one is there.
fn decode_trace(encoded: &[u8], start: usize) -> (r: Option<TraceContext>)
    requires
        start <= encoded@.len(),
    ensures
        match r {
            Some(t) => trace_outcome(encoded@, start as int) == Some(t@),
            None => trace_outcome(encoded@, start as int) is None,
        },
{
    let len = encoded.len();
    if len - start < 4 {
        return None;
    }
    let body = start + 4;
    let trace_len = read_be32(encoded, start) as usize;
    if len - body < trace_len {
        return None;
    }
    let end = body + trace_len;
    match utf8_str(&encoded[body..end]) {
        None => None,
        Some(text) => Some(TraceContext::from_string(text.to_owned())),
    }
}

/// `std::str::from_utf8` (its `Ok` value, as an `Option`): a string slice
/// exactly when the bytes are valid UTF-8, holding the characters they
/// encode.
#[verifier::external_body]
pub(crate) fn utf8_str(bytes: &[u8]) -> (r: Option<&str>)
    ensures
        r is Some <==> valid_utf8(bytes@),
        r matches Some(s) ==> s@ == decode_utf8(bytes@),
{
    std::str::from_utf8(bytes).ok()
}

/// Encodes frames to, and decodes them from, the wire format.
#[derive(Clone, Debug)]
pub struct FrameCodec {
    max_payload_len: usize,
}

impl Default for FrameCodec {
    fn default() -> (c: Self)
        ensures
            c.max_payload() == DEFAULT_MAX_PAYLOAD_LEN,
    {
        FrameCodec { max_payload_len: DEFAULT_MAX_PAYLOAD_LEN }
    }
}

impl FrameCodec {
    /// The largest payload, in bytes, that this codec encodes or decodes.
    pub closed spec fn max_payload(&self) -> usize {
        self.max_payload_len
    }

    pub fn with_max_payload_len(max_payload_len: usize) -> (c: Self)
        ensures
            c.max_payload() == max_payload_len,
    {
        FrameCodec { max_payload_len }
    }

    /// Encodes `frame`; fails with `FrameTooLarge` when its payload exceeds
    /// the limit or 32 bits of length, or its trace context exceeds 32 bits
    /// of length.
    pub fn encode(&self, frame: &Frame) -> (r: Result<Bytes, SessionRpcError>)
        ensures
            bytes_result_view(r) == encode_outcome(self.max_payload(), frame@),
    {
        let payload_len = frame.payload_len();
        if payload_len > self.max_payload_len || payload_len > 0xffff_ffff {
            return Err(SessionRpcError::FrameTooLarge(payload_len));
        }
        let trace_len = match frame.trace_context() {
            Some(t) => t.traceparent().as_bytes().len(),
            None => 0,
        };
        if trace_len > 0xffff_ffff {
            return Err(SessionRpcError::FrameTooLarge(trace_len));
        }
        let ghost f = frame@;
        let mut out: Vec<u8> = Vec::new();
        out.push(0x53);
        out.push(0x52);
        out.push(0x50);
        out.push(0x31);
        assert(out@ =~= magic());
        out.push(VERSION);
        out.push(kind_to_u8(frame.kind()));
        assert(out@ =~= magic() + seq![VERSION, kind_code(f.kind)]);
        push_be32(&mut out, payload_len as u32);
        push_be128(&mut out, frame.session_id().get());
        push_be64(&mut out, frame.stream_id().get());
        push_be64(&mut out, frame.seq().get());
        push_be64(&mut out, frame.lease_epoch().get());
        let tokens = match frame.token_count() {
            Some(n) => n,
            None => ABSENT_TOKEN_COUNT,
        };
        push_be64(&mut out, tokens);
        match frame.kind() {
            FrameKind::Data(payload) => push_bytes(&mut out, bytes_as_slice(payload)),
            _ => {
                assert(out@ =~= out@ + payload_of(f.kind));
            },
        }
        match frame.trace_context() {
            Some(t) => {
                let text = t.traceparent().as_bytes();
                push_be32(&mut out, trace_len as u32);
                push_bytes(&mut out, text);
                assert(trace_section(f.trace_context) =~= be32(trace_len as u32) + text@);
            },
            None => {
                assert(out@ =~= out@ + trace_section(f.trace_context));
            },
        }
        assert(out@ =~= encoded_frame(f));
        Ok(bytes_from_vec(out))
    }

    /// Decodes the frame at the start of `encoded`.
    pub fn decode(&self, encoded: &[u8]) -> (r: Result<Frame, SessionRpcError>)
        requires
            !decode_overflows(self.max_payload(), encoded@),
        ensures
            frame_result_view(r) == decode_outcome(self.max_payload(), encoded@),
            r matches Ok(f) ==> (f.trace_value() is None <==> f@.trace_context is None),
    {
        let len = encoded.len();
        if len < HEADER_LEN {
            return Err(SessionRpcError::TruncatedFrame { needed: HEADER_LEN, actual: len });
        }
        let ghost b = encoded@;
        assert(b.subrange(0, 4)[0] == b[0] && b.subrange(0, 4)[1] == b[1] && b.subrange(0, 4)[2]
            == b[2] && b.subrange(0, 4)[3] == b[3]);
        if encoded[0] != 0x53 || encoded[1] != 0x52 || encoded[2] != 0x50 || encoded[3] != 0x31 {
            return Err(SessionRpcError::InvalidFrameMagic);
        }
        assert(b.subrange(0, 4) =~= magic());
        let version = encoded[4];
        if version != VERSION {
            return Err(SessionRpcError::UnsupportedFrameVersion { supported: VERSION, actual: version });
        }
        let kind = encoded[5];
        let payload_len = read_be32(encoded, 6) as usize;
        if payload_len > self.max_payload_len {
            return Err(SessionRpcError::FrameTooLarge(payload_len));
        }
        let needed = HEADER_LEN + payload_len;
        if len < needed {
            return Err(SessionRpcError::TruncatedFrame { needed, actual: len });
        }
        if kind > 4 {
            return Err(SessionRpcError::UnknownFrameKind(kind));
        }
        let trace = decode_trace(encoded, needed);
        let session_id = SessionId::from_value(read_be128(encoded, 10));
        let stream_id = StreamId::new(read_be64(encoded, 26));
        let seq = FrameSeq::new(read_be64(encoded, 34));
        let lease_epoch = LeaseEpoch::new(read_be64(encoded, 42));
        let tokens = read_be64(encoded, 50);
        let frame = if kind == 0 {
            let payload = bytes_copy_from_slice(&encoded[HEADER_LEN..needed]);
            if tokens != ABSENT_TOKEN_COUNT {
                Frame::data_with_tokens(session_id, stream_id, seq, lease_epoch, payload, tokens)
            } else {
                Frame::data(session_id, stream_id, seq, lease_epoch, payload)
            }
        } else {
            let control = if kind == 1 {
                FrameKind::Cancel
            } else if kind == 2 {
                FrameKind::Open
            } else if kind == 3 {
                FrameKind::End
            } else {
                FrameKind::Ping
            };
            Frame::control(session_id, stream_id, seq, lease_epoch, control)
        };
        match trace {
            Some(t) => Ok(frame.with_trace_context(t)),
            None => Ok(frame),
        }
    }
}

/// An encoded frame's kind byte (offset 5) follows the documented table:
/// 0 for data, 1 for cancel, 2 for open, 3 for end and 4 for ping.
pub proof fn lemma_encoded_kind_byte(max: usize, f: FrameView)
    requires
        encode_outcome(max, f) is Ok,
    ensures
        ({
            let b = encode_outcome(max, f)->Ok_0;
            &&& b.len() > 5
            &&& f.kind is Data ==> b[5] == 0
            &&& f.kind is Cancel ==> b[5] == 1
            &&& f.kind is Open ==> b[5] == 2
            &&& f.kind is End ==> b[5] == 3
            &&& f.kind is Ping ==> b[5] == 4
        }),
{
    lemma_header_layout(f);
    let b = encoded_frame(f);
    assert(b.subrange(0, 58) =~= encoded_header(f));
    assert(b[5] == encoded_header(f)[5]);
}

/// Decoding reads the kind byte (offset 5) by the documented table: a
/// decoded frame is a data frame exactly when the byte is 0, and a cancel,
/// open, end or ping frame exactly when it is 1, 2, 3 or 4; a data frame's
/// payload is the bytes after the 58-byte header.
pub proof fn lemma_decoded_kind_byte(max: usize, b: Seq<u8>)
    requires
        decode_outcome(max, b) is Ok,
    ensures
        ({
            let f = decode_outcome(max, b)->Ok_0;
            &&& b.len() >= 58
            &&& (b[5] == 0 <==> f.kind is Data)
            &&& (b[5] == 1 <==> f.kind is Cancel)
            &&& (b[5] == 2 <==> f.kind is Open)
            &&& (b[5] == 3 <==> f.kind is End)
            &&& (b[5] == 4 <==> f.kind is Ping)
            &&& (f.kind matches KindView::Data(p) ==> p == b.subrange(58, 58 + p.len() as int))
        }),
{
}

/// The number that the bytes `s` spell in base 256, most significant first.
pub open spec fn big_endian(s: Seq<u8>) -> nat
    decreases s.len(),
{
    if s.len() == 0 {
        0
    } else {
        big_endian(s.drop_last()) * 256 + s.last() as nat
    }
}

proof fn lemma_big_endian_be32(x: u32)
    ensures
        big_endian(be32(x)) == x,
{
    let s = be32(x);
    assert(s.drop_last().drop_last().drop_last().drop_last() =~= Seq::<u8>::empty());
    reveal_with_fuel(big_endian, 5);
    assert(((x >> 24u32) as u8) * 0x1000000int + ((x >> 16u32) as u8) * 0x10000int + ((x >> 8u32) as u8)
        * 0x100int + (x as u8) == x) by (bit_vector);
    assert(s.drop_last().last() == (x >> 8u32) as u8);
}

/// `256` to the power `n`.
pub open spec fn pow256(n: nat) -> nat
    decreases n,
{
    if n == 0 {
        1
    } else {
        pow256((n - 1) as nat) * 256
    }
}

proof fn lemma_big_endian_append(a: Seq<u8>, b: Seq<u8>)
    ensures
        big_endian(a + b) == big_endian(a) * pow256(b.len()) + big_endian(b),
    decreases b.len(),
{
    if b.len() == 0 {
        assert(a + b =~= a);
        assert(pow256(0) == 1);
        assert(big_endian(b) == 0);
        assert(big_endian(a) * 1 == big_endian(a));
    } else {
        let b1 = b.drop_last();
        assert((a + b).drop_last() =~= a + b1);
        assert((a + b).last() == b.last());
        lemma_big_endian_append(a, b1);
        let x = big_endian(a);
        let p = pow256(b1.len());
        let y = big_endian(b1);
        assert((x * p + y) * 256 == x * (p * 256) + y * 256) by (nonlinear_arith);
        assert(big_endian(a + b) == big_endian(a + b1) * 256 + b.last());
        assert(big_endian(b) == y * 256 + b.last());
        assert(pow256(b.len()) == p * 256);
        assert(big_endian(a + b) == x * pow256(b.len()) + big_endian(b));
    }
}

proof fn lemma_big_endian_be64(x: u64)
    ensures
        big_endian(be64(x)) == x,
{
    let s = be64(x);
    reveal_with_fuel(big_endian, 9);
    assert(s.drop_last().drop_last().drop_last().drop_last().drop_last().drop_last().drop_last().drop_last()
        =~= Seq::<u8>::empty());
    assert(((x >> 56u64) as u8) * 0x100000000000000int + ((x >> 48u64) as u8) * 0x1000000000000int + ((x
        >> 40u64) as u8) * 0x10000000000int + ((x >> 32u64) as u8) * 0x100000000int + ((x >> 24u64) as u8)
        * 0x1000000int + ((x >> 16u64) as u8) * 0x10000int + ((x >> 8u64) as u8) * 0x100int + (x as u8)
        == x) by (bit_vector);
}

proof fn lemma_big_endian_be128(x: u128)
    ensures
        big_endian(be128(x)) == x,
{
    let hi = (x >> 64u128) as u64;
    let lo = x as u64;
    lemma_big_endian_append(be64(hi), be64(lo));
    lemma_big_endian_be64(hi);
    lemma_big_endian_be64(lo);
    reveal_with_fuel(pow256, 9);
    assert(((x >> 64u128) as u64) * 0x10000000000000000int + (x as u64) == x) by (bit_vector);
}

proof fn lemma_big_endian_4(s: Seq<u8>)
    requires
        s.len() == 4,
    ensures
        big_endian(s) == s[0] * 0x1000000int + s[1] * 0x10000int + s[2] * 0x100int + s[3],
{
    let s3 = s.drop_last();
    let s2 = s3.drop_last();
    let s1 = s2.drop_last();
    let s0 = s1.drop_last();
    assert(s0 =~= Seq::<u8>::empty());
    assert(s3.last() == s[2] && s2.last() == s[1] && s1.last() == s[0]);
    reveal_with_fuel(big_endian, 5);
}

proof fn lemma_big_endian_8(s: Seq<u8>)
    requires
        s.len() == 8,
    ensures
        big_endian(s) == big_endian(s.subrange(0, 4)) * 0x100000000int + big_endian(s.subrange(4, 8)),
{
    assert(s =~= s.subrange(0, 4) + s.subrange(4, 8));
    lemma_big_endian_append(s.subrange(0, 4), s.subrange(4, 8));
    reveal_with_fuel(pow256, 5);
}

proof fn lemma_be32_value_big_endian(s: Seq<u8>)
    requires
        s.len() == 4,
    ensures
        be32_value(s) == big_endian(s),
{
    lemma_big_endian_4(s);
    let (a, b, c, d) = (s[0], s[1], s[2], s[3]);
    assert(((a as u32) << 24u32) | ((b as u32) << 16u32) | ((c as u32) << 8u32) | (d as u32) == a
        * 0x1000000int + b * 0x10000int + c * 0x100int + d) by (bit_vector);
}

proof fn lemma_be64_value_big_endian(s: Seq<u8>)
    requires
        s.len() == 8,
    ensures
        be64_value(s) == big_endian(s),
{
    lemma_big_endian_8(s);
    lemma_big_endian_4(s.subrange(0, 4));
    lemma_big_endian_4(s.subrange(4, 8));
    let (a, b, c, d, e, f, g, h) = (s[0], s[1], s[2], s[3], s[4], s[5], s[6], s[7]);
    assert(s.subrange(4, 8)[0] == e && s.subrange(4, 8)[3] == h);
    assert(((a as u64) << 56u64) | ((b as u64) << 48u64) | ((c as u64) << 40u64) | ((d as u64) << 32u64)
        | ((e as u64) << 24u64) | ((f as u64) << 16u64) | ((g as u64) << 8u64) | (h as u64) == (a
        * 0x1000000int + b * 0x10000int + c * 0x100int + d) * 0x100000000int + (e * 0x1000000int + f
        * 0x10000int + g * 0x100int + h)) by (bit_vector);
}

proof fn lemma_be128_value_big_endian(s: Seq<u8>)
    requires
        s.len() == 16,
    ensures
        be128_value(s) == big_endian(s),
{
    let hi = s.subrange(0, 8);
    let lo = s.subrange(8, 16);
    assert(s =~= hi + lo);
    lemma_big_endian_append(hi, lo);
    reveal_with_fuel(pow256, 9);
    lemma_be64_value_big_endian(hi);
    lemma_be64_value_big_endian(lo);
    let x = be64_value(hi);
    let y = be64_value(lo);
    assert(((x as u128) << 64u128) | (y as u128) == x * 0x10000000000000000int + y) by (bit_vector);
}

/// An encoded frame follows the documented layout: the magic bytes `SRP1`,
/// version 1, the payload length, the session id, stream id, sequence
/// number and lease epoch, and the token count (all-ones when absent) as
/// big-endian numbers at offsets 6, 10, 26, 34, 42 and 50, the payload from
/// offset 58, and then, for a frame with a trace context, its length as a
/// 4-byte big-endian number and its UTF-8 bytes.
pub proof fn lemma_encoded_layout(max: usize, f: FrameView)
    requires
        encode_outcome(max, f) is Ok,
    ensures
        ({
            let b = encode_outcome(max, f)->Ok_0;
            let p = payload_of(f.kind);
            let end: int = 58 + p.len() as int;
            &&& b.len() >= end
            &&& b[0] == 0x53 && b[1] == 0x52 && b[2] == 0x50 && b[3] == 0x31
            &&& b[4] == 1
            &&& big_endian(b.subrange(6, 10)) == p.len()
            &&& big_endian(b.subrange(10, 26)) == f.session_id
            &&& big_endian(b.subrange(26, 34)) == f.stream_id
            &&& big_endian(b.subrange(34, 42)) == f.seq
            &&& big_endian(b.subrange(42, 50)) == f.lease_epoch
            &&& (f.token_count matches Some(n) ==> big_endian(b.subrange(50, 58)) == n)
            &&& (f.token_count is None ==> big_endian(b.subrange(50, 58)) == 0xffff_ffff_ffff_ffffu64)
            &&& b.subrange(58, end) == p
            &&& (f.trace_context is None ==> b.len() == end)
            &&& (f.trace_context matches Some(t) ==> {
                &&& b.len() == end + 4 + encode_utf8(t).len()
                &&& big_endian(b.subrange(end, end + 4)) == encode_utf8(t).len()
                &&& b.subrange(end + 4, b.len() as int) == encode_utf8(t)
            })
        }),
{
    let p = payload_of(f.kind);
    let h = encoded_header(f);
    let b = encoded_frame(f);
    let end: int = 58 + p.len() as int;
    assert(b == h + p + trace_section(f.trace_context));
    lemma_header_layout(f);
    assert(b.subrange(0, 58) =~= h);
    lemma_prefix_subrange(b, h, 0, 4);
    lemma_prefix_subrange(b, h, 6, 10);
    lemma_prefix_subrange(b, h, 10, 26);
    lemma_prefix_subrange(b, h, 26, 34);
    lemma_prefix_subrange(b, h, 34, 42);
    lemma_prefix_subrange(b, h, 42, 50);
    lemma_prefix_subrange(b, h, 50, 58);
    assert(b[0] == b.subrange(0, 4)[0] && b[1] == b.subrange(0, 4)[1] && b[2] == b.subrange(0, 4)[2]
        && b[3] == b.subrange(0, 4)[3]);
    assert(b[4] == h[4]);
    lemma_big_endian_be32(p.len() as u32);
    lemma_big_endian_be128(f.session_id);
    lemma_big_endian_be64(f.stream_id);
    lemma_big_endian_be64(f.seq);
    lemma_big_endian_be64(f.lease_epoch);
    lemma_big_endian_be64(token_field(f.token_count));
    assert(b.subrange(58, end) =~= p);
    if let Some(t) = f.trace_context {
        let tb = encode_utf8(t);
        assert(b.subrange(end, end + 4) =~= be32(tb.len() as u32));
        lemma_big_endian_be32(tb.len() as u32);
        assert(b.subrange(end + 4, b.len() as int) =~= tb);
    }
}

/// Decoding follows the documented checks, in order: fewer than 58 bytes
/// is a truncated header; then bytes other than `SRP1` first are bad
/// magic; then a version byte other than 1 is unsupported; then a payload
/// length (the big-endian number at offset 6) above the limit is too large;
/// then fewer bytes than the header and payload is a truncated frame; then
/// a kind byte above 4 is unknown.  Any other input decodes, and the frame
/// holds the session id, stream id, sequence number and lease epoch read
/// big-endian at offsets 10, 26, 34 and 42, the payload from offset 58 for
/// a data frame, and, for a data frame only, the token count at offset 50
/// unless it is all-ones.
pub proof fn lemma_decode_documented(max: usize, b: Seq<u8>)
    ensures
        ({
            let r = decode_outcome(max, b);
            let n = b.len();
            let magic_ok = n >= 4 && b[0] == 0x53 && b[1] == 0x52 && b[2] == 0x50 && b[3] == 0x31;
            let plen = big_endian(b.subrange(6, 10));
            let needed = 58 + plen;
            &&& (n < 58 ==> r == Err::<FrameView, SessionRpcError>(
                SessionRpcError::TruncatedFrame { needed: 58, actual: n as usize },
            ))
            &&& (n >= 58 && !magic_ok ==> r == Err::<FrameView, SessionRpcError>(
                SessionRpcError::InvalidFrameMagic,
            ))
            &&& (n >= 58 && magic_ok && b[4] != 1 ==> r == Err::<FrameView, SessionRpcError>(
                SessionRpcError::UnsupportedFrameVersion { supported: 1, actual: b[4] },
            ))
            &&& (n >= 58 && magic_ok && b[4] == 1 && plen > max ==> r == Err::<
                FrameView,
                SessionRpcError,
            >(SessionRpcError::FrameTooLarge(plen as usize)))
            &&& (n >= 58 && magic_ok && b[4] == 1 && plen <= max && n < needed ==> r == Err::<
                FrameView,
                SessionRpcError,
            >(SessionRpcError::TruncatedFrame { needed: needed as usize, actual: n as usize }))
            &&& (n >= 58 && magic_ok && b[4] == 1 && plen <= max && n >= needed && b[5] > 4 ==> r
                == Err::<FrameView, SessionRpcError>(SessionRpcError::UnknownFrameKind(b[5])))
            &&& (n >= 58 && magic_ok && b[4] == 1 && plen <= max && n >= needed && b[5] <= 4 ==> {
                &&& r is Ok
                &&& r->Ok_0.session_id == big_endian(b.subrange(10, 26))
                &&& r->Ok_0.stream_id == big_endian(b.subrange(26, 34))
                &&& r->Ok_0.seq == big_endian(b.subrange(34, 42))
                &&& r->Ok_0.lease_epoch == big_endian(b.subrange(42, 50))
                &&& (b[5] == 0 ==> r->Ok_0.kind == KindView::Data(b.subrange(58, needed as int)))
                &&& (b[5] == 0 && big_endian(b.subrange(50, 58)) != 0xffff_ffff_ffff_ffffu64
                    ==> r->Ok_0.token_count == Some(big_endian(b.subrange(50, 58)) as u64))
                &&& (b[5] != 0 || big_endian(b.subrange(50, 58)) == 0xffff_ffff_ffff_ffffu64
                    ==> r->Ok_0.token_count is None)
            })
        }),
{
    if b.len() >= 58 {
        let m = b.subrange(0, 4);
        assert(m[0] == b[0] && m[1] == b[1] && m[2] == b[2] && m[3] == b[3]);
        if b[0] == 0x53 && b[1] == 0x52 && b[2] == 0x50 && b[3] == 0x31 {
            assert(m =~= magic());
        }
        lemma_be32_value_big_endian(b.subrange(6, 10));
        lemma_be128_value_big_endian(b.subrange(10, 26));
        lemma_be64_value_big_endian(b.subrange(26, 34));
        lemma_be64_value_big_endian(b.subrange(34, 42));
        lemma_be64_value_big_endian(b.subrange(42, 50));
        lemma_be64_value_big_endian(b.subrange(50, 58));
    }
}

/// Identifiers and numbers travel big-endian: the 16, 8 and 4 bytes written
/// for a value spell that value in base 256, most significant first, and
/// reading 16, 8 or 4 bytes gives the number they spell.
pub proof fn lemma_integers_are_big_endian(x: u128, y: u64, z: u32, s: Seq<u8>)
    ensures
        big_endian(be128(x)) == x,
        big_endian(be64(y)) == y,
        big_endian(be32(z)) == z,
        s.len() == 16 ==> be128_value(s) == big_endian(s),
        s.len() == 8 ==> be64_value(s) == big_endian(s),
        s.len() == 4 ==> be32_value(s) == big_endian(s),
{
    lemma_big_endian_be128(x);
    lemma_big_endian_be64(y);
    lemma_big_endian_be32(z);
    if s.len() == 16 {
        lemma_be128_value_big_endian(s);
    }
    if s.len() == 8 {
        lemma_be64_value_big_endian(s);
    }
    if s.len() == 4 {
        lemma_be32_value_big_endian(s);
    }
}

} // verus!
