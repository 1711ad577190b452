//! One frame on the wire: `[type][channel: u16 BE][length: u32 BE][payload][0xCE]`.

use vstd::prelude::*;
use vstd::slice::{slice_subrange, slice_to_vec};
use crate::wire::{be_u16_of, be_u32_of, read_be_u16, read_be_u32};

verus! {

/// Bytes before the payload: type (1), channel (2) and payload length (4).
pub const FRAME_PREFIX_LEN: usize = 7;

/// The byte that must follow every payload.
pub const FRAME_END: u8 = 0xCE;

/// The largest payload that the decoder buffers unless told otherwise.
pub const MAX_PAYLOAD_LEN: u32 = 1048576;

/// A decoded frame.
#[derive(Debug)]
pub struct AmqpFrame {
    pub frame_type: u8,
    pub channel: u16,
    pub payload: Vec<u8>,
}

/// The mathematical value of a frame.
pub struct FrameModel {
    pub frame_type: u8,
    pub channel: u16,
    pub payload: Seq<u8>,
}

impl View for AmqpFrame {
    type V = FrameModel;

    open spec fn view(&self) -> FrameModel {
        FrameModel { frame_type: self.frame_type, channel: self.channel, payload: self.payload@ }
    }
}

/// Why no frame could be taken from the front of a byte sequence.
#[derive(Debug, Clone, Copy, PartialEq, Eq, Structural)]
pub enum FrameError {
    /// More bytes are needed; nothing is wrong yet.
    Incomplete,
    /// The byte after the payload is `found`, not the frame-end marker.
    BadTerminator { found: u8 },
    /// The length field announces `len` bytes, more than the decoder accepts.
    PayloadTooLarge { len: u32 },
}

/// What the front of a byte sequence holds.
pub enum Extract {
    /// Not enough bytes to decide.
    NeedMore,
    /// A complete, valid frame occupying the first `consumed` bytes.
    Done { frame: FrameModel, consumed: nat },
    /// A frame that can never become valid.
    Fail { error: FrameError },
}

/// The payload length announced by a frame prefix.
pub open spec fn payload_len_of(s: Seq<u8>) -> nat {
    be_u32_of(s.subrange(3, 7))
}

/// Decodes the frame at the front of `s`, with payloads above `max` refused.
pub open spec fn extract(s: Seq<u8>, max: u32) -> Extract {
    if s.len() < FRAME_PREFIX_LEN {
        Extract::NeedMore
    } else if payload_len_of(s) > max {
        Extract::Fail { error: FrameError::PayloadTooLarge { len: payload_len_of(s) as u32 } }
    } else if s.len() < FRAME_PREFIX_LEN + payload_len_of(s) + 1 {
        Extract::NeedMore
    } else if s[FRAME_PREFIX_LEN + payload_len_of(s)] != FRAME_END {
        Extract::Fail { error: FrameError::BadTerminator { found: s[FRAME_PREFIX_LEN + payload_len_of(s)] } }
    } else {
        Extract::Done {
            frame: FrameModel {
                frame_type: s[0],
                channel: be_u16_of(s.subrange(1, 3)) as u16,
                payload: s.subrange(FRAME_PREFIX_LEN as int, FRAME_PREFIX_LEN + payload_len_of(s)),
            },
            consumed: (FRAME_PREFIX_LEN + payload_len_of(s) + 1) as nat,
        }
    }
}

/// A complete frame occupies a non-empty prefix of the input, and an invalid
/// one is never reported as merely incomplete.
pub proof fn lemma_extract_shape(s: Seq<u8>, max: u32)
    ensures
        extract(s, max) matches Extract::Done { consumed, .. } ==> 0 < consumed <= s.len(),
        extract(s, max) matches Extract::Fail { error } ==> error != FrameError::Incomplete,
{
}

/// The two bytes of `v` in big-endian order.
pub open spec fn be_u16_bytes(v: u16) -> Seq<u8> {
    seq![(v / 256) as u8, (v % 256) as u8]
}

/// The four bytes of `v` in big-endian order.
pub open spec fn be_u32_bytes(v: u32) -> Seq<u8> {
    seq![(v / 16777216) as u8, ((v / 65536) % 256) as u8, ((v / 256) % 256) as u8, (v % 256) as u8]
}

/// The wire form of a frame whose payload is followed by the byte `end`.
pub open spec fn frame_bytes_ending(frame_type: u8, channel: u16, payload: Seq<u8>, end: u8) -> Seq<u8> {
    seq![frame_type] + be_u16_bytes(channel) + be_u32_bytes(payload.len() as u32) + payload + seq![end]
}

/// The wire form of a frame.
pub open spec fn frame_bytes(f: FrameModel) -> Seq<u8> {
    frame_bytes_ending(f.frame_type, f.channel, f.payload, FRAME_END)
}

/// A frame's wire form is its payload and eight more bytes.
pub proof fn lemma_frame_bytes_len(f: FrameModel)
    ensures
        frame_bytes(f).len() == f.payload.len() + 8,
{
}

proof fn lemma_be_u16_round_trip(v: u16)
    ensures
        be_u16_of(be_u16_bytes(v)) == v,
{
    let hi = v / 256;
    let lo = v % 256;
    assert(v == hi * 256 + lo) by (nonlinear_arith)
        requires hi == v / 256, lo == v % 256;
}

proof fn lemma_be_u32_round_trip(v: u32)
    ensures
        be_u32_of(be_u32_bytes(v)) == v,
{
    let b0 = v / 16777216;
    let b1 = (v / 65536) % 256;
    let b2 = (v / 256) % 256;
    let b3 = v % 256;
    assert(((b0 * 256 + b1) * 256 + b2) * 256 + b3 == v) by (nonlinear_arith)
        requires
            b0 == v / 16777216,
            b1 == (v / 65536) % 256,
            b2 == (v / 256) % 256,
            b3 == v % 256,
            0 <= v,
    ;
}

/// A frame whose payload fits the limit decodes, from the front of its wire
/// form and whatever follows it, to exactly that frame.
pub proof fn lemma_frame_round_trip(f: FrameModel, more: Seq<u8>, max: u32)
    requires
        f.payload.len() <= max,
    ensures
        extract(frame_bytes(f) + more, max) == (Extract::Done {
            frame: f,
            consumed: f.payload.len() + 8,
        }),
{
    let s = frame_bytes(f) + more;
    let n = f.payload.len() as int;
    lemma_be_u16_round_trip(f.channel);
    lemma_be_u32_round_trip(n as u32);
    assert(s.subrange(1, 3) =~= be_u16_bytes(f.channel));
    assert(s.subrange(3, 7) =~= be_u32_bytes(n as u32));
    assert(s.subrange(7, 7 + n) =~= f.payload);
    assert(s[7 + n] == FRAME_END);
}

/// A frame whose payload fits the limit but is followed by any byte other
/// than the frame-end marker is rejected as a bad terminator.
pub proof fn lemma_bad_terminator(frame_type: u8, channel: u16, payload: Seq<u8>, end: u8, more: Seq<u8>, max: u32)
    requires
        payload.len() <= max,
        end != FRAME_END,
    ensures
        extract(frame_bytes_ending(frame_type, channel, payload, end) + more, max)
            == (Extract::Fail { error: FrameError::BadTerminator { found: end } }),
{
    let s = frame_bytes_ending(frame_type, channel, payload, end) + more;
    let n = payload.len() as int;
    lemma_be_u32_round_trip(n as u32);
    assert(s.subrange(3, 7) =~= be_u32_bytes(n as u32));
    assert(s[7 + n] == end);
}

/// What a single-frame parse of `s` returns.
pub open spec fn frame_result_matches(s: Seq<u8>, max: u32, r: Result<(AmqpFrame, usize), FrameError>) -> bool {
    match extract(s, max) {
        Extract::NeedMore => r == Err::<(AmqpFrame, usize), FrameError>(FrameError::Incomplete),
        Extract::Fail { error } => r == Err::<(AmqpFrame, usize), FrameError>(error),
        Extract::Done { frame, consumed } => match r {
            Ok((f, n)) => f@ == frame && n == consumed,
            Err(_) => false,
        },
    }
}

/// Decodes the frame that starts at `start` in `buf`, with payloads above `max`
/// refused; on success also returns how many bytes the frame occupies.
pub fn decode_frame_at(buf: &[u8], start: usize, max: u32) -> (r: Result<(AmqpFrame, usize), FrameError>)
    requires
        start <= buf@.len(),
    ensures
        frame_result_matches(buf@.subrange(start as int, buf@.len() as int), max, r),
{
    let s = slice_subrange(buf, start, buf.len());
    if s.len() < FRAME_PREFIX_LEN {
        return Err(FrameError::Incomplete);
    }
    let frame_type = s[0];
    let channel = match read_be_u16(slice_subrange(s, 1, 3)) {
        Some(v) => v,
        None => return Err(FrameError::Incomplete),
    };
    let len = match read_be_u32(slice_subrange(s, 3, 7)) {
        Some(v) => v,
        None => return Err(FrameError::Incomplete),
    };
    assert(len as nat == payload_len_of(s@));
    if len > max {
        return Err(FrameError::PayloadTooLarge { len });
    }
    let plen = len as usize;
    if s.len() - FRAME_PREFIX_LEN <= plen {
        return Err(FrameError::Incomplete);
    }
    let end = s[FRAME_PREFIX_LEN + plen];
    if end != FRAME_END {
        return Err(FrameError::BadTerminator { found: end });
    }
    let payload = slice_to_vec(slice_subrange(s, FRAME_PREFIX_LEN, FRAME_PREFIX_LEN + plen));
    Ok((AmqpFrame { frame_type, channel, payload }, FRAME_PREFIX_LEN + plen + 1))
}

/// Parses one frame from the front of `input`, with payloads above
/// `MAX_PAYLOAD_LEN` refused. Bytes after the frame are ignored.
pub fn parse_amqp_frame(input: &[u8]) -> (r: Result<AmqpFrame, FrameError>)
    ensures
        match extract(input@, MAX_PAYLOAD_LEN) {
            Extract::NeedMore => r == Err::<AmqpFrame, FrameError>(FrameError::Incomplete),
            Extract::Fail { error } => r == Err::<AmqpFrame, FrameError>(error),
            Extract::Done { frame, consumed } => r is Ok && r->Ok_0@ == frame,
        },
{
    assert(input@.subrange(0, input@.len() as int) =~= input@);
    match decode_frame_at(input, 0, MAX_PAYLOAD_LEN) {
        Ok((frame, _)) => Ok(frame),
        Err(e) => Err(e),
    }
}

} // verus!
