//! Incremental decoding of a byte stream into frames.

use vstd::prelude::*;
use vstd::slice::{slice_subrange, slice_to_vec};
use crate::frame::{
    AmqpFrame, Extract, FrameError, FrameModel, decode_frame_at, extract, frame_bytes,
    frame_bytes_ending, lemma_bad_terminator, FRAME_END,
    frame_result_matches, lemma_extract_shape, lemma_frame_bytes_len, lemma_frame_round_trip, payload_len_of,
    FRAME_PREFIX_LEN, MAX_PAYLOAD_LEN,
};

verus! {

/// What scanning a byte sequence from its start yields: the frames decoded in
/// order, the bytes left after the last of them, and the error that stopped
/// the scan, if one did.
pub struct Scan {
    pub frames: Seq<FrameModel>,
    pub rest: Seq<u8>,
    pub error: Option<FrameError>,
}

/// Takes frames from the front of `s` until it runs short of bytes or meets
/// a frame that can never become valid.
pub open spec fn scan(s: Seq<u8>, max: u32) -> Scan
    decreases s.len(),
{
    match extract(s, max) {
        Extract::NeedMore => Scan { frames: Seq::empty(), rest: s, error: None },
        Extract::Fail { error } => Scan { frames: Seq::empty(), rest: s, error: Some(error) },
        Extract::Done { frame, consumed } => {
            if 0 < consumed <= s.len() {
                let tail = scan(s.subrange(consumed as int, s.len() as int), max);
                Scan { frames: seq![frame].add(tail.frames), rest: tail.rest, error: tail.error }
            } else {
                Scan { frames: Seq::empty(), rest: s, error: None }
            }
        },
    }
}

/// Once the front of `a` decides (a frame or an error), bytes appended after
/// `a` do not change that decision.
proof fn lemma_extract_prefix(a: Seq<u8>, b: Seq<u8>, max: u32)
    requires
        !(extract(a, max) is NeedMore),
    ensures
        extract(a + b, max) == extract(a, max),
{
    let s = a + b;
    assert(s.subrange(3, 7) =~= a.subrange(3, 7));
    let n = payload_len_of(a) as int;
    if n <= max && a.len() >= FRAME_PREFIX_LEN + n + 1 {
        assert(s.subrange(1, 3) =~= a.subrange(1, 3));
        assert(s.subrange(7, 7 + n) =~= a.subrange(7, 7 + n));
        assert(s[7 + n] == a[7 + n]);
    }
}

/// Scanning `a + b` decodes the frames of `a`, then continues from what `a`
/// left over followed by `b`; if `a` stopped at an error, so does `a + b`.
pub proof fn lemma_scan_append(a: Seq<u8>, b: Seq<u8>, max: u32)
    ensures
        scan(a, max).error is None ==> {
            let t = scan(scan(a, max).rest + b, max);
            &&& scan(a + b, max).frames == scan(a, max).frames + t.frames
            &&& scan(a + b, max).rest == t.rest
            &&& scan(a + b, max).error == t.error
        },
        scan(a, max).error is Some ==> {
            &&& scan(a + b, max).frames == scan(a, max).frames
            &&& scan(a + b, max).error == scan(a, max).error
        },
    decreases a.len(),
{
    lemma_extract_shape(a, max);
    match extract(a, max) {
        Extract::NeedMore => {
            assert(Seq::<FrameModel>::empty() + scan(a + b, max).frames =~= scan(a + b, max).frames);
        },
        Extract::Fail { error } => {
            lemma_extract_prefix(a, b, max);
        },
        Extract::Done { frame, consumed } => {
            lemma_extract_prefix(a, b, max);
            lemma_extract_shape(a + b, max);
            let a2 = a.subrange(consumed as int, a.len() as int);
            assert((a + b).subrange(consumed as int, (a + b).len() as int) =~= a2 + b);
            lemma_scan_append(a2, b, max);
            if scan(a2, max).error is None {
                let t = scan(scan(a2, max).rest + b, max);
                assert(seq![frame] + (scan(a2, max).frames + t.frames)
                    =~= (seq![frame] + scan(a2, max).frames) + t.frames);
            }
        },
    }
}

/// The bytes that a scan leaves over hold no complete frame and no error.
pub proof fn lemma_scan_rest_pending(s: Seq<u8>, max: u32)
    requires
        scan(s, max).error is None,
    ensures
        scan(scan(s, max).rest, max).frames.len() == 0,
        scan(scan(s, max).rest, max).rest == scan(s, max).rest,
        scan(scan(s, max).rest, max).error is None,
    decreases s.len(),
{
    lemma_extract_shape(s, max);
    if let Extract::Done { frame, consumed } = extract(s, max) {
        lemma_scan_rest_pending(s.subrange(consumed as int, s.len() as int), max);
    }
}

/// What a decoder whose buffer holds `buffer` hands back, in all, when fed
/// `chunks` one after another: the frames and error of each feed, and the
/// bytes it holds at the end. After an error it takes no more input.
pub open spec fn decode_chunks(buffer: Seq<u8>, chunks: Seq<Seq<u8>>, max: u32) -> Scan
    decreases chunks.len(),
{
    if chunks.len() == 0 {
        Scan { frames: Seq::empty(), rest: buffer, error: None }
    } else {
        let first = scan(buffer + chunks[0], max);
        if first.error is Some {
            first
        } else {
            let tail = decode_chunks(first.rest, chunks.drop_first(), max);
            Scan { frames: first.frames + tail.frames, rest: tail.rest, error: tail.error }
        }
    }
}

/// Chunk boundaries do not matter: feeding a stream in any chunks, one byte
/// at a time included, yields the same frames and the same error as feeding
/// it whole, and, without an error, leaves the same bytes buffered.
pub proof fn lemma_chunk_independence(buffer: Seq<u8>, chunks: Seq<Seq<u8>>, max: u32)
    requires
        scan(buffer, max).frames.len() == 0,
        scan(buffer, max).error is None,
    ensures
        decode_chunks(buffer, chunks, max).frames == scan(buffer + chunks.flatten(), max).frames,
        decode_chunks(buffer, chunks, max).error == scan(buffer + chunks.flatten(), max).error,
        decode_chunks(buffer, chunks, max).error is None
            ==> decode_chunks(buffer, chunks, max).rest == scan(buffer + chunks.flatten(), max).rest,
    decreases chunks.len(),
{
    lemma_extract_shape(buffer, max);
    if chunks.len() == 0 {
        assert(buffer + chunks.flatten() =~= buffer);
    } else {
        let c = chunks[0];
        let cs = chunks.drop_first();
        let first = scan(buffer + c, max);
        assert(buffer + chunks.flatten() =~= (buffer + c) + cs.flatten());
        lemma_scan_append(buffer + c, cs.flatten(), max);
        if first.error is None {
            lemma_scan_rest_pending(buffer + c, max);
            lemma_chunk_independence(first.rest, cs, max);
            assert(first.frames + Seq::<FrameModel>::empty() =~= first.frames);
        }
    }
}

/// While the buffer is shorter than a frame prefix, or than the whole frame
/// that its prefix announces, no frame is decoded and no byte is dropped; and
/// unless the announced payload is over the limit, there is no error.
pub proof fn lemma_suspension(s: Seq<u8>, max: u32)
    requires
        s.len() < FRAME_PREFIX_LEN || s.len() < FRAME_PREFIX_LEN + payload_len_of(s) + 1,
    ensures
        scan(s, max).frames.len() == 0,
        scan(s, max).rest == s,
        (s.len() < FRAME_PREFIX_LEN || payload_len_of(s) <= max) ==> scan(s, max).error is None,
{
}

proof fn lemma_scan_done(s: Seq<u8>, max: u32)
    requires
        extract(s, max) is Done,
    ensures
        ({
            let t = scan(s.subrange(extract(s, max)->consumed as int, s.len() as int), max);
            &&& scan(s, max).frames == seq![extract(s, max)->frame] + t.frames
            &&& scan(s, max).rest == t.rest
            &&& scan(s, max).error == t.error
        }),
{
    lemma_extract_shape(s, max);
}

/// A valid frame at the front of a stream is decoded first, and the scan
/// goes on from the byte after its terminator.
pub proof fn lemma_scan_frame(f: FrameModel, more: Seq<u8>, max: u32)
    requires
        f.payload.len() <= max,
    ensures
        scan(frame_bytes(f) + more, max).frames == seq![f] + scan(more, max).frames,
        scan(frame_bytes(f) + more, max).rest == scan(more, max).rest,
        scan(frame_bytes(f) + more, max).error == scan(more, max).error,
{
    let s = frame_bytes(f) + more;
    let n = f.payload.len() + 8;
    lemma_frame_round_trip(f, more, max);
    lemma_frame_bytes_len(f);
    lemma_scan_done(s, max);
    assert(s.subrange(n as int, s.len() as int) =~= more);
}

/// Two valid frames back to back are both decoded, in order, by one scan,
/// which leaves nothing over.
pub proof fn lemma_two_frames(f: FrameModel, g: FrameModel, max: u32)
    requires
        f.payload.len() <= max,
        g.payload.len() <= max,
    ensures
        scan(frame_bytes(f) + frame_bytes(g), max).frames == seq![f, g],
        scan(frame_bytes(f) + frame_bytes(g), max).rest == Seq::<u8>::empty(),
        scan(frame_bytes(f) + frame_bytes(g), max).error is None,
{
    let e = Seq::<u8>::empty();
    lemma_scan_frame(f, frame_bytes(g), max);
    lemma_scan_frame(g, e, max);
    assert(frame_bytes(g) + e =~= frame_bytes(g));
    assert(extract(e, max) is NeedMore);
    assert(seq![f] + (seq![g] + Seq::<FrameModel>::empty()) =~= seq![f, g]);
}

/// A frame whose terminator is not the frame-end marker stops the scan with
/// a bad-terminator error, and no frame is decoded.
pub proof fn lemma_scan_bad_terminator(frame_type: u8, channel: u16, payload: Seq<u8>, end: u8, more: Seq<u8>, max: u32)
    requires
        payload.len() <= max,
        end != FRAME_END,
    ensures
        scan(frame_bytes_ending(frame_type, channel, payload, end) + more, max).frames.len() == 0,
        scan(frame_bytes_ending(frame_type, channel, payload, end) + more, max).error
            == Some(FrameError::BadTerminator { found: end }),
{
    lemma_bad_terminator(frame_type, channel, payload, end, more, max);
}

/// A stream cut into chunks of one byte each.
pub open spec fn single_bytes(s: Seq<u8>) -> Seq<Seq<u8>> {
    Seq::new(s.len(), |i: int| seq![s[i]])
}

proof fn lemma_single_bytes_flatten(s: Seq<u8>)
    ensures
        single_bytes(s).flatten() == s,
    decreases s.len(),
{
    if s.len() > 0 {
        lemma_single_bytes_flatten(s.drop_first());
        assert(single_bytes(s).drop_first() =~= single_bytes(s.drop_first()));
        assert(seq![s[0]] + s.drop_first() =~= s);
    } else {
        assert(s =~= Seq::<u8>::empty());
    }
}

/// Feeding a stream one byte at a time to a fresh decoder yields the same
/// frames and the same error as feeding it all at once.
pub proof fn lemma_byte_at_a_time(s: Seq<u8>, max: u32)
    ensures
        decode_chunks(Seq::empty(), single_bytes(s), max).frames
            == decode_chunks(Seq::empty(), seq![s], max).frames,
        decode_chunks(Seq::empty(), single_bytes(s), max).error
            == decode_chunks(Seq::empty(), seq![s], max).error,
{
    let e = Seq::<u8>::empty();
    assert(extract(e, max) is NeedMore);
    lemma_single_bytes_flatten(s);
    lemma_chunk_independence(e, single_bytes(s), max);
    lemma_chunk_independence(e, seq![s], max);
    assert(seq![s].drop_first() =~= Seq::<Seq<u8>>::empty());
    assert(seq![s].flatten() =~= s) by {
        assert(seq![s].drop_first().flatten() =~= Seq::<u8>::empty());
    }
}

/// The models of a sequence of frames.
pub open spec fn frame_models(v: Seq<AmqpFrame>) -> Seq<FrameModel> {
    v.map_values(|f: AmqpFrame| f@)
}

/// What one feed hands back: the frames completed by it, in stream order, and
/// the error that stopped decoding, if any.
pub struct FeedOutcome {
    pub frames: Vec<AmqpFrame>,
    pub error: Option<FrameError>,
}

/// A per-connection decoder: holds the bytes not yet part of a complete
/// frame, and once a frame fails it refuses all further input.
pub struct FrameDecoder {
    buffer: Vec<u8>,
    max_payload: u32,
    failure: Option<FrameError>,
}

impl FrameDecoder {
    /// The bytes received but not yet consumed by a complete frame.
    pub closed spec fn buffered(&self) -> Seq<u8> {
        self.buffer@
    }

    /// The largest payload length that this decoder accepts.
    pub closed spec fn max_payload(&self) -> u32 {
        self.max_payload
    }

    /// The error that stopped this decoder, if one has.
    pub closed spec fn failure(&self) -> Option<FrameError> {
        self.failure
    }

    /// A decoder with an empty buffer that accepts payloads up to `max_payload` bytes.
    pub fn with_max_payload(max_payload: u32) -> (d: Self)
        ensures
            d.buffered() == Seq::<u8>::empty(),
            d.max_payload() == max_payload,
            d.failure() is None,
    {
        FrameDecoder { buffer: Vec::new(), max_payload, failure: None }
    }

    /// A decoder with an empty buffer and the default payload limit.
    pub fn new() -> (d: Self)
        ensures
            d.buffered() == Seq::<u8>::empty(),
            d.max_payload() == MAX_PAYLOAD_LEN,
            d.failure() is None,
    {
        Self::with_max_payload(MAX_PAYLOAD_LEN)
    }

    /// How many bytes are buffered.
    pub fn buffered_len(&self) -> (n: usize)
        ensures
            n == self.buffered().len(),
    {
        self.buffer.len()
    }

    /// The error that stopped this decoder, if one has.
    pub fn error(&self) -> (e: Option<FrameError>)
        ensures
            e == self.failure(),
    {
        self.failure
    }

    /// Appends `chunk` to the buffer and takes every complete frame from it.
    /// A failed decoder takes nothing and reports its error again.
    pub fn feed(&mut self, chunk: &[u8]) -> (out: FeedOutcome)
        requires
            old(self).failure() is None ==> old(self).buffered().len() + chunk@.len() <= usize::MAX,
        ensures
            final(self).max_payload() == old(self).max_payload(),
            old(self).failure() is Some ==> {
                &&& out.frames@.len() == 0
                &&& out.error == old(self).failure()
                &&& final(self).buffered() == old(self).buffered()
                &&& final(self).failure() == old(self).failure()
            },
            old(self).failure() is None ==> {
                let sc = scan(old(self).buffered() + chunk@, old(self).max_payload());
                &&& frame_models(out.frames@) == sc.frames
                &&& out.error == sc.error
                &&& final(self).buffered() == sc.rest
                &&& final(self).failure() == sc.error
            },
    {
        if self.failure.is_some() {
            return FeedOutcome { frames: Vec::new(), error: self.failure };
        }
        let ghost start = self.buffer@;
        let mut i: usize = 0;
        while i < chunk.len()
            invariant
                i <= chunk@.len(),
                start.len() + chunk@.len() <= usize::MAX,
                self.max_payload == old(self).max_payload,
                self.failure is None,
                self.buffer@ == start + chunk@.subrange(0, i as int),
            decreases chunk@.len() - i,
        {
            self.buffer.push(chunk[i]);
            i += 1;
            assert(self.buffer@ =~= start + chunk@.subrange(0, i as int));
        }
        assert(chunk@.subrange(0, chunk@.len() as int) =~= chunk@);
        let ghost whole = self.buffer@;
        let max = self.max_payload;
        let mut frames: Vec<AmqpFrame> = Vec::new();
        let mut error: Option<FrameError> = None;
        let mut pos: usize = 0;
        assert(whole.subrange(0, whole.len() as int) =~= whole);
        loop
            invariant_except_break
                error is None,
            invariant
                whole == self.buffer@,
                max == self.max_payload,
                max == old(self).max_payload,
                self.failure is None,
                pos <= whole.len(),
                whole.len() <= usize::MAX,
                frame_models(frames@) + scan(whole.subrange(pos as int, whole.len() as int), max).frames
                    == scan(whole, max).frames,
                scan(whole.subrange(pos as int, whole.len() as int), max).rest == scan(whole, max).rest,
                scan(whole.subrange(pos as int, whole.len() as int), max).error == scan(whole, max).error,
            ensures
                pos <= whole.len(),
                scan(whole.subrange(pos as int, whole.len() as int), max).frames.len() == 0,
                scan(whole.subrange(pos as int, whole.len() as int), max).rest
                    == whole.subrange(pos as int, whole.len() as int),
                scan(whole.subrange(pos as int, whole.len() as int), max).error == error,
            decreases whole.len() - pos,
        {
            let ghost sub = whole.subrange(pos as int, whole.len() as int);
            proof {
                lemma_extract_shape(sub, max);
            }
            let r = decode_frame_at(self.buffer.as_slice(), pos, max);
            assert(frame_result_matches(sub, max, r));
            match r {
                Ok((frame, n)) => {
                    assert(n <= sub.len());
                    let ghost next = sub.subrange(n as int, sub.len() as int);
                    assert(next =~= whole.subrange(pos + n, whole.len() as int));
                    assert(frame_models(frames@.push(frame)) =~= frame_models(frames@).push(frame@));
                    frames.push(frame);
                    pos = pos + n;
                },
                Err(e) => {
                    assert(frame_models(frames@) =~= scan(whole, max).frames);
                    if e != FrameError::Incomplete {
                        error = Some(e);
                    }
                    break;
                },
            }
        }
        self.failure = error;
        self.buffer = slice_to_vec(slice_subrange(self.buffer.as_slice(), pos, self.buffer.len()));
        FeedOutcome { frames, error }
    }
}

} // verus!
