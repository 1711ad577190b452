//! The decisions of one connection: handshake first, then framing until the
//! peer closes or something fails. The caller performs the reads and writes.

use vstd::prelude::*;
use crate::header::{HeaderError, header_result, parse_amqp_header};
use crate::decoder::{FeedOutcome, FrameDecoder, Scan, frame_models, scan};

verus! {

/// Where a connection stands.
#[derive(Debug, Clone, Copy, PartialEq, Eq, Structural)]
pub enum SessionState {
    /// The protocol header has not been read yet.
    AwaitingHeader,
    /// The handshake succeeded; reads are decoded into frames.
    FramingLoop,
    /// The peer closed the connection.
    Closed,
    /// The handshake, a frame or the transport failed.
    Failed,
}

/// One connection's state and its decoder.
pub struct Session {
    state: SessionState,
    decoder: FrameDecoder,
}

/// What feeding `bytes` to `d` decodes: a scan of its buffer followed by the bytes.
pub open spec fn scan_of(d: FrameDecoder, bytes: Seq<u8>) -> Scan {
    scan(d.buffered() + bytes, d.max_payload())
}

impl Session {
    /// The state of the connection.
    pub closed spec fn state_of(&self) -> SessionState {
        self.state
    }

    /// The decoder that frames this connection's stream.
    pub closed spec fn decoder_of(&self) -> FrameDecoder {
        self.decoder
    }

    /// While the session is active, its decoder has not failed.
    pub closed spec fn wf(&self) -> bool {
        (self.state == SessionState::AwaitingHeader || self.state == SessionState::FramingLoop)
            ==> self.decoder.failure() is None
    }

    /// A session waiting for the protocol header, with a fresh decoder that
    /// accepts payloads up to `max_payload` bytes.
    pub fn new(max_payload: u32) -> (s: Self)
        ensures
            s.wf(),
            s.state_of() == SessionState::AwaitingHeader,
            s.decoder_of().buffered() == Seq::<u8>::empty(),
            s.decoder_of().max_payload() == max_payload,
            s.decoder_of().failure() is None,
    {
        Session { state: SessionState::AwaitingHeader, decoder: FrameDecoder::with_max_payload(max_payload) }
    }

    /// The state of the connection.
    pub fn state(&self) -> (st: SessionState)
        ensures
            st == self.state_of(),
    {
        self.state
    }

    /// How many bytes the decoder holds.
    pub fn buffered_len(&self) -> (n: usize)
        ensures
            n == self.decoder_of().buffered().len(),
    {
        self.decoder.buffered_len()
    }

    /// Handles the header bytes read from the peer: framing begins if they
    /// are the protocol header, and the session fails otherwise.
    pub fn on_header(&mut self, bytes: &[u8]) -> (r: Result<(), HeaderError>)
        requires
            old(self).wf(),
            old(self).state_of() == SessionState::AwaitingHeader,
        ensures
            final(self).wf(),
            r == header_result(bytes@),
            final(self).state_of() == (if r is Ok { SessionState::FramingLoop } else { SessionState::Failed }),
            final(self).decoder_of() == old(self).decoder_of(),
    {
        let r = parse_amqp_header(bytes);
        match r {
            Ok(()) => {
                self.state = SessionState::FramingLoop;
            },
            Err(_) => {
                self.state = SessionState::Failed;
            },
        }
        r
    }

    /// Handles the bytes of one read. An empty read means the peer closed the
    /// connection. Otherwise the bytes are decoded; every frame completed is
    /// returned in order, and a decode error fails the session.
    pub fn on_read(&mut self, bytes: &[u8]) -> (out: FeedOutcome)
        requires
            old(self).wf(),
            old(self).state_of() == SessionState::FramingLoop,
            old(self).decoder_of().buffered().len() + bytes@.len() <= usize::MAX,
        ensures
            final(self).wf(),
            bytes@.len() == 0 ==> {
                &&& final(self).state_of() == SessionState::Closed
                &&& out.frames@.len() == 0
                &&& out.error is None
                &&& final(self).decoder_of() == old(self).decoder_of()
            },
            bytes@.len() > 0 ==> {
                let sc = scan_of(old(self).decoder_of(), bytes@);
                &&& frame_models(out.frames@) == sc.frames
                &&& out.error == sc.error
                &&& final(self).decoder_of().buffered() == sc.rest
                &&& final(self).decoder_of().failure() == sc.error
                &&& final(self).decoder_of().max_payload() == old(self).decoder_of().max_payload()
                &&& final(self).state_of() == (if sc.error is Some {
                    SessionState::Failed
                } else {
                    SessionState::FramingLoop
                })
            },
    {
        if bytes.len() == 0 {
            self.state = SessionState::Closed;
            return FeedOutcome { frames: Vec::new(), error: None };
        }
        let out = self.decoder.feed(bytes);
        if out.error.is_some() {
            self.state = SessionState::Failed;
        }
        out
    }

    /// Records a failed read or write: an active session fails, a finished
    /// one stays as it is.
    pub fn on_transport_error(&mut self)
        requires
            old(self).wf(),
        ensures
            final(self).wf(),
            final(self).decoder_of() == old(self).decoder_of(),
            final(self).state_of() == (match old(self).state_of() {
                SessionState::Closed => SessionState::Closed,
                _ => SessionState::Failed,
            }),
    {
        if self.state != SessionState::Closed {
            self.state = SessionState::Failed;
        }
    }
}

} // verus!
