//! The incremental frame decoder and the writer of one frame.

use crate::buf::{advance, as_slice, buffered};
use crate::proto::frame::{self, encode_header, Frame, HttpFrame, PartialData};
use crate::proto::{
    ErrorCode, FRAME_ERROR, FRAME_UNEXPECTED, GENERAL_PROTOCOL_ERROR, SETTINGS_ERROR,
};
use crate::streams::{Reset, SendHalf};
use bytes::BytesMut;
use vstd::prelude::*;
use vstd::slice::slice_subrange;
use vstd::std_specs::convert::FromSpecImpl;

verus! {

/// `std::io::Error`, taken as an opaque type: it is carried, never looked
/// into.
#[verifier::external_type_specification]
#[verifier::external_body]
pub struct ExIoError(std::io::Error);

/// Why the frame stream failed.
#[derive(Debug)]
pub enum Error {
    /// The bytes received are no frame.
    Proto(frame::Error),
    /// The transport below failed.
    Io(std::io::Error),
}

impl Error {
    /// The error code that this failure is reported with.
    pub open spec fn spec_code(&self) -> ErrorCode {
        match self {
            Error::Io(_) => ErrorCode(GENERAL_PROTOCOL_ERROR),
            Error::Proto(frame::Error::Settings(_)) => ErrorCode(SETTINGS_ERROR),
            Error::Proto(frame::Error::UnsupportedFrame(_)) => ErrorCode(FRAME_UNEXPECTED),
            Error::Proto(_) => ErrorCode(FRAME_ERROR),
        }
    }

    /// The error code that this failure is reported with, to the peer and to
    /// the layer above.
    #[verifier::when_used_as_spec(spec_code)]
    pub fn code(&self) -> (c: ErrorCode)
        ensures
            c == self.spec_code(),
    {
        match self {
            Error::Io(_) => ErrorCode(GENERAL_PROTOCOL_ERROR),
            Error::Proto(frame::Error::Settings(_)) => ErrorCode(SETTINGS_ERROR),
            Error::Proto(frame::Error::UnsupportedFrame(_)) => ErrorCode(FRAME_UNEXPECTED),
            Error::Proto(_) => ErrorCode(FRAME_ERROR),
        }
    }
}


impl From<frame::Error> for Error {
    fn from(err: frame::Error) -> (e: Error) {
        Error::Proto(err)
    }
}

impl FromSpecImpl<frame::Error> for Error {
    open spec fn obeys_from_spec() -> bool {
        true
    }

    open spec fn from_spec(err: frame::Error) -> Error {
        Error::Proto(err)
    }
}

impl From<std::io::Error> for Error {
    fn from(err: std::io::Error) -> (e: Error) {
        Error::Io(err)
    }
}

impl FromSpecImpl<std::io::Error> for Error {
    open spec fn obeys_from_spec() -> bool {
        true
    }

    open spec fn from_spec(err: std::io::Error) -> Error {
        Error::Io(err)
    }
}

/// Turns the bytes of a stream into frames, one call at a time.
///
/// A DATA frame is handed out in pieces as its payload arrives; every other
/// frame is handed out once the buffer holds all of it.
pub struct FrameDecoder {
    partial: Option<PartialData>,
    expected: Option<u64>,
}

/// What a decoder remembers between two calls.
pub struct DecoderState {
    /// The DATA frame whose payload is being handed out, if one is.
    pub partial: Option<PartialData>,
    /// The length below which the buffer cannot hold the next frame, where an
    /// earlier call found one.
    pub expected: Option<u64>,
}

impl DecoderState {
    /// The state between two frames, with nothing remembered.
    pub open spec fn clean() -> DecoderState {
        DecoderState { partial: None, expected: None }
    }

    /// An open DATA frame owes at least one byte and no more than its length,
    /// and no minimum is kept while one is open.
    pub open spec fn wf(self) -> bool {
        self.partial matches Some(p) ==> 0 < p.remaining <= p.len && self.expected is None
    }
}

/// The outcome of one call of the decoder.
pub struct Step {
    /// The decoder after the call.
    pub next: DecoderState,
    /// Number of bytes taken from the front of the buffer.
    pub consumed: nat,
    /// The frame handed out, `None` where more bytes are needed, or the
    /// reason for refusing the bytes.
    pub output: Result<Option<Frame>, frame::Error>,
}

/// A call of the decoder while the DATA frame `p` is open, on a buffer that
/// holds `buf`: as many bytes as the frame still owes, or all there are.
pub open spec fn step_partial(d: DecoderState, p: PartialData, buf: Seq<u8>) -> Step {
    let n: nat = if p.remaining < buf.len() {
        p.remaining as nat
    } else {
        buf.len()
    };
    let left = (p.remaining - n) as u64;
    Step {
        next: DecoderState {
            partial: if left == 0 {
                None
            } else {
                Some(PartialData { len: p.len, remaining: left })
            },
            expected: d.expected,
        },
        consumed: n,
        output: Ok(Some(Frame::Data(buf.take(n as int)))),
    }
}

/// A call of the decoder between two frames, on a buffer that holds `buf`.
pub open spec fn step_frame(d: DecoderState, buf: Seq<u8>) -> Step {
    match frame::spec_parse(buf) {
        Ok((f, n)) => Step { next: DecoderState::clean(), consumed: n, output: Ok(Some(f)) },
        Err(frame::Error::IncompleteData) => {
            let (_, len, head) = frame::parse_header(buf).unwrap();
            Step {
                next: DecoderState {
                    partial: Some(
                        PartialData { len, remaining: (len - (buf.len() - head)) as u64 },
                    ),
                    expected: None,
                },
                consumed: buf.len(),
                output: Ok(
                    if buf.len() > head {
                        Some(Frame::Data(buf.skip(head as int)))
                    } else {
                        None
                    },
                ),
            }
        },
        Err(frame::Error::Incomplete(min)) => Step {
            next: DecoderState { partial: None, expected: Some(min) },
            consumed: 0,
            output: Ok(None),
        },
        Err(e) => Step { next: d, consumed: 0, output: Err(e) },
    }
}

/// One call of the decoder in state `d` on a buffer that holds `buf`.
pub open spec fn step(d: DecoderState, buf: Seq<u8>) -> Step {
    if buf.len() == 0 {
        Step { next: d, consumed: 0, output: Ok(None) }
    } else {
        match d.partial {
            Some(p) => step_partial(d, p, buf),
            None => if d.expected matches Some(min) && buf.len() < min {
                Step { next: d, consumed: 0, output: Ok(None) }
            } else {
                step_frame(d, buf)
            },
        }
    }
}

impl View for FrameDecoder {
    type V = DecoderState;

    closed spec fn view(&self) -> DecoderState {
        DecoderState { partial: self.partial, expected: self.expected }
    }
}

impl Default for FrameDecoder {
    fn default() -> (d: FrameDecoder)
        ensures
            d@ == DecoderState::clean(),
    {
        FrameDecoder { partial: None, expected: None }
    }
}

/// Capacity to give the buffer that a frame stream reads into.
pub const READ_CAPACITY: usize = 65535;

impl FrameDecoder {
    /// The DATA frame whose payload is being handed out, if one is.
    pub fn partial(&self) -> (p: Option<PartialData>)
        ensures
            p == self@.partial,
    {
        self.partial
    }

    /// The length below which the buffer cannot hold the next frame, where
    /// the last call found one.
    pub fn expected(&self) -> (min: Option<u64>)
        ensures
            min == self@.expected,
    {
        self.expected
    }

    /// Takes the next frame, or the next piece of a DATA frame, from the front
    /// of `src`.
    ///
    /// Returns `Ok(None)` where `src` does not yet hold enough. What happens
    /// to the decoder, to `src` and what is returned is `step` of the
    /// decoder's state and the bytes in `src`.
    pub fn decode(&mut self, src: &mut BytesMut) -> (res: Result<Option<HttpFrame>, Error>)
        ensures
            ({
                let s = step(old(self)@, buffered(*old(src)));
                &&& final(self)@ == s.next
                &&& buffered(*final(src)) == buffered(*old(src)).skip(s.consumed as int)
                &&& match res {
                    Ok(Some(f)) => s.output == Ok::<_, frame::Error>(Some(f@)),
                    Ok(None) => s.output == Ok::<Option<Frame>, frame::Error>(None),
                    Err(Error::Proto(e)) => s.output == Err::<Option<Frame>, _>(e),
                    Err(Error::Io(_)) => false,
                }
            }),
            old(self)@.wf() ==> final(self)@.wf(),
    {
        let bytes = as_slice(src);
        if bytes.len() == 0 {
            assert(buffered(*src).skip(0) =~= buffered(*src));
            return Ok(None);
        }
        if let Some(mut partial) = self.partial {
            let (piece, n) = partial.decode_data(bytes);
            advance(src, n);
            self.partial = if partial.remaining() == 0 {
                None
            } else {
                Some(partial)
            };
            return Ok(Some(HttpFrame::Data(piece)));
        }
        if let Some(min) = self.expected {
            if (bytes.len() as u64) < min {
                assert(buffered(*src).skip(0) =~= buffered(*src));
                return Ok(None);
            }
        }
        match HttpFrame::decode(bytes) {
            Ok((f, n)) => {
                advance(src, n);
                self.expected = None;
                Ok(Some(f))
            },
            Err(frame::Error::IncompleteData) => {
                let (partial, piece) = PartialData::decode(bytes);
                let n = bytes.len();
                advance(src, n);
                self.expected = None;
                self.partial = Some(partial);
                if piece.payload.len() > 0 {
                    Ok(Some(HttpFrame::Data(piece)))
                } else {
                    Ok(None)
                }
            },
            Err(frame::Error::Incomplete(min)) => {
                assert(buffered(*src).skip(0) =~= buffered(*src));
                self.expected = Some(min);
                Ok(None)
            },
            Err(e) => {
                assert(buffered(*src).skip(0) =~= buffered(*src));
                Err(Error::Proto(e))
            },
        }
    }
}


/// Round trip: a decoder between two frames, given the wire form of a frame
/// and whatever follows it, hands out that frame, takes the frame's bytes and
/// no others, and is between two frames again.
pub proof fn lemma_decode_roundtrip(f: Frame, rest: Seq<u8>)
    requires
        f.well_formed(),
        !(f is Reserved),
    ensures
        step(DecoderState::clean(), f.encoding() + rest) == (Step {
            next: DecoderState::clean(),
            consumed: f.encoding().len(),
            output: Ok(Some(f)),
        }),
        (f.encoding() + rest).skip(f.encoding().len() as int) == rest,
{
    frame::lemma_parse_encoding(f, rest);
    frame::lemma_header_roundtrip(f.ty(), f.payload().len() as u64, Seq::empty());
    assert((f.encoding() + rest).skip(f.encoding().len() as int) =~= rest);
}

/// Prefix completeness: a decoder between two frames, given less than all of
/// a frame, asks for more and takes nothing; given all of the frame later,
/// it hands the frame out.
///
/// This holds of every frame but DATA, and of a DATA frame as long as part of
/// its header is missing: once the header of a DATA frame is in, its payload
/// is handed out as it comes. The decoder may have kept a minimum from an
/// earlier call on a shorter prefix of the same frame.
pub proof fn lemma_prefix_completeness(d: DecoderState, f: Frame, k: int)
    requires
        f.well_formed(),
        !(f is Reserved),
        0 <= k < f.encoding().len(),
        f is Data ==> k < f.header().len(),
        d.partial is None,
        d.expected matches Some(min) ==> min <= f.encoding().len(),
    ensures
        ({
            let s = step(d, f.encoding().take(k));
            &&& s.output == Ok::<Option<Frame>, frame::Error>(None)
            &&& s.consumed == 0
            &&& s.next.partial is None
            &&& s.next.expected matches Some(min) ==> min <= f.encoding().len()
            &&& step(s.next, f.encoding()) == (Step {
                next: DecoderState::clean(),
                consumed: f.encoding().len(),
                output: Ok(Some(f)),
            })
        }),
{
    let e = f.encoding();
    frame::lemma_parse_prefix(f, k);
    frame::lemma_parse_encoding(f, Seq::empty());
    assert(e + Seq::<u8>::empty() =~= e);
    frame::lemma_header_roundtrip(f.ty(), f.payload().len() as u64, Seq::empty());
}

/// Partial DATA streaming, the first piece: a decoder between two frames,
/// given the header of a DATA frame and the first `k` bytes of its payload,
/// `k` short of the whole, hands out those `k` bytes, takes all it was given,
/// and owes the rest of the payload. With `k` zero it hands out nothing yet.
pub proof fn lemma_partial_start(d: DecoderState, payload: Seq<u8>, k: int)
    requires
        payload.len() <= crate::proto::varint::MAX_VALUE,
        0 <= k < payload.len(),
        d.partial is None,
        d.expected matches Some(min) ==> min <= Frame::Data(payload).header().len() + k,
    ensures
        step(d, Frame::Data(payload).header() + payload.take(k)) == (Step {
            next: DecoderState {
                partial: Some(
                    PartialData {
                        len: payload.len() as u64,
                        remaining: (payload.len() - k) as u64,
                    },
                ),
                expected: None,
            },
            consumed: Frame::Data(payload).header().len() + k as nat,
            output: Ok(
                if k > 0 {
                    Some(Frame::Data(payload.take(k)))
                } else {
                    None
                },
            ),
        }),
{
    let f = Frame::Data(payload);
    let buf = f.header() + payload.take(k);
    let head = f.header().len() as int;
    assert(buf.take(head) =~= f.header());
    frame::lemma_header_whole(f, buf);
    assert(buf.skip(head) =~= payload.take(k));
}

/// Partial DATA streaming, the pieces that follow: a decoder that owes
/// payload, given a buffer that is not empty, hands out as many bytes as it
/// owes or all there are, whichever is less, and owes that many less. When
/// it owes nothing more it is between two frames again.
pub proof fn lemma_partial_next(d: DecoderState, buf: Seq<u8>)
    requires
        d.wf(),
        d.partial is Some,
        buf.len() > 0,
    ensures
        ({
            let p = d.partial.unwrap();
            let n = if p.remaining < buf.len() {
                p.remaining as int
            } else {
                buf.len() as int
            };
            let s = step(d, buf);
            &&& 0 < n
            &&& s.consumed == n
            &&& s.output == Ok::<_, frame::Error>(Some(Frame::Data(buf.take(n))))
            &&& s.next.wf()
            &&& if n == p.remaining {
                s.next == DecoderState::clean()
            } else {
                s.next.partial == Some(
                    PartialData { len: p.len, remaining: (p.remaining - n) as u64 },
                )
            }
        }),
{
}

/// Partial DATA streaming, from end to end: a DATA frame that arrives in two
/// parts, split after `k` bytes of its payload, comes out as two pieces, the
/// first `k` bytes and the rest, and the decoder is then between two frames.
pub proof fn lemma_partial_data(payload: Seq<u8>, k: int)
    requires
        payload.len() <= crate::proto::varint::MAX_VALUE,
        0 < k < payload.len(),
    ensures
        ({
            let first = step(
                DecoderState::clean(),
                Frame::Data(payload).header() + payload.take(k),
            );
            let second = step(first.next, payload.skip(k));
            &&& first.output == Ok::<_, frame::Error>(Some(Frame::Data(payload.take(k))))
            &&& first.consumed == Frame::Data(payload).header().len() + k
            &&& first.next.partial == Some(
                PartialData { len: payload.len() as u64, remaining: (payload.len() - k) as u64 },
            )
            &&& second.output == Ok::<_, frame::Error>(Some(Frame::Data(payload.skip(k))))
            &&& second.consumed == payload.len() - k
            &&& second.next == DecoderState::clean()
            &&& payload.take(k) + payload.skip(k) == payload
        }),
{
    lemma_partial_start(DecoderState::clean(), payload, k);
    let first = step(DecoderState::clean(), Frame::Data(payload).header() + payload.take(k));
    lemma_partial_next(first.next, payload.skip(k));
    assert(payload.skip(k).take(payload.len() - k) =~= payload.skip(k));
    assert(payload.take(k) + payload.skip(k) =~= payload);
}

/// The decoder keeps its state well formed.
pub proof fn lemma_step_wf(d: DecoderState, buf: Seq<u8>)
    requires
        d.wf(),
    ensures
        step(d, buf).next.wf(),
        step(d, buf).consumed <= buf.len(),
{
    if buf.len() > 0 && d.partial is None {
        match frame::spec_parse(buf) {
            Err(frame::Error::IncompleteData) => {
                crate::proto::varint::lemma_decode_bounds(buf);
                crate::proto::varint::lemma_decode_bounds(
                    buf.skip(crate::proto::varint::decoded_size(buf) as int),
                );
            },
            Ok(_) => {
                crate::proto::varint::lemma_decode_bounds(buf);
                crate::proto::varint::lemma_decode_bounds(
                    buf.skip(crate::proto::varint::decoded_size(buf) as int),
                );
            },
            _ => {},
        }
    }
}

/// How far the writing of a frame has come.
#[derive(Debug, Clone, Copy, PartialEq, Eq, Structural)]
pub enum WriteFrameState {
    /// The header is going out; this many of its bytes are out already.
    Header(usize),
    /// The header is out and the payload is going out.
    Payload,
    /// The frame is out and the stream has been handed back.
    Finished,
}

/// Writes one frame to a stream: its header, then its payload.
///
/// The transport does the writing. This type says which bytes go next
/// ([`WriteFrame::pending`]) and takes note of how many of them the stream
/// accepted ([`WriteFrame::poll`]). It holds the stream's sending half from
/// the start to the end of the frame.
pub struct WriteFrame {
    state: WriteFrameState,
    send: Option<SendHalf>,
    header: Vec<u8>,
    payload: Vec<u8>,
    sent: usize,
}

impl WriteFrame {
    /// The header is at most two integers long, and the progress recorded is
    /// within the frame.
    pub closed spec fn wf(&self) -> bool {
        &&& 0 < self.header@.len() <= 16
        &&& self.sent <= self.payload@.len()
        &&& match self.state {
            WriteFrameState::Header(start) => start < self.header@.len() && self.sent == 0,
            WriteFrameState::Payload => true,
            WriteFrameState::Finished => self.sent == self.payload@.len() && self.send is None,
        }
    }

    /// The frame's header.
    pub closed spec fn header(&self) -> Seq<u8> {
        self.header@
    }

    /// The whole frame as it goes on the wire.
    pub closed spec fn wire(&self) -> Seq<u8> {
        self.header@ + self.payload@
    }

    /// The bytes of the frame that the stream has accepted so far.
    pub closed spec fn written(&self) -> Seq<u8> {
        match self.state {
            WriteFrameState::Header(start) => self.header@.take(start as int),
            WriteFrameState::Payload => self.header@ + self.payload@.take(self.sent as int),
            WriteFrameState::Finished => self.header@ + self.payload@,
        }
    }

    /// The bytes that the next write offers to the stream.
    pub closed spec fn pending_bytes(&self) -> Seq<u8> {
        match self.state {
            WriteFrameState::Header(start) => self.header@.skip(start as int),
            WriteFrameState::Payload => self.payload@.skip(self.sent as int),
            WriteFrameState::Finished => Seq::empty(),
        }
    }

    /// Where the writing stands.
    pub closed spec fn state(&self) -> WriteFrameState {
        self.state
    }

    /// The sending half, while the writer holds it.
    pub closed spec fn stream(&self) -> Option<SendHalf> {
        self.send
    }

    /// A writer for `frame` on the stream `send`, with nothing written yet.
    pub fn new(send: SendHalf, frame: HttpFrame) -> (w: WriteFrame)
        requires
            frame@.well_formed(),
            !(frame@ is Reserved),
        ensures
            w.wf(),
            w.header() == frame@.header(),
            w.wire() == frame@.encoding(),
            w.written() == Seq::<u8>::empty(),
            w.state() == WriteFrameState::Header(0),
            w.stream() == Some(send),
    {
        let ty = frame.ty();
        let payload = frame.into_payload();
        let mut header: Vec<u8> = Vec::new();
        encode_header(ty, payload.len() as u64, &mut header);
        proof {
            frame::lemma_header_roundtrip(ty, payload@.len() as u64, Seq::empty());
            assert(header@ =~= frame@.header());
            assert(header@.take(0) =~= Seq::<u8>::empty());
        }
        WriteFrame { state: WriteFrameState::Header(0), send: Some(send), header, payload, sent: 0 }
    }

    /// Whether the frame is out.
    pub fn is_finished(&self) -> (done: bool)
        ensures
            done == (self.state() == WriteFrameState::Finished),
    {
        match self.state {
            WriteFrameState::Finished => true,
            _ => false,
        }
    }

    /// The bytes to offer to the stream in the next write: what is left of
    /// the header while the header is going out, what is left of the payload
    /// after that. Asking again without a call of `poll` in between gives the
    /// same bytes.
    pub fn pending(&self) -> (bytes: &[u8])
        requires
            self.wf(),
            self.state() != WriteFrameState::Finished,
        ensures
            bytes@ == self.pending_bytes(),
    {
        match self.state {
            WriteFrameState::Header(start) => {
                let bytes = slice_subrange(self.header.as_slice(), start, self.header.len());
                assert(bytes@ =~= self.header@.skip(start as int));
                bytes
            },
            _ => {
                let bytes = slice_subrange(self.payload.as_slice(), self.sent, self.payload.len());
                assert(bytes@ =~= self.payload@.skip(self.sent as int));
                bytes
            },
        }
    }

    /// Takes note that the stream accepted the first `wrote` of the pending
    /// bytes.
    ///
    /// Returns the stream once the last byte of the payload is out, and
    /// `None` while more is to be written. A write that was refused for now,
    /// or failed, is not reported here: the writer stays as it is.
    pub fn poll(&mut self, wrote: usize) -> (done: Option<SendHalf>)
        requires
            old(self).wf(),
            old(self).state() != WriteFrameState::Finished,
            old(self).stream() is Some,
            wrote <= old(self).pending_bytes().len(),
        ensures
            final(self).wf(),
            final(self).header() == old(self).header(),
            final(self).wire() == old(self).wire(),
            final(self).written() == old(self).written() + old(self).pending_bytes().take(
                wrote as int,
            ),
            final(self).state() == match old(self).state() {
                WriteFrameState::Header(start) => if start + wrote < old(self).header().len() {
                    WriteFrameState::Header((start + wrote) as usize)
                } else {
                    WriteFrameState::Payload
                },
                _ => if wrote < old(self).pending_bytes().len() {
                    WriteFrameState::Payload
                } else {
                    WriteFrameState::Finished
                },
            },
            done == if final(self).state() == WriteFrameState::Finished {
                old(self).stream()
            } else {
                None
            },
            final(self).stream() == if final(self).state() == WriteFrameState::Finished {
                None
            } else {
                old(self).stream()
            },
            final(self).state() == WriteFrameState::Finished ==> final(self).written()
                == final(self).wire(),
    {
        match self.state {
            WriteFrameState::Header(start) => {
                let start = start + wrote;
                assert(self.header@.take(start as int) =~= old(self).written() + old(
                    self,
                ).pending_bytes().take(wrote as int));
                if start < self.header.len() {
                    self.state = WriteFrameState::Header(start);
                } else {
                    assert(self.header@ + self.payload@.take(0) =~= self.header@.take(
                        start as int,
                    ));
                    self.state = WriteFrameState::Payload;
                }
                None
            },
            _ => {
                assert(self.header@ + self.payload@.take(self.sent + wrote) =~= old(
                    self,
                ).written() + old(self).pending_bytes().take(wrote as int));
                let total = self.payload.len();
                self.sent = self.sent + wrote;
                if self.sent < total {
                    None
                } else {
                    assert(self.payload@.take(self.sent as int) =~= self.payload@);
                    self.state = WriteFrameState::Finished;
                    self.send.take()
                }
            },
        }
    }

    /// Gives up the stream, to be reset with `err_code`.
    ///
    /// Returns the order for the transport, or `None` where the writer holds
    /// no stream: after the frame is out, or after an earlier reset. What has
    /// been written stays as it is.
    pub fn reset(&mut self, err_code: ErrorCode) -> (order: Option<Reset>)
        requires
            old(self).wf(),
        ensures
            final(self).wf(),
            final(self).stream() is None,
            final(self).state() == old(self).state(),
            final(self).wire() == old(self).wire(),
            final(self).header() == old(self).header(),
            final(self).written() == old(self).written(),
            match old(self).stream() {
                Some(s) => order == Some(Reset { stream: s, code: err_code }),
                None => order is None,
            },
    {
        match self.send.take() {
            Some(stream) => Some(Reset { stream, code: err_code }),
            None => None,
        }
    }

    /// Answers whether the peer asked for the writing to stop.
    ///
    /// `signal` is what the stream says: `None` while the peer has not asked,
    /// `Some` once the stream is stopped or closed, with the peer's code if it
    /// gave one. The answer is pending (`None`) while the peer has not asked
    /// and where the writer holds no stream; else it is the peer's code, the
    /// same number as an HTTP/3 error code.
    pub fn poll_stopped(&self, signal: Option<Option<u64>>) -> (reason: Option<Option<ErrorCode>>)
        ensures
            reason == match (self.stream(), signal) {
                (Some(_), Some(Some(code))) => Some(Some(ErrorCode(code))),
                (Some(_), Some(None)) => Some(None),
                _ => None,
            },
    {
        if self.send.is_none() {
            return None;
        }
        match signal {
            Some(Some(code)) => Some(Some(ErrorCode::from_wire(code))),
            Some(None) => Some(None),
            None => None,
        }
    }

    /// The header goes out before the payload: what has been written and what
    /// goes next are consecutive parts of the frame, and while the header is
    /// not out in full, the next write offers bytes of the header only.
    pub proof fn lemma_header_first(&self)
        requires
            self.wf(),
        ensures
            self.wire().len() >= self.header().len(),
            self.wire().take(self.header().len() as int) == self.header(),
            self.written() + self.pending_bytes() == self.wire().take(
                (self.written().len() + self.pending_bytes().len()) as int,
            ),
            self.written().len() < self.header().len() ==> self.written().len()
                + self.pending_bytes().len() == self.header().len(),
            self.state() is Header <==> self.written().len() < self.header().len(),
            self.written() == self.wire().take(self.written().len() as int),
            self.pending_bytes() == if self.written().len() < self.header().len() {
                self.wire().subrange(self.written().len() as int, self.header().len() as int)
            } else {
                self.wire().skip(self.written().len() as int)
            },
            self.state() is Finished ==> self.written() == self.wire(),
    {
        assert(self.written() =~= self.wire().take(self.written().len() as int));
        assert(self.pending_bytes() =~= if self.written().len() < self.header().len() {
            self.wire().subrange(self.written().len() as int, self.header().len() as int)
        } else {
            self.wire().skip(self.written().len() as int)
        });
        assert(self.wire().take(self.header().len() as int) =~= self.header());
        assert(self.written() + self.pending_bytes() =~= self.wire().take(
            (self.written().len() + self.pending_bytes().len()) as int,
        ));
    }
}

} // verus!
