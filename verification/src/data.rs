//! The drivers of one request or response: sending a message, and receiving
//! the head of one.
//!
//! A driver decides; the transport, the header compression and the body
//! producer do their work outside this library. Each call of `poll` takes the
//! outcome of the work that the driver asked for last, and answers with the
//! work to do next or with the driver's result.

use crate::error::{Error, PeerError, WriteError};
use crate::frame::{self, WriteFrame};
use crate::headers::{DecodeHeaders, SendHeaders};
use crate::proto::frame::{DataFrame, Frame, HeadersFrame, HttpFrame};
use crate::proto::headers::Header;
use crate::proto::varint;
use crate::proto::{ErrorCode, FRAME_UNEXPECTED, REQUEST_CANCELLED};
use crate::streams::{RecvHalf, Reset, SendHalf, Stop, StreamId};
use vstd::prelude::*;

verus! {

/// Where the sending of a message stands.
#[derive(Debug, Clone, Copy, PartialEq, Eq, Structural)]
pub enum SendPhase {
    Initial,
    WritingHeaders,
    PollingBody,
    WritingDataFrame,
    PollingTrailers,
    WritingTrailers,
    Closing,
    Finished,
}

/// The outcome of the work that a sending driver asked for.
pub enum SendEvent {
    /// The driver is polled for the first time.
    Begin,
    /// The connection compressed a header block, or refused it.
    Encoded(Result<HeadersFrame, ErrorCode>),
    /// The stream accepted this many of the pending bytes, or the write failed.
    Wrote(Result<usize, WriteError>),
    /// The body gave its next chunk, ended (`None`), or failed.
    Body(Option<Result<Vec<u8>, ()>>),
    /// The body gave its trailers, has none (`None`), or failed.
    Trailers(Result<Option<Header>, ()>),
    /// The stream was finished, or finishing it failed.
    Finish(Result<(), WriteError>),
}

/// The work that a sending driver asks for, or its result.
pub enum SendAction {
    /// Have the connection compress this header block for the driver's
    /// stream, and wake the connection so that it sends what the encoder
    /// added to its table.
    Encode(Header),
    /// Offer the pending bytes to the stream.
    Write,
    /// Ask the body for its next chunk.
    PollBody,
    /// Ask the body for its trailers.
    PollTrailers,
    /// Finish the stream.
    Finish,
    /// The driver is done.
    Done {
        /// Success, or why the message was not sent.
        result: Result<(), Error>,
        /// The reset to perform on the stream, if any.
        reset: Option<Reset>,
        /// Whether to tell the connection that the request on this stream
        /// is over.
        request_finished: bool,
    },
}

/// A sending driver, as its contracts speak of it.
#[verifier::ext_equal]
pub struct SendModel {
    pub phase: SendPhase,
    /// A header block is with the connection for compression.
    pub awaiting: bool,
    /// The block that opens the message, until it is handed out.
    pub headers: Option<Header>,
    /// The sending half, while the driver or its frame writer holds it.
    pub stream: Option<SendHalf>,
    pub stream_id: StreamId,
    /// Whether the connection is told when the message is out.
    pub finish: bool,
    /// The bytes of the frames that are out in full.
    pub done: Seq<u8>,
    /// The wire form of the frame that is being written; empty between
    /// frames.
    pub frame: Seq<u8>,
    /// Length of that frame's header.
    pub header_len: nat,
    /// Number of bytes of that frame that the stream accepted.
    pub offset: nat,
    /// The compressed header block that opened the message.
    pub head: Option<Seq<u8>>,
    /// The chunks that the body gave, in order.
    pub chunks: Seq<Seq<u8>>,
    /// The compressed trailers.
    pub trailers: Option<Seq<u8>>,
    /// The stream was finished after the whole message.
    pub fin: bool,
}

/// The DATA frames for `chunks`, one after the other.
pub open spec fn data_bytes(chunks: Seq<Seq<u8>>) -> Seq<u8>
    decreases chunks.len(),
{
    if chunks.len() == 0 {
        Seq::empty()
    } else {
        data_bytes(chunks.drop_last()) + Frame::Data(chunks.last()).encoding()
    }
}

/// A whole message on the wire: the HEADERS frame, a DATA frame for each
/// chunk, and the HEADERS frame of the trailers where there are any.
pub open spec fn message_bytes(
    head: Seq<u8>,
    chunks: Seq<Seq<u8>>,
    trailers: Option<Seq<u8>>,
) -> Seq<u8> {
    Frame::Headers(head).encoding() + data_bytes(chunks) + match trailers {
        Some(t) => Frame::Headers(t).encoding(),
        None => Seq::empty(),
    }
}

impl SendModel {
    /// A driver that has done nothing yet.
    pub open spec fn initial(send: SendHalf, headers: Header, finish: bool) -> SendModel {
        SendModel {
            phase: SendPhase::Initial,
            awaiting: false,
            headers: Some(headers),
            stream: Some(send),
            stream_id: send.id(),
            finish,
            done: Seq::empty(),
            frame: Seq::empty(),
            header_len: 0,
            offset: 0,
            head: None,
            chunks: Seq::empty(),
            trailers: None,
            fin: false,
        }
    }

    /// Whether a frame is being written.
    pub open spec fn writing(self) -> bool {
        self.phase is WritingHeaders || self.phase is WritingDataFrame
            || self.phase is WritingTrailers
    }

    /// All the bytes that the stream accepted, in order.
    pub open spec fn sent(self) -> Seq<u8> {
        self.done + self.frame.take(self.offset as int)
    }

    /// The bytes that the next write offers: the rest of the header while the
    /// header is not out, the rest of the payload after that.
    pub open spec fn pending(self) -> Seq<u8> {
        if self.offset < self.header_len {
            self.frame.subrange(self.offset as int, self.header_len as int)
        } else {
            self.frame.skip(self.offset as int)
        }
    }

    /// What holds of a driver at every moment: which frames are out, by
    /// phase, and who holds the stream.
    pub open spec fn inv(self) -> bool {
        &&& self.offset <= self.frame.len()
        &&& self.header_len <= self.frame.len()
        &&& !self.writing() ==> self.frame.len() == 0 && self.offset == 0 && self.header_len == 0
        &&& self.writing() ==> self.stream is Some && !self.awaiting
        &&& !(self.phase is Finished) ==> !self.fin
        &&& match self.phase {
            SendPhase::Initial => {
                &&& self.stream is Some
                &&& self.done.len() == 0
                &&& self.head is None
                &&& self.chunks.len() == 0
                &&& self.trailers is None
                &&& self.headers is Some <==> !self.awaiting
            },
            SendPhase::WritingHeaders => {
                &&& self.head matches Some(h)
                &&& self.frame == Frame::Headers(h).encoding()
                &&& self.header_len == Frame::Headers(h).header().len()
                &&& self.done.len() == 0
                &&& self.chunks.len() == 0
                &&& self.trailers is None
            },
            SendPhase::PollingBody => {
                &&& self.stream is Some
                &&& !self.awaiting
                &&& self.head matches Some(h)
                &&& self.done == Frame::Headers(h).encoding() + data_bytes(self.chunks)
                &&& self.trailers is None
            },
            SendPhase::WritingDataFrame => {
                &&& self.head matches Some(h)
                &&& self.chunks.len() > 0
                &&& self.frame == Frame::Data(self.chunks.last()).encoding()
                &&& self.header_len == Frame::Data(self.chunks.last()).header().len()
                &&& self.done == Frame::Headers(h).encoding() + data_bytes(
                    self.chunks.drop_last(),
                )
                &&& self.trailers is None
            },
            SendPhase::PollingTrailers => {
                &&& self.stream is Some
                &&& self.head matches Some(h)
                &&& self.done == Frame::Headers(h).encoding() + data_bytes(self.chunks)
                &&& self.trailers is None
            },
            SendPhase::WritingTrailers => {
                &&& self.head matches Some(h)
                &&& self.trailers matches Some(t)
                &&& self.frame == Frame::Headers(t).encoding()
                &&& self.header_len == Frame::Headers(t).header().len()
                &&& self.done == Frame::Headers(h).encoding() + data_bytes(self.chunks)
            },
            SendPhase::Closing => {
                &&& self.stream is Some
                &&& !self.awaiting
                &&& self.head matches Some(h)
                &&& self.done == message_bytes(h, self.chunks, self.trailers)
            },
            SendPhase::Finished => {
                &&& self.stream is None
                &&& self.fin ==> (self.head matches Some(h) && self.done == message_bytes(
                    h,
                    self.chunks,
                    self.trailers,
                ))
            },
        }
    }

    /// Whether `event` is the outcome of what a driver in this state asked
    /// for, and within what a frame can hold. A finished driver takes any
    /// event.
    pub open spec fn accepts(self, event: SendEvent) -> bool {
        match self.phase {
            SendPhase::Finished => true,
            SendPhase::Initial => if self.awaiting {
                event matches SendEvent::Encoded(r) && (r matches Ok(f) ==> f@.well_formed())
            } else {
                event is Begin
            },
            SendPhase::WritingHeaders | SendPhase::WritingDataFrame | SendPhase::WritingTrailers => {
                event matches SendEvent::Wrote(r) && (r matches Ok(n) ==> n
                    <= self.pending().len())
            },
            SendPhase::PollingBody => event matches SendEvent::Body(b) && (b matches Some(Ok(d))
                ==> d@.len() <= varint::MAX_VALUE),
            SendPhase::PollingTrailers => if self.awaiting {
                event matches SendEvent::Encoded(r) && (r matches Ok(f) ==> f@.well_formed())
            } else {
                event matches SendEvent::Trailers(t) && (t matches Ok(Some(h))
                    ==> h.is_trailer())
            },
            SendPhase::Closing => event is Finish,
        }
    }

    /// The driver goes on with the writing of `frame`.
    pub open spec fn begin_frame(self, phase: SendPhase, frame: Frame) -> SendModel {
        SendModel {
            phase,
            awaiting: false,
            stream: self.stream,
            frame: frame.encoding(),
            header_len: frame.header().len(),
            offset: 0,
            ..self
        }
    }

    /// The frame being written is out; the driver goes on in `phase`.
    pub open spec fn end_frame(self, phase: SendPhase) -> SendModel {
        SendModel {
            phase,
            done: self.done + self.frame,
            frame: Seq::empty(),
            header_len: 0,
            offset: 0,
            ..self
        }
    }

    /// The driver gives up the stream and ends, with all that was sent kept
    /// on record.
    pub open spec fn abandoned(self) -> SendModel {
        SendModel {
            phase: SendPhase::Finished,
            awaiting: false,
            stream: None,
            done: self.sent(),
            frame: Seq::empty(),
            header_len: 0,
            offset: 0,
            ..self
        }
    }

    /// The order that goes with giving up the stream.
    pub open spec fn cancellation(self) -> Option<Reset> {
        match self.stream {
            Some(stream) => Some(Reset { stream, code: ErrorCode(REQUEST_CANCELLED) }),
            None => None,
        }
    }

    /// The driver after `event`, and what it asks for next.
    pub open spec fn next(self, event: SendEvent) -> (SendModel, SendAction) {
        match self.phase {
            SendPhase::Finished => (self, succeeded(false)),
            SendPhase::Initial => match event {
                SendEvent::Begin => (
                    SendModel { awaiting: true, headers: None, ..self },
                    SendAction::Encode(self.headers.unwrap()),
                ),
                SendEvent::Encoded(Ok(f)) => (
                    SendModel { head: Some(f.encoded@), ..self }.begin_frame(
                        SendPhase::WritingHeaders,
                        f@,
                    ),
                    SendAction::Write,
                ),
                SendEvent::Encoded(Err(code)) => (self, failed(Error::Header(code))),
                _ => (self, failed(Error::Internal)),
            },
            SendPhase::WritingHeaders | SendPhase::WritingDataFrame | SendPhase::WritingTrailers => match event {
                SendEvent::Wrote(Ok(n)) => {
                    if self.offset >= self.header_len && n == self.pending().len() {
                        if self.phase is WritingTrailers {
                            (self.end_frame(SendPhase::Closing), SendAction::Finish)
                        } else {
                            (self.end_frame(SendPhase::PollingBody), SendAction::PollBody)
                        }
                    } else {
                        (SendModel { offset: (self.offset + n) as nat, ..self }, SendAction::Write)
                    }
                },
                SendEvent::Wrote(Err(e)) => (self, failed(Error::Write(e))),
                _ => (self, failed(Error::Internal)),
            },
            SendPhase::PollingBody => match event {
                SendEvent::Body(None) => (
                    SendModel { phase: SendPhase::PollingTrailers, ..self },
                    SendAction::PollTrailers,
                ),
                SendEvent::Body(Some(Ok(d))) => (
                    SendModel { chunks: self.chunks.push(d@), ..self }.begin_frame(
                        SendPhase::WritingDataFrame,
                        Frame::Data(d@),
                    ),
                    SendAction::Write,
                ),
                SendEvent::Body(Some(Err(_))) => (
                    self.abandoned(),
                    SendAction::Done {
                        result: Err(Error::Body),
                        reset: self.cancellation(),
                        request_finished: false,
                    },
                ),
                _ => (self, failed(Error::Internal)),
            },
            SendPhase::PollingTrailers => match event {
                SendEvent::Trailers(Ok(None)) => (
                    SendModel { phase: SendPhase::Closing, ..self },
                    SendAction::Finish,
                ),
                SendEvent::Trailers(Ok(Some(h))) => (
                    SendModel { awaiting: true, ..self },
                    SendAction::Encode(h),
                ),
                SendEvent::Trailers(Err(_)) => (
                    self.abandoned(),
                    SendAction::Done {
                        result: Err(Error::Body),
                        reset: self.cancellation(),
                        request_finished: false,
                    },
                ),
                SendEvent::Encoded(Ok(f)) => (
                    SendModel { trailers: Some(f.encoded@), ..self }.begin_frame(
                        SendPhase::WritingTrailers,
                        f@,
                    ),
                    SendAction::Write,
                ),
                SendEvent::Encoded(Err(code)) => (self, failed(Error::Header(code))),
                _ => (self, failed(Error::Internal)),
            },
            SendPhase::Closing => match event {
                SendEvent::Finish(Ok(())) => (
                    SendModel { phase: SendPhase::Finished, stream: None, fin: true, ..self },
                    succeeded(self.finish),
                ),
                SendEvent::Finish(Err(e)) => (self, failed(Error::Write(e))),
                _ => (self, failed(Error::Internal)),
            },
        }
    }
}

/// The result of a driver that failed and left the stream as it was.
pub open spec fn failed(e: Error) -> SendAction {
    SendAction::Done { result: Err(e), reset: None, request_finished: false }
}

/// The result of a driver that has nothing more to do.
pub open spec fn succeeded(request_finished: bool) -> SendAction {
    SendAction::Done { result: Ok(()), reset: None, request_finished }
}


/// Every step of a sending driver keeps the invariant.
pub proof fn lemma_send_next_inv(m: SendModel, event: SendEvent)
    requires
        m.inv(),
        m.accepts(event),
    ensures
        m.next(event).0.inv(),
{
    let n = m.next(event).0;
    match m.phase {
        SendPhase::WritingHeaders => {
            if n.phase is PollingBody {
                assert(m.done + m.frame =~= m.frame);
                assert(n.done =~= Frame::Headers(m.head.unwrap()).encoding() + data_bytes(
                    n.chunks,
                ));
            }
        },
        SendPhase::WritingDataFrame => {
            if n.phase is PollingBody {
                assert(n.done =~= Frame::Headers(m.head.unwrap()).encoding() + data_bytes(
                    n.chunks,
                ));
            }
        },
        SendPhase::PollingBody => {
            match event {
                SendEvent::Body(Some(Ok(d))) => {
                    assert(n.chunks.drop_last() =~= m.chunks);
                },
                _ => {},
            }
        },
        SendPhase::PollingTrailers => {
            if n.phase is Closing {
                assert(n.done =~= message_bytes(m.head.unwrap(), m.chunks, None));
            }
        },
        _ => {},
    }
}

/// Bytes reach the wire only through a write of the pending bytes, in their
/// order: a step adds to what was sent the part of the pending bytes that
/// the stream accepted, and no other step adds or changes anything.
pub proof fn lemma_send_appends(m: SendModel, event: SendEvent)
    requires
        m.inv(),
        m.accepts(event),
    ensures
        m.next(event).0.sent() == m.sent() + match event {
            SendEvent::Wrote(Ok(n)) if m.writing() => m.pending().take(n as int),
            _ => Seq::empty(),
        },
{
    let n = m.next(event).0;
    match event {
        SendEvent::Wrote(Ok(k)) if m.writing() => {
            if m.offset >= m.header_len && k == m.pending().len() {
                assert(m.frame.take(m.offset as int) + m.pending().take(k as int) =~= m.frame);
                assert(n.sent() =~= m.sent() + m.pending().take(k as int));
            } else {
                assert(m.frame.take(m.offset + k) =~= m.frame.take(m.offset as int)
                    + m.pending().take(k as int));
                assert(n.sent() =~= m.sent() + m.pending().take(k as int));
            }
        },
        _ => {
            assert(n.sent() =~= m.sent());
            assert(m.sent() + Seq::<u8>::empty() =~= m.sent());
        },
    }
}

/// Send ordering: what a driver has put on the wire, at every moment.
///
/// The header block comes first and in full before any byte of the body;
/// each DATA frame comes in full before the next frame; the trailers, if
/// any, come last. The stream is finished only after all of these: while the
/// driver closes the stream, and once it has, the wire holds the whole
/// message and nothing else.
pub proof fn lemma_send_ordering(m: SendModel)
    requires
        m.inv(),
    ensures
        m.phase is Initial ==> m.sent() == Seq::<u8>::empty(),
        m.phase is WritingHeaders ==> m.sent() == Frame::Headers(
            m.head.unwrap(),
        ).encoding().take(m.offset as int),
        m.phase is PollingBody || m.phase is PollingTrailers ==> m.sent() == Frame::Headers(
            m.head.unwrap(),
        ).encoding() + data_bytes(m.chunks),
        m.phase is WritingDataFrame ==> m.sent() == Frame::Headers(m.head.unwrap()).encoding()
            + data_bytes(m.chunks.drop_last()) + Frame::Data(m.chunks.last()).encoding().take(
            m.offset as int,
        ),
        m.phase is WritingTrailers ==> m.sent() == Frame::Headers(m.head.unwrap()).encoding()
            + data_bytes(m.chunks) + Frame::Headers(m.trailers.unwrap()).encoding().take(
            m.offset as int,
        ),
        m.phase is Closing || m.fin ==> m.head is Some && m.sent() == message_bytes(
            m.head.unwrap(),
            m.chunks,
            m.trailers,
        ),
{
    assert(m.phase is Initial ==> m.sent() =~= Seq::<u8>::empty());
    assert(m.phase is WritingHeaders ==> m.sent() =~= m.frame.take(m.offset as int));
    if !m.writing() {
        assert(m.sent() =~= m.done);
    }
}

/// The stream is finished only after the whole message: the step that asks
/// for the stream to be finished leaves the wire holding the header block,
/// every chunk of the body and the trailers, in that order.
pub proof fn lemma_finish_after_message(m: SendModel, event: SendEvent)
    requires
        m.inv(),
        m.accepts(event),
        m.next(event).1 is Finish,
    ensures
        m.next(event).0.phase is Closing,
        m.next(event).0.head is Some,
        m.next(event).0.sent() == message_bytes(
            m.next(event).0.head.unwrap(),
            m.next(event).0.chunks,
            m.next(event).0.trailers,
        ),
{
    lemma_send_next_inv(m, event);
    lemma_send_ordering(m.next(event).0);
}

/// Cancellation is idempotent and final: a cancelled driver is finished and
/// holds no stream; cancelling it again changes nothing and orders no reset;
/// every later step answers with success, writes nothing and asks for
/// nothing. What was sent before the cancellation stays on record.
pub proof fn lemma_cancel_idempotent(m: SendModel, event: SendEvent)
    requires
        m.inv(),
    ensures
        m.abandoned().inv(),
        m.abandoned().phase is Finished,
        m.abandoned().stream is None,
        m.abandoned().sent() == m.sent(),
        m.abandoned().pending() == Seq::<u8>::empty(),
        m.abandoned().abandoned() == m.abandoned(),
        m.abandoned().cancellation() is None,
        m.abandoned().accepts(event),
        m.abandoned().next(event) == (m.abandoned(), succeeded(false)),
{
    let c = m.abandoned();
    assert(c.sent() =~= m.sent());
    assert(c.pending() =~= Seq::<u8>::empty());
    assert(c.abandoned() =~= c);
}

/// Where a sending driver stands, with the writer of the frame that is going
/// out.
pub enum SendDataState {
    Initial,
    Headers(SendHeaders),
    PollBody,
    Write(WriteFrame),
    PollTrailers,
    Trailers(SendHeaders),
    Closing,
    Finished,
}

/// Sends one request or response: the header block, the body as DATA frames,
/// the trailers if there are any, and the end of the stream.
pub struct SendData {
    headers: Option<Header>,
    state: SendDataState,
    send: Option<SendHalf>,
    stream_id: StreamId,
    finish: bool,
    awaiting: bool,
    done: Ghost<Seq<u8>>,
    head: Ghost<Option<Seq<u8>>>,
    chunks: Ghost<Seq<Seq<u8>>>,
    trailers: Ghost<Option<Seq<u8>>>,
    fin: Ghost<bool>,
}

impl View for SendData {
    type V = SendModel;

    closed spec fn view(&self) -> SendModel {
        SendModel {
            phase: match self.state {
                SendDataState::Initial => SendPhase::Initial,
                SendDataState::Headers(_) => SendPhase::WritingHeaders,
                SendDataState::PollBody => SendPhase::PollingBody,
                SendDataState::Write(_) => SendPhase::WritingDataFrame,
                SendDataState::PollTrailers => SendPhase::PollingTrailers,
                SendDataState::Trailers(_) => SendPhase::WritingTrailers,
                SendDataState::Closing => SendPhase::Closing,
                SendDataState::Finished => SendPhase::Finished,
            },
            awaiting: self.awaiting,
            headers: self.headers,
            stream: match self.writer() {
                Some(w) => w.stream(),
                None => self.send,
            },
            stream_id: self.stream_id,
            finish: self.finish,
            done: self.done@,
            frame: match self.writer() {
                Some(w) => w.wire(),
                None => Seq::empty(),
            },
            header_len: match self.writer() {
                Some(w) => w.header().len(),
                None => 0,
            },
            offset: match self.writer() {
                Some(w) => w.written().len(),
                None => 0,
            },
            head: self.head@,
            chunks: self.chunks@,
            trailers: self.trailers@,
            fin: self.fin@,
        }
    }
}

impl SendData {
    /// The writer of the frame that is going out, if one is.
    pub closed spec fn writer(&self) -> Option<WriteFrame> {
        match self.state {
            SendDataState::Headers(s) => Some(s.0),
            SendDataState::Write(w) => Some(w),
            SendDataState::Trailers(s) => Some(s.0),
            _ => None,
        }
    }

    /// The driver is in a state that `new`, `poll` and `cancel` lead to.
    pub closed spec fn wf(&self) -> bool {
        &&& self@.inv()
        &&& match self.writer() {
            Some(w) => w.wf() && !(w.state() is Finished) && self.send is None,
            None => true,
        }
    }

    /// A driver that holds the invariant of its model.
    pub proof fn lemma_inv(&self)
        requires
            self.wf(),
        ensures
            self@.inv(),
    {
    }

    /// A driver for one message on the stream `send`.
    ///
    /// `headers` opens the message. With `finish` set, the connection is told
    /// when the message is out.
    pub fn new(send: SendHalf, headers: Header, finish: bool) -> (d: SendData)
        ensures
            d.wf(),
            d@ == SendModel::initial(send, headers, finish),
    {
        SendData {
            finish,
            headers: Some(headers),
            stream_id: send.id(),
            send: Some(send),
            state: SendDataState::Initial,
            awaiting: false,
            done: Ghost(Seq::empty()),
            head: Ghost(None),
            chunks: Ghost(Seq::empty()),
            trailers: Ghost(None),
            fin: Ghost(false),
        }
    }

    /// Where the sending stands.
    pub fn phase(&self) -> (p: SendPhase)
        ensures
            p == self@.phase,
    {
        match self.state {
            SendDataState::Initial => SendPhase::Initial,
            SendDataState::Headers(_) => SendPhase::WritingHeaders,
            SendDataState::PollBody => SendPhase::PollingBody,
            SendDataState::Write(_) => SendPhase::WritingDataFrame,
            SendDataState::PollTrailers => SendPhase::PollingTrailers,
            SendDataState::Trailers(_) => SendPhase::WritingTrailers,
            SendDataState::Closing => SendPhase::Closing,
            SendDataState::Finished => SendPhase::Finished,
        }
    }

    /// The stream that the message goes on.
    pub fn stream_id(&self) -> (id: StreamId)
        ensures
            id == self@.stream_id,
    {
        self.stream_id
    }

    /// The bytes to offer to the stream in the next write, while a frame is
    /// going out; nothing between frames.
    pub fn pending(&self) -> (bytes: &[u8])
        requires
            self.wf(),
        ensures
            bytes@ == self@.pending(),
    {
        match &self.state {
            SendDataState::Headers(s) => {
                proof {
                    s.0.lemma_header_first();
                }
                s.0.pending()
            },
            SendDataState::Write(w) => {
                proof {
                    w.lemma_header_first();
                }
                w.pending()
            },
            SendDataState::Trailers(s) => {
                proof {
                    s.0.lemma_header_first();
                }
                s.0.pending()
            },
            _ => {
                let bytes: &[u8] = &[];
                assert(bytes@ =~= self@.pending());
                bytes
            },
        }
    }

    /// Takes note that the stream accepted `wrote` bytes of the frame that
    /// `writer` writes, and says whether the frame is out.
    fn advance(writer: &mut WriteFrame, wrote: usize) -> (done: Option<SendHalf>)
        requires
            old(writer).wf(),
            !(old(writer).state() is Finished),
            old(writer).stream() is Some,
            wrote <= old(writer).pending_bytes().len(),
        ensures
            final(writer).wf(),
            final(writer).header() == old(writer).header(),
            final(writer).wire() == old(writer).wire(),
            final(writer).written().len() == old(writer).written().len() + wrote,
            final(writer).state() is Finished <==> old(writer).written().len() >= old(
                writer,
            ).header().len() && wrote == old(writer).pending_bytes().len(),
            done == if final(writer).state() is Finished {
                old(writer).stream()
            } else {
                None
            },
            final(writer).stream() == if final(writer).state() is Finished {
                None
            } else {
                old(writer).stream()
            },
            final(writer).state() is Finished ==> final(writer).written() == final(writer).wire(),
    {
        proof {
            writer.lemma_header_first();
        }
        writer.poll(wrote)
    }

    /// Takes the outcome of the work asked for last and answers with the work
    /// to do next, or with the driver's result.
    ///
    /// The first call takes `Begin`. A write that the stream refuses for now
    /// is no event: the same bytes are offered again later. A finished driver
    /// answers every event with success.
    pub fn poll(&mut self, event: SendEvent) -> (action: SendAction)
        requires
            old(self).wf(),
            old(self)@.accepts(event),
        ensures
            final(self).wf(),
            final(self)@ == old(self)@.next(event).0,
            action == old(self)@.next(event).1,
    {
        match self.phase() {
            SendPhase::Finished => SendAction::Done {
                result: Ok(()),
                reset: None,
                request_finished: false,
            },
            SendPhase::Initial => self.poll_initial(event),
            SendPhase::WritingHeaders => self.poll_headers(event),
            SendPhase::PollingBody => self.poll_body(event),
            SendPhase::WritingDataFrame => self.poll_write(event),
            SendPhase::PollingTrailers => self.poll_trailers(event),
            SendPhase::WritingTrailers => self.poll_write_trailers(event),
            SendPhase::Closing => self.poll_closing(event),
        }
    }

    /// One step before the opening block is compressed.
    fn poll_initial(&mut self, event: SendEvent) -> (action: SendAction)
        requires
            old(self).wf(),
            old(self)@.accepts(event),
            old(self)@.phase is Initial,
        ensures
            final(self).wf(),
            final(self)@ == old(self)@.next(event).0,
            action == old(self)@.next(event).1,
    {
        let ghost before = self@;
        match event {
            SendEvent::Begin => {
                self.awaiting = true;
                match self.headers.take() {
                    Some(h) => {
                        assert(self@ =~= before.next(event).0);
                        SendAction::Encode(h)
                    },
                    None => {
                        proof {
                            assert(false);
                        }
                        SendAction::Done { result: Err(Error::Internal), reset: None, request_finished: false }
                    },
                }
            },
            SendEvent::Encoded(Ok(f)) => {
                self.start_headers(f, Ghost(false));
                SendAction::Write
            },
            SendEvent::Encoded(Err(code)) => SendAction::Done {
                result: Err(Error::Header(code)),
                reset: None,
                request_finished: false,
            },
            _ => {
                proof {
                    assert(false);
                }
                SendAction::Done { result: Err(Error::Internal), reset: None, request_finished: false }
            },
        }
    }

    /// One step while the opening block is going out.
    fn poll_headers(&mut self, event: SendEvent) -> (action: SendAction)
        requires
            old(self).wf(),
            old(self)@.accepts(event),
            old(self)@.phase is WritingHeaders,
        ensures
            final(self).wf(),
            final(self)@ == old(self)@.next(event).0,
            action == old(self)@.next(event).1,
    {
        let ghost before = self@;
        let mut state = SendDataState::Finished;
        core::mem::swap(&mut self.state, &mut state);
        match state {
            SendDataState::Headers(mut w) => match event {
                SendEvent::Wrote(Ok(n)) => {
                    let ghost wire = w.0.wire();
                    proof {
                        w.0.lemma_header_first();
                    }
                    match Self::advance(&mut w.0, n) {
                        Some(send) => {
                            self.send = Some(send);
                            self.done = Ghost(self.done@ + wire);
                            self.state = SendDataState::PollBody;
                            proof {
                                lemma_data_bytes_empty();
                                assert(self@ =~= before.next(event).0);
                            }
                            SendAction::PollBody
                        },
                        None => {
                            self.state = SendDataState::Headers(w);
                            assert(self@ =~= before.next(event).0);
                            SendAction::Write
                        },
                    }
                },
                SendEvent::Wrote(Err(e)) => {
                    self.state = SendDataState::Headers(w);
                    assert(self@ =~= before);
                    SendAction::Done { result: Err(Error::Write(e)), reset: None, request_finished: false }
                },
                _ => {
                    proof {
                        assert(false);
                    }
                    SendAction::Done { result: Err(Error::Internal), reset: None, request_finished: false }
                },
            },
            _ => {
                proof {
                    assert(false);
                }
                SendAction::Done { result: Err(Error::Internal), reset: None, request_finished: false }
            },
        }
    }

    /// One step while the body is asked for its next chunk.
    fn poll_body(&mut self, event: SendEvent) -> (action: SendAction)
        requires
            old(self).wf(),
            old(self)@.accepts(event),
            old(self)@.phase is PollingBody,
        ensures
            final(self).wf(),
            final(self)@ == old(self)@.next(event).0,
            action == old(self)@.next(event).1,
    {
        let ghost before = self@;
        match event {
            SendEvent::Body(None) => {
                self.state = SendDataState::PollTrailers;
                assert(self@ =~= before.next(event).0);
                SendAction::PollTrailers
            },
            SendEvent::Body(Some(Ok(d))) => {
                match self.send.take() {
                    Some(send) => {
                        self.chunks = Ghost(self.chunks@.push(d@));
                        let frame = HttpFrame::Data(DataFrame { payload: d });
                        self.state = SendDataState::Write(WriteFrame::new(send, frame));
                        proof {
                            assert(self.chunks@.drop_last() =~= before.chunks);
                            assert(self@ =~= before.next(event).0);
                        }
                        SendAction::Write
                    },
                    None => {
                        proof {
                            assert(false);
                        }
                        SendAction::Done { result: Err(Error::Internal), reset: None, request_finished: false }
                    },
                }
            },
            SendEvent::Body(Some(Err(_))) => {
                let reset = self.abandon();
                SendAction::Done { result: Err(Error::Body), reset, request_finished: false }
            },
            _ => {
                proof {
                    assert(false);
                }
                SendAction::Done { result: Err(Error::Internal), reset: None, request_finished: false }
            },
        }
    }

    /// One step while a DATA frame is going out.
    fn poll_write(&mut self, event: SendEvent) -> (action: SendAction)
        requires
            old(self).wf(),
            old(self)@.accepts(event),
            old(self)@.phase is WritingDataFrame,
        ensures
            final(self).wf(),
            final(self)@ == old(self)@.next(event).0,
            action == old(self)@.next(event).1,
    {
        let ghost before = self@;
        let mut state = SendDataState::Finished;
        core::mem::swap(&mut self.state, &mut state);
        match state {
            SendDataState::Write(mut w) => match event {
                SendEvent::Wrote(Ok(n)) => {
                    let ghost wire = w.wire();
                    proof {
                        w.lemma_header_first();
                    }
                    match Self::advance(&mut w, n) {
                        Some(send) => {
                            self.send = Some(send);
                            self.done = Ghost(self.done@ + wire);
                            self.state = SendDataState::PollBody;
                            proof {
                                assert(self.done@ =~= Frame::Headers(
                                    before.head.unwrap(),
                                ).encoding() + data_bytes(self.chunks@));
                                assert(self@ =~= before.next(event).0);
                            }
                            SendAction::PollBody
                        },
                        None => {
                            self.state = SendDataState::Write(w);
                            assert(self@ =~= before.next(event).0);
                            SendAction::Write
                        },
                    }
                },
                SendEvent::Wrote(Err(e)) => {
                    self.state = SendDataState::Write(w);
                    assert(self@ =~= before);
                    SendAction::Done { result: Err(Error::Write(e)), reset: None, request_finished: false }
                },
                _ => {
                    proof {
                        assert(false);
                    }
                    SendAction::Done { result: Err(Error::Internal), reset: None, request_finished: false }
                },
            },
            _ => {
                proof {
                    assert(false);
                }
                SendAction::Done { result: Err(Error::Internal), reset: None, request_finished: false }
            },
        }
    }

    /// One step while the body is asked for its trailers, or while the
    /// trailers are being compressed.
    fn poll_trailers(&mut self, event: SendEvent) -> (action: SendAction)
        requires
            old(self).wf(),
            old(self)@.accepts(event),
            old(self)@.phase is PollingTrailers,
        ensures
            final(self).wf(),
            final(self)@ == old(self)@.next(event).0,
            action == old(self)@.next(event).1,
    {
        let ghost before = self@;
        match event {
            SendEvent::Trailers(Ok(None)) => {
                self.state = SendDataState::Closing;
                proof {
                    assert(self.done@ =~= message_bytes(before.head.unwrap(), self.chunks@, None));
                    assert(self@ =~= before.next(event).0);
                }
                SendAction::Finish
            },
            SendEvent::Trailers(Ok(Some(h))) => {
                self.awaiting = true;
                assert(self@ =~= before.next(event).0);
                SendAction::Encode(h)
            },
            SendEvent::Trailers(Err(_)) => {
                let reset = self.abandon();
                SendAction::Done { result: Err(Error::Body), reset, request_finished: false }
            },
            SendEvent::Encoded(Ok(f)) => {
                self.start_headers(f, Ghost(true));
                SendAction::Write
            },
            SendEvent::Encoded(Err(code)) => SendAction::Done {
                result: Err(Error::Header(code)),
                reset: None,
                request_finished: false,
            },
            _ => {
                proof {
                    assert(false);
                }
                SendAction::Done { result: Err(Error::Internal), reset: None, request_finished: false }
            },
        }
    }

    /// One step while the trailers are going out.
    fn poll_write_trailers(&mut self, event: SendEvent) -> (action: SendAction)
        requires
            old(self).wf(),
            old(self)@.accepts(event),
            old(self)@.phase is WritingTrailers,
        ensures
            final(self).wf(),
            final(self)@ == old(self)@.next(event).0,
            action == old(self)@.next(event).1,
    {
        let ghost before = self@;
        let mut state = SendDataState::Finished;
        core::mem::swap(&mut self.state, &mut state);
        match state {
            SendDataState::Trailers(mut w) => match event {
                SendEvent::Wrote(Ok(n)) => {
                    let ghost wire = w.0.wire();
                    proof {
                        w.0.lemma_header_first();
                    }
                    match Self::advance(&mut w.0, n) {
                        Some(send) => {
                            self.send = Some(send);
                            self.done = Ghost(self.done@ + wire);
                            self.state = SendDataState::Closing;
                            proof {

                                assert(self@ =~= before.next(event).0);
                            }
                            SendAction::Finish
                        },
                        None => {
                            self.state = SendDataState::Trailers(w);
                            assert(self@ =~= before.next(event).0);
                            SendAction::Write
                        },
                    }
                },
                SendEvent::Wrote(Err(e)) => {
                    self.state = SendDataState::Trailers(w);
                    assert(self@ =~= before);
                    SendAction::Done { result: Err(Error::Write(e)), reset: None, request_finished: false }
                },
                _ => {
                    proof {
                        assert(false);
                    }
                    SendAction::Done { result: Err(Error::Internal), reset: None, request_finished: false }
                },
            },
            _ => {
                proof {
                    assert(false);
                }
                SendAction::Done { result: Err(Error::Internal), reset: None, request_finished: false }
            },
        }
    }

    /// One step while the stream is being finished.
    fn poll_closing(&mut self, event: SendEvent) -> (action: SendAction)
        requires
            old(self).wf(),
            old(self)@.accepts(event),
            old(self)@.phase is Closing,
        ensures
            final(self).wf(),
            final(self)@ == old(self)@.next(event).0,
            action == old(self)@.next(event).1,
    {
        let ghost before = self@;
        match event {
            SendEvent::Finish(Ok(())) => {
                self.state = SendDataState::Finished;
                self.send = None;
                self.fin = Ghost(true);
                assert(self@ =~= before.next(event).0);
                SendAction::Done { result: Ok(()), reset: None, request_finished: self.finish }
            },
            SendEvent::Finish(Err(e)) => SendAction::Done {
                result: Err(Error::Write(e)),
                reset: None,
                request_finished: false,
            },
            _ => {
                proof {
                    assert(false);
                }
                SendAction::Done { result: Err(Error::Internal), reset: None, request_finished: false }
            },
        }
    }

    /// Starts the writing of the compressed block `f`: the opening block, or
    /// the trailers where `trailers` says so.
    fn start_headers(&mut self, f: HeadersFrame, trailers: Ghost<bool>)
        requires
            old(self)@.inv(),
            old(self).writer() is None,
            old(self)@.awaiting,
            f@.well_formed(),
            trailers@ ==> old(self)@.phase is PollingTrailers,
            !trailers@ ==> old(self)@.phase is Initial,
        ensures
            final(self).wf(),
            final(self)@ == old(self)@.next(SendEvent::Encoded(Ok(f))).0,
    {
        let ghost before = self@;
        self.awaiting = false;
        match self.send.take() {
            Some(send) => {
                match SendHeaders::new(Ok(f), send) {
                    Ok(s) => {
                        match self.state {
                            SendDataState::Initial => {
                                self.head = Ghost(Some(f.encoded@));
                                self.state = SendDataState::Headers(s);
                            },
                            _ => {
                                self.trailers = Ghost(Some(f.encoded@));
                                self.state = SendDataState::Trailers(s);
                            },
                        }
                        assert(self@ =~= before.next(SendEvent::Encoded(Ok(f))).0);
                    },
                    Err(_) => {
                        proof {
                            assert(false);
                        }
                    },
                }
            },
            None => {
                proof {
                    assert(false);
                }
            },
        }
    }

    /// Gives up the stream and ends the driver. Returns the reset to perform.
    fn abandon(&mut self) -> (reset: Option<Reset>)
        requires
            old(self)@.inv(),
            old(self).writer() is None,
        ensures
            final(self).wf(),
            final(self)@ == old(self)@.abandoned(),
            reset == old(self)@.cancellation(),
    {
        let ghost before = self@;
        self.state = SendDataState::Finished;
        self.awaiting = false;
        let reset = match self.send.take() {
            Some(stream) => Some(Reset { stream, code: ErrorCode(REQUEST_CANCELLED) }),
            None => None,
        };
        proof {
            assert(before.sent() =~= before.done);
            assert(self@ =~= before.abandoned());
        }
        reset
    }

    /// Cancels the message.
    ///
    /// The driver gives up the stream, wherever it is held, and ends. The
    /// order returned has the transport reset the stream with
    /// `REQUEST_CANCELLED`; it is `None` where the driver holds no stream,
    /// as after an earlier call. Nothing is written after this call.
    pub fn cancel(&mut self) -> (reset: Option<Reset>)
        requires
            old(self).wf(),
        ensures
            final(self).wf(),
            final(self)@ == old(self)@.abandoned(),
            reset == old(self)@.cancellation(),
    {
        let ghost before = self@;
        let mut state = SendDataState::Finished;
        core::mem::swap(&mut self.state, &mut state);
        self.awaiting = false;
        let reset = match state {
            SendDataState::Headers(mut s) => {
                self.done = Ghost(self.done@ + s.0.written());
                proof {
                    s.0.lemma_header_first();
                }
                s.reset(ErrorCode(REQUEST_CANCELLED))
            },
            SendDataState::Write(mut w) => {
                self.done = Ghost(self.done@ + w.written());
                proof {
                    w.lemma_header_first();
                }
                w.reset(ErrorCode(REQUEST_CANCELLED))
            },
            SendDataState::Trailers(mut s) => {
                self.done = Ghost(self.done@ + s.0.written());
                proof {
                    s.0.lemma_header_first();
                }
                s.reset(ErrorCode(REQUEST_CANCELLED))
            },
            _ => {
                assert(before.sent() =~= before.done);
                match self.send.take() {
                    Some(stream) => Some(Reset { stream, code: ErrorCode(REQUEST_CANCELLED) }),
                    None => None,
                }
            },
        };
        assert(self@ =~= before.abandoned());
        reset
    }

    /// Answers whether the peer asked for the sending to stop.
    ///
    /// `signal` is what the stream says: `None` while the peer has not asked,
    /// `Some` once the stream is stopped or closed, with the peer's code if it
    /// gave one. A driver that holds no stream answers at once that nothing
    /// stopped it; else the answer is pending (`None`) until the stream
    /// speaks, and then the peer's code, the same number as an HTTP/3 error
    /// code.
    pub fn poll_stopped(&self, signal: Option<Option<u64>>) -> (reason: Option<Option<ErrorCode>>)
        requires
            self.wf(),
        ensures
            reason == stop_reason(self@.stream is Some, signal),
    {
        match &self.state {
            SendDataState::Headers(s) => s.poll_stopped(signal),
            SendDataState::Write(w) => w.poll_stopped(signal),
            SendDataState::Trailers(s) => s.poll_stopped(signal),
            _ => match self.send {
                None => Some(None),
                Some(_) => match signal {
                    Some(Some(code)) => Some(Some(ErrorCode::from_wire(code))),
                    Some(None) => Some(None),
                    None => None,
                },
            },
        }
    }
}

/// What a driver answers to the question whether the peer stopped it.
pub open spec fn stop_reason(holds_stream: bool, signal: Option<Option<u64>>) -> Option<
    Option<ErrorCode>,
> {
    if !holds_stream {
        Some(None)
    } else {
        match signal {
            Some(Some(code)) => Some(Some(ErrorCode(code))),
            Some(None) => Some(None),
            None => None,
        }
    }
}

/// No chunks, no bytes.
proof fn lemma_data_bytes_empty()
    ensures
        data_bytes(Seq::empty()) == Seq::<u8>::empty(),
{
}


/// Where the receiving of a message head stands.
#[derive(Debug, Clone, Copy, PartialEq, Eq, Structural)]
pub enum RecvPhase {
    Receiving,
    Decoding,
    Finished,
}

/// Reads the body of a message, and its trailers, from the receiving half
/// that the head was read from.
#[derive(Debug)]
pub struct RecvBody {
    pub stream_id: StreamId,
    pub recv: RecvHalf,
}

impl RecvBody {
    /// A reader for the rest of the stream behind `recv`.
    pub fn new(stream_id: StreamId, recv: RecvHalf) -> (b: RecvBody)
        ensures
            b == (RecvBody { stream_id, recv }),
    {
        RecvBody { stream_id, recv }
    }
}

/// The outcome of the work that a receiving driver asked for.
pub enum RecvEvent {
    /// The frame stream gave its next frame, ended (`None`), or failed.
    Frame(Option<Result<HttpFrame, frame::Error>>),
    /// The connection decompressed the header block, or refused it.
    Decoded(Result<Header, ErrorCode>),
}

/// The work that a receiving driver asks for, or its result.
pub enum RecvAction {
    /// Ask the frame stream for its next frame.
    Receive,
    /// Have the connection decompress the header block that the driver holds.
    Decode,
    /// The driver is done.
    Done {
        /// The head of the message and the reader of its body, or why there
        /// is none.
        result: Result<(Header, RecvBody), Error>,
        /// The request to make of the peer to stop sending, if any.
        stop: Option<Stop>,
    },
}

/// A receiving driver, as its contracts speak of it.
pub struct RecvModel {
    pub phase: RecvPhase,
    /// The receiving half, while the driver holds it.
    pub recv: Option<RecvHalf>,
    pub stream_id: StreamId,
    /// The header block that is with the connection for decompression.
    pub frame: Option<HeadersFrame>,
}

impl RecvModel {
    /// A driver that has received nothing yet.
    pub open spec fn initial(recv: RecvHalf, stream_id: StreamId) -> RecvModel {
        RecvModel { phase: RecvPhase::Receiving, recv: Some(recv), stream_id, frame: None }
    }

    /// The driver holds the stream until it hands it to the body reader, and
    /// holds a header block exactly while one is being decompressed.
    pub open spec fn inv(self) -> bool {
        match self.phase {
            RecvPhase::Receiving => self.recv is Some && self.frame is None,
            RecvPhase::Decoding => self.recv is Some && self.frame is Some,
            RecvPhase::Finished => self.recv is None,
        }
    }

    /// Whether `event` is the outcome of what a driver in this state asked
    /// for. A finished driver takes none.
    pub open spec fn accepts(self, event: RecvEvent) -> bool {
        match self.phase {
            RecvPhase::Receiving => event is Frame,
            RecvPhase::Decoding => event is Decoded,
            RecvPhase::Finished => false,
        }
    }

    /// The request to stop that goes with refusing what the peer sent.
    pub open spec fn refusal(self, code: ErrorCode) -> Option<Stop> {
        match self.recv {
            Some(recv) => Some(Stop { stream: recv.id(), code }),
            None => None,
        }
    }

    /// The driver after `event`, and what it asks for next.
    pub open spec fn next(self, event: RecvEvent) -> (RecvModel, RecvAction) {
        match (self.phase, event) {
            (RecvPhase::Receiving, RecvEvent::Frame(Some(Ok(HttpFrame::Reserved)))) => (
                self,
                RecvAction::Receive,
            ),
            (RecvPhase::Receiving, RecvEvent::Frame(Some(Ok(HttpFrame::Headers(h))))) => (
                RecvModel { phase: RecvPhase::Decoding, frame: Some(h), ..self },
                RecvAction::Decode,
            ),
            (RecvPhase::Receiving, RecvEvent::Frame(Some(Ok(f)))) => (
                self,
                RecvAction::Done {
                    result: Err(Error::Peer(PeerError::UnexpectedFrame(f))),
                    stop: self.refusal(ErrorCode(FRAME_UNEXPECTED)),
                },
            ),
            (RecvPhase::Receiving, RecvEvent::Frame(Some(Err(e)))) => (
                self,
                RecvAction::Done {
                    result: Err(Error::Frame(e)),
                    stop: self.refusal(e.spec_code()),
                },
            ),
            (RecvPhase::Receiving, RecvEvent::Frame(None)) => (
                self,
                RecvAction::Done { result: Err(Error::Peer(PeerError::UnexpectedEnd)), stop: None },
            ),
            (RecvPhase::Decoding, RecvEvent::Decoded(Ok(header))) => (
                RecvModel { phase: RecvPhase::Finished, recv: None, frame: None, ..self },
                RecvAction::Done {
                    result: Ok(
                        (header, RecvBody { stream_id: self.stream_id, recv: self.recv.unwrap() }),
                    ),
                    stop: None,
                },
            ),
            (RecvPhase::Decoding, RecvEvent::Decoded(Err(code))) => (
                self,
                RecvAction::Done { result: Err(Error::Header(code)), stop: None },
            ),
            _ => (self, RecvAction::Done { result: Err(Error::Internal), stop: None }),
        }
    }
}

/// Where a receiving driver stands, with the header block that is being
/// decompressed.
pub enum RecvDataState {
    Receiving,
    Decoding(DecodeHeaders),
    Finished,
}

/// Receives the head of one request or response: skips the frames that mean
/// nothing here, has the first header block decompressed, and hands the rest
/// of the stream on as the body.
pub struct RecvData {
    state: RecvDataState,
    recv: Option<RecvHalf>,
    stream_id: StreamId,
}

impl View for RecvData {
    type V = RecvModel;

    closed spec fn view(&self) -> RecvModel {
        RecvModel {
            phase: match self.state {
                RecvDataState::Receiving => RecvPhase::Receiving,
                RecvDataState::Decoding(_) => RecvPhase::Decoding,
                RecvDataState::Finished => RecvPhase::Finished,
            },
            recv: self.recv,
            stream_id: self.stream_id,
            frame: match self.state {
                RecvDataState::Decoding(d) => d.spec_frame(),
                _ => None,
            },
        }
    }
}

impl RecvData {
    /// The driver is in a state that `new` and `poll` lead to.
    pub closed spec fn wf(&self) -> bool {
        &&& self@.inv()
        &&& match self.state {
            RecvDataState::Decoding(d) => d.spec_stream_id() == self.stream_id,
            _ => true,
        }
    }

    /// A driver that holds the invariant of its model.
    pub proof fn lemma_inv(&self)
        requires
            self.wf(),
        ensures
            self@.inv(),
    {
    }

    /// A driver for the message that arrives on `recv`, which is the
    /// receiving half of stream `stream_id`.
    pub fn new(recv: RecvHalf, stream_id: StreamId) -> (d: RecvData)
        ensures
            d.wf(),
            d@ == RecvModel::initial(recv, stream_id),
    {
        RecvData { stream_id, recv: Some(recv), state: RecvDataState::Receiving }
    }

    /// Where the receiving stands.
    pub fn phase(&self) -> (p: RecvPhase)
        ensures
            p == self@.phase,
    {
        match self.state {
            RecvDataState::Receiving => RecvPhase::Receiving,
            RecvDataState::Decoding(_) => RecvPhase::Decoding,
            RecvDataState::Finished => RecvPhase::Finished,
        }
    }

    /// The stream that the message arrives on.
    pub fn stream_id(&self) -> (id: StreamId)
        ensures
            id == self@.stream_id,
    {
        self.stream_id
    }

    /// The header block to hand to the connection, while one is being
    /// decompressed.
    pub fn decoding(&self) -> (f: Option<&HeadersFrame>)
        ensures
            match f {
                Some(frame) => self@.frame == Some(*frame),
                None => self@.frame is None,
            },
    {
        match &self.state {
            RecvDataState::Decoding(d) => d.frame(),
            _ => None,
        }
    }

    /// Asks the peer to stop sending, with `err_code`.
    ///
    /// Returns the request for the transport, or `None` once the stream has
    /// gone to the body reader. The driver stays as it is.
    pub fn reset(&mut self, err_code: ErrorCode) -> (stop: Option<Stop>)
        ensures
            *final(self) == *old(self),
            stop == old(self)@.refusal(err_code),
    {
        match &self.recv {
            Some(r) => Some(Stop { stream: r.id(), code: err_code }),
            None => None,
        }
    }

    /// Takes the outcome of the work asked for last and answers with the work
    /// to do next, or with the driver's result.
    ///
    /// The first thing to do is to ask the frame stream for a frame. A driver
    /// that has handed out the head of the message must not be polled again.
    pub fn poll(&mut self, event: RecvEvent) -> (action: RecvAction)
        requires
            old(self).wf(),
            old(self)@.accepts(event),
        ensures
            final(self).wf(),
            final(self)@ == old(self)@.next(event).0,
            action == old(self)@.next(event).1,
    {
        let mut state = RecvDataState::Finished;
        core::mem::swap(&mut self.state, &mut state);
        match state {
            RecvDataState::Receiving => {
                self.state = RecvDataState::Receiving;
                match event {
                    RecvEvent::Frame(Some(Ok(HttpFrame::Reserved))) => RecvAction::Receive,
                    RecvEvent::Frame(Some(Ok(HttpFrame::Headers(h)))) => {
                        self.state = RecvDataState::Decoding(
                            DecodeHeaders::new(h, self.stream_id),
                        );
                        RecvAction::Decode
                    },
                    RecvEvent::Frame(Some(Err(e))) => {
                        let stop = self.reset(e.code());
                        RecvAction::Done { result: Err(Error::Frame(e)), stop }
                    },
                    RecvEvent::Frame(Some(Ok(f))) => {
                        let stop = self.reset(ErrorCode(FRAME_UNEXPECTED));
                        RecvAction::Done {
                            result: Err(Error::Peer(PeerError::UnexpectedFrame(f))),
                            stop,
                        }
                    },
                    RecvEvent::Frame(None) => RecvAction::Done {
                        result: Err(Error::Peer(PeerError::UnexpectedEnd)),
                        stop: None,
                    },
                    _ => {
                        proof {
                            assert(false);
                        }
                        RecvAction::Done { result: Err(Error::Internal), stop: None }
                    },
                }
            },
            RecvDataState::Decoding(decode) => match event {
                RecvEvent::Decoded(decoded) => match decode.poll(Some(decoded)) {
                    Some(Ok(header)) => match self.recv.take() {
                        Some(recv) => RecvAction::Done {
                            result: Ok((header, RecvBody::new(self.stream_id, recv))),
                            stop: None,
                        },
                        None => {
                            proof {
                                assert(false);
                            }
                            RecvAction::Done { result: Err(Error::Internal), stop: None }
                        },
                    },
                    Some(Err(e)) => {
                        self.state = RecvDataState::Decoding(decode);
                        RecvAction::Done { result: Err(e), stop: None }
                    },
                    None => {
                        proof {
                            assert(false);
                        }
                        RecvAction::Done { result: Err(Error::Internal), stop: None }
                    },
                },
                _ => {
                    proof {
                        assert(false);
                    }
                    RecvAction::Done { result: Err(Error::Internal), stop: None }
                },
            },
            RecvDataState::Finished => {
                proof {
                    assert(false);
                }
                RecvAction::Done { result: Err(Error::Internal), stop: None }
            },
        }
    }
}

} // verus!
