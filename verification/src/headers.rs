//! Sending and receiving one header block.

use crate::error::Error;
use crate::frame::{WriteFrame, WriteFrameState};
use crate::proto::frame::{HeadersFrame, HttpFrame};
use crate::proto::headers::Header;
use crate::proto::ErrorCode;
use crate::streams::{Reset, SendHalf, StreamId};
use vstd::prelude::*;

verus! {

/// A header block that waits for the connection to decompress it.
///
/// The connection does the work. This type holds what is handed to it, the
/// frame and the stream it came on, and turns its answer into the driver's
/// result.
pub struct DecodeHeaders {
    frame: Option<HeadersFrame>,
    stream_id: StreamId,
}

impl DecodeHeaders {
    /// The frame to decompress, if one is held.
    pub closed spec fn spec_frame(&self) -> Option<HeadersFrame> {
        self.frame
    }

    /// The stream the frame came on.
    pub closed spec fn spec_stream_id(&self) -> StreamId {
        self.stream_id
    }

    /// Holds `frame`, received on stream `stream_id`, for decompression.
    pub fn new(frame: HeadersFrame, stream_id: StreamId) -> (d: DecodeHeaders)
        ensures
            d.spec_frame() == Some(frame),
            d.spec_stream_id() == stream_id,
    {
        DecodeHeaders { stream_id, frame: Some(frame) }
    }

    /// The frame to hand to the connection, if one is held.
    pub fn frame(&self) -> (f: Option<&HeadersFrame>)
        ensures
            match f {
                Some(frame) => self.spec_frame() == Some(*frame),
                None => self.spec_frame() is None,
            },
    {
        self.frame.as_ref()
    }

    /// The stream the frame came on.
    #[verifier::when_used_as_spec(spec_stream_id)]
    pub fn stream_id(&self) -> (id: StreamId)
        ensures
            id == self.spec_stream_id(),
    {
        self.stream_id
    }

    /// Turns the connection's answer into the result of the decompression.
    ///
    /// `decoded` is `None` while the connection waits for instructions from
    /// the peer's encoder, and the result is then pending (`None`) too. With
    /// no frame held there is nothing to decompress, and the result is an
    /// internal error whatever `decoded` says.
    pub fn poll(&self, decoded: Option<Result<Header, ErrorCode>>) -> (res: Option<
        Result<Header, Error>,
    >)
        ensures
            match (self.spec_frame(), decoded) {
                (None, _) => res matches Some(Err(Error::Internal)),
                (Some(_), None) => res is None,
                (Some(_), Some(Ok(header))) => res == Some(Ok::<_, Error>(header)),
                (Some(_), Some(Err(code))) => res matches Some(Err(Error::Header(c))) && c
                    == code,
            },
    {
        match self.frame {
            None => Some(Err(Error::Internal)),
            Some(_) => match decoded {
                None => None,
                Some(Ok(header)) => Some(Ok(header)),
                Some(Err(code)) => Some(Err(Error::Header(code))),
            },
        }
    }
}

/// Writes one header block to a stream, as a HEADERS frame.
pub struct SendHeaders(pub WriteFrame);

impl SendHeaders {
    /// Starts the writing of a header block on `send`.
    ///
    /// `encoded` is the connection's answer to the request to compress the
    /// block: the frame to send, or the reason for refusing the block. With a
    /// refusal nothing is written, and the error carries the reason.
    pub fn new(encoded: Result<HeadersFrame, ErrorCode>, send: SendHalf) -> (res: Result<
        SendHeaders,
        Error,
    >)
        requires
            encoded matches Ok(frame) ==> frame@.well_formed(),
        ensures
            match encoded {
                Ok(frame) => res matches Ok(s) && s.0.wf() && s.0.wire() == frame@.encoding()
                    && s.0.header() == frame@.header() && s.0.written() == Seq::<u8>::empty()
                    && s.0.state() == WriteFrameState::Header(0) && s.0.stream() == Some(send),
                Err(code) => res matches Err(Error::Header(c)) && c == code,
            },
    {
        match encoded {
            Ok(frame) => Ok(SendHeaders(WriteFrame::new(send, HttpFrame::Headers(frame)))),
            Err(code) => Err(Error::Header(code)),
        }
    }

    /// Gives up the stream, to be reset with `err_code`.
    pub fn reset(&mut self, err_code: ErrorCode) -> (order: Option<Reset>)
        requires
            old(self).0.wf(),
        ensures
            final(self).0.wf(),
            final(self).0.stream() is None,
            final(self).0.state() == old(self).0.state(),
            final(self).0.wire() == old(self).0.wire(),
            final(self).0.header() == old(self).0.header(),
            final(self).0.written() == old(self).0.written(),
            match old(self).0.stream() {
                Some(s) => order == Some(Reset { stream: s, code: err_code }),
                None => order is None,
            },
    {
        self.0.reset(err_code)
    }

    /// Answers whether the peer asked for the writing to stop.
    pub fn poll_stopped(&self, signal: Option<Option<u64>>) -> (reason: Option<Option<ErrorCode>>)
        ensures
            reason == match (self.0.stream(), signal) {
                (Some(_), Some(Some(code))) => Some(Some(ErrorCode(code))),
                (Some(_), Some(None)) => Some(None),
                _ => None,
            },
    {
        self.0.poll_stopped(signal)
    }
}

} // verus!
