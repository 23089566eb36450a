//! The failures that the request and response drivers report.

use crate::frame;
use crate::proto::frame::HttpFrame;
use crate::proto::ErrorCode;
use vstd::prelude::*;

verus! {

/// Why a write on a stream failed, as the transport tells it.
#[derive(Debug, Clone, Copy, PartialEq, Eq, Structural)]
pub enum WriteError {
    /// The peer asked for the stream to stop, with this code.
    Stopped(ErrorCode),
    /// The connection is gone.
    ConnectionClosed,
    /// The stream was finished or reset before.
    UnknownStream,
    /// The stream was opened in early data that the peer then refused.
    ZeroRttRejected,
}

/// What a peer did that the protocol does not allow.
#[derive(Debug)]
pub enum PeerError {
    /// The first frame of a message was this one, and not a header block.
    UnexpectedFrame(HttpFrame),
    /// The stream ended before a header block came.
    UnexpectedEnd,
}

/// Why a driver gave up.
#[derive(Debug)]
pub enum Error {
    /// The peer broke the protocol.
    Peer(PeerError),
    /// A driver was used against its own rules.
    Internal,
    /// The frame stream failed.
    Frame(frame::Error),
    /// A write on the stream failed.
    Write(WriteError),
    /// The message body could not be produced.
    Body,
    /// The header compression refused a block; the code says why.
    Header(ErrorCode),
}

} // verus!
