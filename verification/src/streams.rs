//! Handles on the two halves of a QUIC stream.
//!
//! The transport is driven from outside this library. A handle stands for one
//! half of one stream while the state machines pass it around: it cannot be
//! copied, so at any instant one owner holds it.

use crate::proto::ErrorCode;
use vstd::prelude::*;

verus! {

/// The number of a stream within its connection.
#[derive(Debug, Clone, Copy, PartialEq, Eq, Structural)]
pub struct StreamId(pub u64);

/// The sending half of a stream.
#[derive(Debug)]
pub struct SendHalf {
    id: StreamId,
}

impl SendHalf {
    /// The number of the stream this half belongs to.
    pub closed spec fn spec_id(&self) -> StreamId {
        self.id
    }

    /// A handle on the sending half of stream `id`.
    pub fn new(id: StreamId) -> (s: SendHalf)
        ensures
            s.spec_id() == id,
    {
        SendHalf { id }
    }

    /// The number of the stream this half belongs to.
    #[verifier::when_used_as_spec(spec_id)]
    pub fn id(&self) -> (id: StreamId)
        ensures
            id == self.spec_id(),
    {
        self.id
    }
}

/// The receiving half of a stream, with the frame decoder that reads it.
#[derive(Debug)]
pub struct RecvHalf {
    id: StreamId,
}

impl RecvHalf {
    /// The number of the stream this half belongs to.
    pub closed spec fn spec_id(&self) -> StreamId {
        self.id
    }

    /// A handle on the receiving half of stream `id`.
    pub fn new(id: StreamId) -> (s: RecvHalf)
        ensures
            s.spec_id() == id,
    {
        RecvHalf { id }
    }

    /// The number of the stream this half belongs to.
    #[verifier::when_used_as_spec(spec_id)]
    pub fn id(&self) -> (id: StreamId)
        ensures
            id == self.spec_id(),
    {
        self.id
    }
}

/// An order to abandon the sending half of a stream: the transport is to
/// reset `stream` with `code`.
#[derive(Debug)]
pub struct Reset {
    pub stream: SendHalf,
    pub code: ErrorCode,
}

/// An order to give up reading a stream: the transport is to ask the peer to
/// stop sending on `stream`, with `code`.
#[derive(Debug, Clone, Copy, PartialEq, Eq, Structural)]
pub struct Stop {
    pub stream: StreamId,
    pub code: ErrorCode,
}

} // verus!
