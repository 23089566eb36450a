//! Wire-level definitions: variable-length integers, frames and error codes.

use vstd::prelude::*;

pub mod frame;
pub mod headers;
pub mod varint;

verus! {

pub const NO_ERROR: u64 = 0x100;

pub const GENERAL_PROTOCOL_ERROR: u64 = 0x101;

pub const INTERNAL_ERROR: u64 = 0x102;

pub const STREAM_CREATION_ERROR: u64 = 0x103;

pub const CLOSED_CRITICAL_STREAM: u64 = 0x104;

pub const FRAME_UNEXPECTED: u64 = 0x105;

pub const FRAME_ERROR: u64 = 0x106;

pub const EXCESSIVE_LOAD: u64 = 0x107;

pub const ID_ERROR: u64 = 0x108;

pub const SETTINGS_ERROR: u64 = 0x109;

pub const MISSING_SETTINGS: u64 = 0x10A;

pub const REQUEST_REJECTED: u64 = 0x10B;

pub const REQUEST_CANCELLED: u64 = 0x10C;

pub const REQUEST_INCOMPLETE: u64 = 0x10D;

pub const MESSAGE_ERROR: u64 = 0x10E;

pub const CONNECT_ERROR: u64 = 0x10F;

pub const VERSION_FALLBACK: u64 = 0x110;

pub const QPACK_DECOMPRESSION_FAILED: u64 = 0x200;

pub const QPACK_ENCODER_STREAM_ERROR: u64 = 0x201;

pub const QPACK_DECODER_STREAM_ERROR: u64 = 0x202;

/// An HTTP/3 error code, as it travels in a stream reset, a stop request or a
/// connection close. The constants of this module are
/// the codes that the protocol defines.
#[derive(Debug, Clone, Copy, PartialEq, Eq, Structural)]
pub struct ErrorCode(pub u64);

impl ErrorCode {
    /// The code a peer sent in a QUIC frame, taken as it is.
    pub fn from_wire(code: u64) -> (c: ErrorCode)
        ensures
            c.0 == code,
    {
        ErrorCode(code)
    }

    /// The number that stands for this code in a QUIC frame.
    pub fn to_wire(self) -> (code: u64)
        ensures
            code == self.0,
    {
        self.0
    }
}

} // verus!
