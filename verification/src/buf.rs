//! The receive and transmit buffer, `bytes::BytesMut`, as verified code sees it.
//!
//! The buffer's contents are named by [`buffered`]; the functions below are the
//! only way verified code reads or changes a buffer, and their contracts are
//! taken on trust from the `bytes` crate.

use bytes::{Buf, BytesMut};
use vstd::prelude::*;

verus! {

/// `bytes::BytesMut`, taken as an opaque type: verified code sees of a buffer
/// only what [`buffered`] names.
#[verifier::external_type_specification]
#[verifier::external_body]
pub struct ExBytesMut(BytesMut);

/// The bytes a buffer holds, front first.
pub uninterp spec fn buffered(buf: BytesMut) -> Seq<u8>;

/// `BytesMut`'s view as a slice (`AsRef<[u8]>`): all the bytes it holds, in
/// order.
#[verifier::external_body]
pub(crate) fn as_slice(buf: &BytesMut) -> (s: &[u8])
    ensures
        s@ == buffered(*buf),
{
    buf.as_ref()
}

/// `Buf::advance` on `BytesMut`: drops the first `cnt` bytes and keeps the
/// rest. The crate panics where `cnt` exceeds the length, hence the
/// precondition.
#[verifier::external_body]
pub(crate) fn advance(buf: &mut BytesMut, cnt: usize)
    requires
        cnt <= buffered(*old(buf)).len(),
    ensures
        buffered(*final(buf)) == buffered(*old(buf)).skip(cnt as int),
{
    buf.advance(cnt)
}

/// `BytesMut::extend_from_slice`: appends `src` behind what the buffer holds.
/// The crate panics where the new length overflows `usize`, hence the
/// precondition.
#[verifier::external_body]
pub(crate) fn extend_from_slice(buf: &mut BytesMut, src: &[u8])
    requires
        buffered(*old(buf)).len() + src@.len() <= usize::MAX,
    ensures
        buffered(*final(buf)) == buffered(*old(buf)) + src@,
{
    buf.extend_from_slice(src)
}

} // verus!
