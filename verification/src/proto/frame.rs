//! HTTP/3 frames and their wire format.
//!
//! A frame on the wire is a variable-length integer for its type, another for
//! the length of its payload, and the payload.

use crate::buf::{as_slice, buffered, extend_from_slice};
use crate::proto::varint;
use bytes::BytesMut;
use vstd::prelude::*;
use vstd::slice::{slice_subrange, slice_to_vec};

verus! {

pub const DATA: u64 = 0x0;

pub const HEADERS: u64 = 0x1;

pub const CANCEL_PUSH: u64 = 0x3;

pub const SETTINGS: u64 = 0x4;

pub const PUSH_PROMISE: u64 = 0x5;

pub const GOAWAY: u64 = 0x7;

pub const MAX_PUSH_ID: u64 = 0xD;

/// Why a SETTINGS payload was refused.
#[derive(Debug, Clone, Copy, PartialEq, Eq, Structural)]
pub enum SettingsError {
    /// The payload ends inside an identifier or a value.
    Malformed,
}

/// Why no frame came out of a buffer.
#[derive(Debug, Clone, Copy, PartialEq, Eq, Structural)]
pub enum Error {
    /// The payload does not have the shape its frame type asks for.
    Malformed,
    /// A frame type that the stream it arrived on does not admit.
    UnsupportedFrame(u64),
    /// The buffer ends before the frame does; the frame takes at least this
    /// many bytes.
    Incomplete(u64),
    /// The buffer holds the header of a DATA frame and not all of its payload.
    IncompleteData,
    /// A SETTINGS frame with a bad payload.
    Settings(SettingsError),
}

/// A chunk of a message body.
#[derive(Debug, Clone, PartialEq, Eq)]
pub struct DataFrame {
    pub payload: Vec<u8>,
}

/// A header block, as the QPACK encoder produced it.
#[derive(Debug, Clone, PartialEq, Eq)]
pub struct HeadersFrame {
    pub encoded: Vec<u8>,
}

/// Connection settings: identifier and value pairs, in wire order.
#[derive(Debug, Clone, PartialEq, Eq)]
pub struct SettingsFrame {
    pub entries: Vec<(u64, u64)>,
}

/// The promise of a pushed response, with its request header block.
#[derive(Debug, Clone, PartialEq, Eq)]
pub struct PushPromiseFrame {
    pub id: u64,
    pub encoded: Vec<u8>,
}

/// A decoded frame.
#[derive(Debug, Clone, PartialEq, Eq)]
pub enum HttpFrame {
    Data(DataFrame),
    Headers(HeadersFrame),
    CancelPush(u64),
    Settings(SettingsFrame),
    PushPromise(PushPromiseFrame),
    Goaway(u64),
    MaxPushId(u64),
    /// A frame of a type this endpoint has no use for; its payload is dropped.
    Reserved,
}

/// The mathematical value of a frame.
pub enum Frame {
    Data(Seq<u8>),
    Headers(Seq<u8>),
    CancelPush(u64),
    Settings(Seq<(u64, u64)>),
    PushPromise(u64, Seq<u8>),
    Goaway(u64),
    MaxPushId(u64),
    Reserved,
}

impl View for HttpFrame {
    type V = Frame;

    open spec fn view(&self) -> Frame {
        match *self {
            HttpFrame::Data(f) => Frame::Data(f.payload@),
            HttpFrame::Headers(f) => Frame::Headers(f.encoded@),
            HttpFrame::CancelPush(id) => Frame::CancelPush(id),
            HttpFrame::Settings(f) => Frame::Settings(f.entries@),
            HttpFrame::PushPromise(f) => Frame::PushPromise(f.id, f.encoded@),
            HttpFrame::Goaway(id) => Frame::Goaway(id),
            HttpFrame::MaxPushId(id) => Frame::MaxPushId(id),
            HttpFrame::Reserved => Frame::Reserved,
        }
    }
}

/// The wire form of a list of settings: each identifier followed by its value.
pub open spec fn settings_bytes(entries: Seq<(u64, u64)>) -> Seq<u8>
    decreases entries.len(),
{
    if entries.len() == 0 {
        Seq::empty()
    } else {
        varint::spec_encode(entries[0].0) + varint::spec_encode(entries[0].1) + settings_bytes(
            entries.skip(1),
        )
    }
}

/// The settings that a payload spells out, or `None` where it ends inside one.
pub open spec fn parse_settings(s: Seq<u8>) -> Option<Seq<(u64, u64)>>
    decreases s.len(),
{
    if s.len() == 0 {
        Some(Seq::empty())
    } else {
        match varint::spec_decode(s) {
            None => None,
            Some((id, n)) => match varint::spec_decode(s.skip(n as int)) {
                None => None,
                Some((value, m)) => match parse_settings(s.skip(n as int).skip(m as int)) {
                    None => None,
                    Some(rest) => Some(seq![(id, value)] + rest),
                },
            },
        }
    }
}

impl Frame {
    /// The type written in front of the frame. A reserved frame has none.
    pub open spec fn ty(self) -> u64 {
        match self {
            Frame::Data(_) => DATA,
            Frame::Headers(_) => HEADERS,
            Frame::CancelPush(_) => CANCEL_PUSH,
            Frame::Settings(_) => SETTINGS,
            Frame::PushPromise(_, _) => PUSH_PROMISE,
            Frame::Goaway(_) => GOAWAY,
            Frame::MaxPushId(_) => MAX_PUSH_ID,
            Frame::Reserved => 0,
        }
    }

    /// The bytes that follow the frame's header.
    pub open spec fn payload(self) -> Seq<u8> {
        match self {
            Frame::Data(p) => p,
            Frame::Headers(e) => e,
            Frame::CancelPush(id) => varint::spec_encode(id),
            Frame::Settings(entries) => settings_bytes(entries),
            Frame::PushPromise(id, e) => varint::spec_encode(id) + e,
            Frame::Goaway(id) => varint::spec_encode(id),
            Frame::MaxPushId(id) => varint::spec_encode(id),
            Frame::Reserved => Seq::empty(),
        }
    }

    /// Every number in the frame, and the length of its payload, has an
    /// encoding.
    pub open spec fn well_formed(self) -> bool {
        &&& self.payload().len() <= varint::MAX_VALUE
        &&& match self {
            Frame::CancelPush(id) => id <= varint::MAX_VALUE,
            Frame::Settings(entries) => forall|i: int|
                0 <= i < entries.len() ==> (#[trigger] entries[i]).0 <= varint::MAX_VALUE
                    && entries[i].1 <= varint::MAX_VALUE,
            Frame::PushPromise(id, _) => id <= varint::MAX_VALUE,
            Frame::Goaway(id) => id <= varint::MAX_VALUE,
            Frame::MaxPushId(id) => id <= varint::MAX_VALUE,
            _ => true,
        }
    }

    /// The frame's header: its type, then the length of its payload.
    pub open spec fn header(self) -> Seq<u8> {
        header_bytes(self.ty(), self.payload().len() as u64)
    }

    /// The frame as it travels: header, then payload. A reserved frame is
    /// never sent and has no bytes.
    pub open spec fn encoding(self) -> Seq<u8> {
        if self is Reserved {
            Seq::empty()
        } else {
            self.header() + self.payload()
        }
    }
}

/// A frame header for type `ty` and a payload of `len` bytes.
pub open spec fn header_bytes(ty: u64, len: u64) -> Seq<u8> {
    varint::spec_encode(ty) + varint::spec_encode(len)
}

/// Lower bound on the length of the frame that starts with `s`, where `s`
/// ends inside the frame's header: the length at which the header could be
/// complete, going by the bytes seen so far.
pub open spec fn header_need(s: Seq<u8>) -> nat {
    if s.len() == 0 {
        2
    } else if s.len() <= varint::announced_size(s[0]) {
        varint::announced_size(s[0]) + 1
    } else {
        varint::announced_size(s[0]) + varint::announced_size(
            s[varint::announced_size(s[0]) as int],
        )
    }
}

/// The frame that a payload of type `ty` stands for.
pub open spec fn parse_payload(ty: u64, payload: Seq<u8>) -> Result<Frame, Error> {
    if ty == DATA {
        Ok(Frame::Data(payload))
    } else if ty == HEADERS {
        Ok(Frame::Headers(payload))
    } else if ty == CANCEL_PUSH || ty == GOAWAY || ty == MAX_PUSH_ID {
        match varint::spec_decode(payload) {
            Some((id, n)) if n == payload.len() => Ok(
                if ty == CANCEL_PUSH {
                    Frame::CancelPush(id)
                } else if ty == GOAWAY {
                    Frame::Goaway(id)
                } else {
                    Frame::MaxPushId(id)
                },
            ),
            _ => Err(Error::Malformed),
        }
    } else if ty == PUSH_PROMISE {
        match varint::spec_decode(payload) {
            Some((id, n)) => Ok(Frame::PushPromise(id, payload.skip(n as int))),
            None => Err(Error::Malformed),
        }
    } else if ty == SETTINGS {
        match parse_settings(payload) {
            Some(entries) => Ok(Frame::Settings(entries)),
            None => Err(Error::Settings(SettingsError::Malformed)),
        }
    } else {
        Ok(Frame::Reserved)
    }
}

/// What the header at the front of `s` says: frame type, payload length and
/// the header's own length; `None` where `s` ends inside the header.
pub open spec fn parse_header(s: Seq<u8>) -> Option<(u64, u64, nat)> {
    match varint::spec_decode(s) {
        None => None,
        Some((ty, n)) => match varint::spec_decode(s.skip(n as int)) {
            None => None,
            Some((len, m)) => Some((ty, len, n + m)),
        },
    }
}

/// The frame at the front of `s` and the number of bytes it takes.
///
/// Where `s` ends before the frame does, the error is `IncompleteData` for a
/// DATA frame whose header is whole, and `Incomplete` with a lower bound on
/// the frame's length otherwise.
pub open spec fn spec_parse(s: Seq<u8>) -> Result<(Frame, nat), Error> {
    match parse_header(s) {
        None => Err(Error::Incomplete(header_need(s) as u64)),
        Some((ty, len, head)) => {
            if s.len() - head < len {
                if ty == DATA {
                    Err(Error::IncompleteData)
                } else {
                    Err(Error::Incomplete((head + len) as u64))
                }
            } else {
                match parse_payload(ty, s.subrange(head as int, head + len)) {
                    Ok(frame) => Ok((frame, (head + len) as nat)),
                    Err(e) => Err(e),
                }
            }
        },
    }
}


/// `settings_bytes` goes over concatenation.
pub proof fn lemma_settings_bytes_concat(a: Seq<(u64, u64)>, b: Seq<(u64, u64)>)
    ensures
        settings_bytes(a + b) == settings_bytes(a) + settings_bytes(b),
    decreases a.len(),
{
    if a.len() == 0 {
        assert(a + b =~= b);
    } else {
        lemma_settings_bytes_concat(a.skip(1), b);
        assert((a + b).skip(1) =~= a.skip(1) + b);
        assert((a + b)[0] == a[0]);
        assert(settings_bytes(a + b) =~= settings_bytes(a) + settings_bytes(b));
    }
}

/// Reads the two integers of a frame header.
fn decode_header(buf: &[u8]) -> (res: Option<(u64, u64, usize)>)
    ensures
        match res {
            Some((ty, len, head)) => parse_header(buf@) == Some((ty, len, head as nat)),
            None => parse_header(buf@) is None,
        },
{
    match varint::decode(buf) {
        None => None,
        Some((ty, n)) => {
            let rest = slice_subrange(buf, n, buf.len());
            assert(rest@ =~= buf@.skip(n as int));
            match varint::decode(rest) {
                None => None,
                Some((len, m)) => Some((ty, len, n + m)),
            }
        },
    }
}

/// Number of bytes the encoding that starts with `first` takes.
fn announced(first: u8) -> (n: usize)
    ensures
        n == varint::announced_size(first),
{
    if first < 0x40 {
        1
    } else if first < 0x80 {
        2
    } else if first < 0xC0 {
        4
    } else {
        8
    }
}

/// Lower bound on the frame's length where `buf` ends inside its header.
fn min_header(buf: &[u8]) -> (n: u64)
    ensures
        n == header_need(buf@),
{
    if buf.len() == 0 {
        2
    } else {
        let n = announced(buf[0]);
        if buf.len() <= n {
            (n + 1) as u64
        } else {
            (n + announced(buf[n])) as u64
        }
    }
}

/// Reads the settings that a SETTINGS payload spells out.
fn decode_settings(payload: &[u8]) -> (res: Option<Vec<(u64, u64)>>)
    ensures
        match res {
            Some(entries) => parse_settings(payload@) == Some(entries@),
            None => parse_settings(payload@) is None,
        },
{
    let mut entries: Vec<(u64, u64)> = Vec::new();
    let mut pos: usize = 0;
    proof {
        assert(payload@.skip(0) =~= payload@);
        match parse_settings(payload@) {
            Some(rest) => {
                assert(entries@ + rest =~= rest);
            },
            None => {},
        }
    }
    while pos < payload.len()
        invariant
            pos <= payload.len(),
            parse_settings(payload@) == match parse_settings(payload@.skip(pos as int)) {
                Some(rest) => Some(entries@ + rest),
                None => None,
            },
        decreases payload.len() - pos,
    {
        let ghost here = payload@.skip(pos as int);
        let rest = slice_subrange(payload, pos, payload.len());
        assert(rest@ =~= here);
        let (id, n) = match varint::decode(rest) {
            None => {
                return None;
            },
            Some(pair) => pair,
        };
        let after = slice_subrange(rest, n, rest.len());
        assert(after@ =~= here.skip(n as int));
        let (value, m) = match varint::decode(after) {
            None => {
                return None;
            },
            Some(pair) => pair,
        };
        proof {
            assert(here.skip(n as int).skip(m as int) =~= payload@.skip(pos + n + m));
            match parse_settings(payload@.skip(pos + n + m)) {
                Some(tail) => {
                    assert(entries@.push((id, value)) + tail =~= entries@ + (seq![(id, value)]
                        + tail));
                },
                None => {},
            }
        }
        entries.push((id, value));
        pos = pos + n + m;
    }
    assert(entries@ + Seq::<(u64, u64)>::empty() =~= entries@);
    Some(entries)
}

/// Reads the one integer that makes up the whole of `payload`.
fn decode_single(payload: &[u8]) -> (res: Option<u64>)
    ensures
        match res {
            Some(id) => varint::spec_decode(payload@) == Some((id, payload@.len())),
            None => !(varint::spec_decode(payload@) matches Some((_, n)) && n == payload@.len()),
        },
{
    match varint::decode(payload) {
        Some((id, n)) => if n == payload.len() {
            Some(id)
        } else {
            None
        },
        None => None,
    }
}

impl HttpFrame {
    /// Reads the frame at the front of `buf`.
    ///
    /// Returns the frame and the number of bytes it takes. Nothing is
    /// returned for a frame that `buf` does not hold whole; the error then
    /// says how much more is needed.
    pub fn decode(buf: &[u8]) -> (res: Result<(HttpFrame, usize), Error>)
        ensures
            match res {
                Ok((frame, n)) => spec_parse(buf@) == Ok::<_, Error>((frame@, n as nat)),
                Err(e) => spec_parse(buf@) == Err::<(Frame, nat), _>(e),
            },
    {
        let (ty, len, head) = match decode_header(buf) {
            None => {
                return Err(Error::Incomplete(min_header(buf)));
            },
            Some(h) => h,
        };
        proof {
            varint::lemma_decode_bounds(buf@);
            varint::lemma_decode_bounds(buf@.skip(varint::decoded_size(buf@) as int));
        }
        if ((buf.len() - head) as u64) < len {
            if ty == DATA {
                return Err(Error::IncompleteData);
            }
            return Err(Error::Incomplete(head as u64 + len));
        }
        let end: usize = head + len as usize;
        let payload = slice_subrange(buf, head, end);
        if ty == DATA {
            Ok((HttpFrame::Data(DataFrame { payload: slice_to_vec(payload) }), end))
        } else if ty == HEADERS {
            Ok((HttpFrame::Headers(HeadersFrame { encoded: slice_to_vec(payload) }), end))
        } else if ty == CANCEL_PUSH {
            match decode_single(payload) {
                Some(id) => Ok((HttpFrame::CancelPush(id), end)),
                None => Err(Error::Malformed),
            }
        } else if ty == GOAWAY {
            match decode_single(payload) {
                Some(id) => Ok((HttpFrame::Goaway(id), end)),
                None => Err(Error::Malformed),
            }
        } else if ty == MAX_PUSH_ID {
            match decode_single(payload) {
                Some(id) => Ok((HttpFrame::MaxPushId(id), end)),
                None => Err(Error::Malformed),
            }
        } else if ty == PUSH_PROMISE {
            match varint::decode(payload) {
                Some((id, n)) => {
                    let block = slice_subrange(payload, n, payload.len());
                    assert(block@ =~= payload@.skip(n as int));
                    Ok(
                        (
                            HttpFrame::PushPromise(
                                PushPromiseFrame { id, encoded: slice_to_vec(block) },
                            ),
                            end,
                        ),
                    )
                },
                None => Err(Error::Malformed),
            }
        } else if ty == SETTINGS {
            match decode_settings(payload) {
                Some(entries) => Ok((HttpFrame::Settings(SettingsFrame { entries }), end)),
                None => Err(Error::Settings(SettingsError::Malformed)),
            }
        } else {
            Ok((HttpFrame::Reserved, end))
        }
    }
}

/// A DATA frame whose payload is handed on in pieces, as it arrives.
#[derive(Debug, Clone, Copy, PartialEq, Eq, Structural)]
pub struct PartialData {
    /// Length of the whole payload, as the frame's header gave it.
    pub len: u64,
    /// Number of payload bytes that are still to come.
    pub remaining: u64,
}

impl PartialData {
    /// Opens the DATA frame at the front of `buf`, which holds the frame's
    /// header and less than all of its payload. Returns the state to go on
    /// with and the payload bytes that `buf` holds, which may be none.
    pub fn decode(buf: &[u8]) -> (res: (PartialData, DataFrame))
        requires
            spec_parse(buf@) == Err::<(Frame, nat), _>(Error::IncompleteData),
        ensures
            parse_header(buf@) matches Some((_, len, head)) && res.0.len == len
                && res.0.remaining == len - (buf@.len() - head) && res.1.payload@
                == buf@.skip(head as int),
            res.0.remaining > 0,
    {
        let (ty, len, head) = match decode_header(buf) {
            Some(h) => h,
            None => {
                proof {
                    assert(false);
                }
                (DATA, 0, 0)
            },
        };
        proof {
            varint::lemma_decode_bounds(buf@);
            varint::lemma_decode_bounds(buf@.skip(varint::decoded_size(buf@) as int));
        }
        let payload = slice_subrange(buf, head, buf.len());
        assert(payload@ =~= buf@.skip(head as int));
        let remaining: u64 = len - (buf.len() - head) as u64;
        (PartialData { len, remaining }, DataFrame { payload: slice_to_vec(payload) })
    }

    /// Takes the next piece of the payload from the front of `buf`: all of
    /// `buf`, or as much of it as the frame still owes. Returns the piece and
    /// its length.
    pub fn decode_data(&mut self, buf: &[u8]) -> (res: (DataFrame, usize))
        ensures
            res.1 == if old(self).remaining < buf@.len() {
                old(self).remaining as int
            } else {
                buf@.len() as int
            },
            res.0.payload@ == buf@.take(res.1 as int),
            final(self).len == old(self).len,
            final(self).remaining == old(self).remaining - res.1,
    {
        let n: usize = if self.remaining < buf.len() as u64 {
            self.remaining as usize
        } else {
            buf.len()
        };
        let piece = slice_subrange(buf, 0, n);
        assert(piece@ =~= buf@.take(n as int));
        self.remaining = self.remaining - n as u64;
        (DataFrame { payload: slice_to_vec(piece) }, n)
    }

    /// Number of payload bytes that are still to come.
    pub fn remaining(&self) -> (n: u64)
        ensures
            n == self.remaining,
    {
        self.remaining
    }
}


impl View for DataFrame {
    type V = Frame;

    open spec fn view(&self) -> Frame {
        Frame::Data(self.payload@)
    }
}

impl View for HeadersFrame {
    type V = Frame;

    open spec fn view(&self) -> Frame {
        Frame::Headers(self.encoded@)
    }
}

impl View for SettingsFrame {
    type V = Frame;

    open spec fn view(&self) -> Frame {
        Frame::Settings(self.entries@)
    }
}

impl View for PushPromiseFrame {
    type V = Frame;

    open spec fn view(&self) -> Frame {
        Frame::PushPromise(self.id, self.encoded@)
    }
}

/// Appends the header of a frame of type `ty` with `len` bytes of payload.
pub fn encode_header(ty: u64, len: u64, out: &mut Vec<u8>)
    requires
        ty <= varint::MAX_VALUE,
        len <= varint::MAX_VALUE,
    ensures
        final(out)@ == old(out)@ + header_bytes(ty, len),
        header_bytes(ty, len).len() <= 2 * varint::MAX_SIZE,
{
    varint::encode(ty, out);
    varint::encode(len, out);
    proof {
        varint::lemma_roundtrip(ty, Seq::empty());
        varint::lemma_roundtrip(len, Seq::empty());
        assert(out@ =~= old(out)@ + header_bytes(ty, len));
    }
}

/// Appends the wire form of `entries`.
fn encode_settings(entries: &Vec<(u64, u64)>, out: &mut Vec<u8>)
    requires
        Frame::Settings(entries@).well_formed(),
    ensures
        final(out)@ == old(out)@ + settings_bytes(entries@),
{
    let mut i: usize = 0;
    assert(entries@.take(0) =~= Seq::empty());
    assert(out@ =~= old(out)@ + settings_bytes(entries@.take(0)));
    while i < entries.len()
        invariant
            i <= entries.len(),
            Frame::Settings(entries@).well_formed(),
            out@ == old(out)@ + settings_bytes(entries@.take(i as int)),
        decreases entries.len() - i,
    {
        let ghost before = out@;
        let (id, value) = entries[i];
        assert(entries@[i as int].0 <= varint::MAX_VALUE);
        varint::encode(id, out);
        varint::encode(value, out);
        proof {
            let one = seq![(id, value)];
            assert(one.skip(1) =~= Seq::empty());
            reveal_with_fuel(settings_bytes, 2);
            assert(settings_bytes(one) =~= varint::spec_encode(id) + varint::spec_encode(value));
            assert(entries@.take(i + 1) =~= entries@.take(i as int) + one);
            lemma_settings_bytes_concat(entries@.take(i as int), one);
            assert(out@ =~= old(out)@ + settings_bytes(entries@.take(i + 1)));
        }
        i = i + 1;
    }
    assert(entries@.take(i as int) =~= entries@);
}

/// Appends one frame to `buf`: the header for `ty` and `payload`, then
/// `payload`.
fn put_frame(ty: u64, payload: &[u8], buf: &mut BytesMut)
    requires
        ty <= varint::MAX_VALUE,
        payload@.len() <= varint::MAX_VALUE,
        buffered(*old(buf)).len() + header_bytes(ty, payload@.len() as u64).len()
            + payload@.len() <= usize::MAX,
    ensures
        buffered(*final(buf)) == buffered(*old(buf)) + (header_bytes(ty, payload@.len() as u64)
            + payload@),
{
    let mut head: Vec<u8> = Vec::new();
    encode_header(ty, payload.len() as u64, &mut head);
    assert(head@ =~= header_bytes(ty, payload@.len() as u64));
    extend_from_slice(buf, head.as_slice());
    extend_from_slice(buf, payload);
    assert(buffered(*buf) =~= buffered(*old(buf)) + (header_bytes(ty, payload@.len() as u64)
        + payload@));
}

impl DataFrame {
    /// Appends the frame's wire form to `buf`.
    pub fn encode(&self, buf: &mut BytesMut)
        requires
            self@.well_formed(),
            buffered(*old(buf)).len() + self@.encoding().len() <= usize::MAX,
        ensures
            buffered(*final(buf)) == buffered(*old(buf)) + self@.encoding(),
    {
        put_frame(DATA, self.payload.as_slice(), buf);
    }
}

impl HeadersFrame {
    /// Appends the frame's wire form to `buf`.
    pub fn encode(&self, buf: &mut BytesMut)
        requires
            self@.well_formed(),
            buffered(*old(buf)).len() + self@.encoding().len() <= usize::MAX,
        ensures
            buffered(*final(buf)) == buffered(*old(buf)) + self@.encoding(),
    {
        put_frame(HEADERS, self.encoded.as_slice(), buf);
    }
}

impl SettingsFrame {
    /// Appends the frame's wire form to `buf`.
    pub fn encode(&self, buf: &mut BytesMut)
        requires
            self@.well_formed(),
            buffered(*old(buf)).len() + self@.encoding().len() <= usize::MAX,
        ensures
            buffered(*final(buf)) == buffered(*old(buf)) + self@.encoding(),
    {
        let mut payload: Vec<u8> = Vec::new();
        encode_settings(&self.entries, &mut payload);
        assert(payload@ =~= settings_bytes(self.entries@));
        put_frame(SETTINGS, payload.as_slice(), buf);
    }
}

impl PushPromiseFrame {
    /// Appends the frame's wire form to `buf`.
    pub fn encode(&self, buf: &mut BytesMut)
        requires
            self@.well_formed(),
            buffered(*old(buf)).len() + self@.encoding().len() <= usize::MAX,
        ensures
            buffered(*final(buf)) == buffered(*old(buf)) + self@.encoding(),
    {
        let mut payload: Vec<u8> = Vec::new();
        varint::encode(self.id, &mut payload);
        payload.extend_from_slice(self.encoded.as_slice());
        assert(payload@ =~= varint::spec_encode(self.id) + self.encoded@);
        put_frame(PUSH_PROMISE, payload.as_slice(), buf);
    }
}

/// The encoding of `id` as a payload of its own.
fn single(id: u64) -> (payload: Vec<u8>)
    requires
        id <= varint::MAX_VALUE,
    ensures
        payload@ == varint::spec_encode(id),
{
    let mut payload: Vec<u8> = Vec::new();
    varint::encode(id, &mut payload);
    assert(payload@ =~= varint::spec_encode(id));
    payload
}

/// Length of the wire form of `entries`.
fn settings_len(entries: &Vec<(u64, u64)>) -> (n: u64)
    requires
        Frame::Settings(entries@).well_formed(),
    ensures
        n == settings_bytes(entries@).len(),
{
    let mut total: u64 = 0;
    let mut i: usize = 0;
    assert(entries@.take(0) =~= Seq::empty());
    while i < entries.len()
        invariant
            i <= entries.len(),
            Frame::Settings(entries@).well_formed(),
            total == settings_bytes(entries@.take(i as int)).len(),
            total <= varint::MAX_VALUE,
        decreases entries.len() - i,
    {
        let (id, value) = entries[i];
        assert(entries@[i as int].0 <= varint::MAX_VALUE);
        proof {
            let one = seq![(id, value)];
            assert(one.skip(1) =~= Seq::empty());
            reveal_with_fuel(settings_bytes, 2);
            assert(settings_bytes(one) =~= varint::spec_encode(id) + varint::spec_encode(value));
            assert(entries@.take(i + 1) =~= entries@.take(i as int) + one);
            lemma_settings_bytes_concat(entries@.take(i as int), one);
            varint::lemma_first_byte(id);
            varint::lemma_first_byte(value);
            assert(entries@ =~= entries@.take(i + 1) + entries@.skip(i + 1));
            lemma_settings_bytes_concat(entries@.take(i + 1), entries@.skip(i + 1));
        }
        total = total + (varint::size(id) + varint::size(value)) as u64;
        i = i + 1;
    }
    assert(entries@.take(i as int) =~= entries@);
    total
}

/// Whether a SETTINGS frame that holds `entries` is well formed.
fn settings_fit(entries: &Vec<(u64, u64)>) -> (ok: bool)
    ensures
        ok == Frame::Settings(entries@).well_formed(),
{
    let mut total: u64 = 0;
    let mut i: usize = 0;
    assert(entries@.take(0) =~= Seq::empty());
    while i < entries.len()
        invariant
            i <= entries.len(),
            total == settings_bytes(entries@.take(i as int)).len(),
            total <= varint::MAX_VALUE,
            forall|k: int|
                0 <= k < i ==> (#[trigger] entries@[k]).0 <= varint::MAX_VALUE && entries@[k].1
                    <= varint::MAX_VALUE,
        decreases entries.len() - i,
    {
        let (id, value) = entries[i];
        if id > varint::MAX_VALUE || value > varint::MAX_VALUE {
            return false;
        }
        proof {
            let one = seq![(id, value)];
            assert(one.skip(1) =~= Seq::empty());
            reveal_with_fuel(settings_bytes, 2);
            assert(settings_bytes(one) =~= varint::spec_encode(id) + varint::spec_encode(value));
            assert(entries@.take(i + 1) =~= entries@.take(i as int) + one);
            lemma_settings_bytes_concat(entries@.take(i as int), one);
            varint::lemma_roundtrip(id, Seq::empty());
            varint::lemma_roundtrip(value, Seq::empty());
            assert(entries@ =~= entries@.take(i + 1) + entries@.skip(i + 1));
            lemma_settings_bytes_concat(entries@.take(i + 1), entries@.skip(i + 1));
        }
        let add: u64 = (varint::size(id) + varint::size(value)) as u64;
        if total + add > varint::MAX_VALUE {
            return false;
        }
        total = total + add;
        i = i + 1;
    }
    assert(entries@.take(i as int) =~= entries@);
    true
}

/// Appends a frame whose payload is the one integer `id`.
fn put_single(ty: u64, id: u64, buf: &mut BytesMut)
    requires
        ty <= varint::MAX_VALUE,
        id <= varint::MAX_VALUE,
        buffered(*old(buf)).len() + header_bytes(ty, varint::spec_encode(id).len() as u64).len()
            + varint::spec_encode(id).len() <= usize::MAX,
    ensures
        buffered(*final(buf)) == buffered(*old(buf)) + (header_bytes(
            ty,
            varint::spec_encode(id).len() as u64,
        ) + varint::spec_encode(id)),
{
    let mut payload: Vec<u8> = Vec::new();
    varint::encode(id, &mut payload);
    assert(payload@ =~= varint::spec_encode(id));
    proof {
        varint::lemma_roundtrip(id, Seq::empty());
    }
    put_frame(ty, payload.as_slice(), buf);
}

impl HttpFrame {
    /// The type written in front of the frame; 0 for a reserved frame, which
    /// is never written.
    pub fn ty(&self) -> (ty: u64)
        ensures
            ty == self@.ty(),
    {
        match self {
            HttpFrame::Data(_) => DATA,
            HttpFrame::Headers(_) => HEADERS,
            HttpFrame::CancelPush(_) => CANCEL_PUSH,
            HttpFrame::Settings(_) => SETTINGS,
            HttpFrame::PushPromise(_) => PUSH_PROMISE,
            HttpFrame::Goaway(_) => GOAWAY,
            HttpFrame::MaxPushId(_) => MAX_PUSH_ID,
            HttpFrame::Reserved => 0,
        }
    }

    /// Whether every number in the frame, and the length of its payload, has
    /// an encoding.
    pub fn is_well_formed(&self) -> (ok: bool)
        ensures
            ok == self@.well_formed(),
    {
        match self {
            HttpFrame::Data(f) => f.payload.len() as u64 <= varint::MAX_VALUE,
            HttpFrame::Headers(f) => f.encoded.len() as u64 <= varint::MAX_VALUE,
            HttpFrame::CancelPush(id) => *id <= varint::MAX_VALUE,
            HttpFrame::Goaway(id) => *id <= varint::MAX_VALUE,
            HttpFrame::MaxPushId(id) => *id <= varint::MAX_VALUE,
            HttpFrame::PushPromise(f) => {
                f.id <= varint::MAX_VALUE && f.encoded.len() as u64 <= varint::MAX_VALUE
                    && varint::size(f.id) as u64 + f.encoded.len() as u64 <= varint::MAX_VALUE
            },
            HttpFrame::Settings(f) => settings_fit(&f.entries),
            HttpFrame::Reserved => true,
        }
    }

    /// The bytes that follow the frame's header on the wire.
    pub fn into_payload(self) -> (payload: Vec<u8>)
        requires
            self@.well_formed(),
        ensures
            payload@ == self@.payload(),
    {
        match self {
            HttpFrame::Data(f) => f.payload,
            HttpFrame::Headers(f) => f.encoded,
            HttpFrame::CancelPush(id) => single(id),
            HttpFrame::Goaway(id) => single(id),
            HttpFrame::MaxPushId(id) => single(id),
            HttpFrame::PushPromise(f) => {
                let mut payload: Vec<u8> = Vec::new();
                varint::encode(f.id, &mut payload);
                payload.extend_from_slice(f.encoded.as_slice());
                assert(payload@ =~= varint::spec_encode(f.id) + f.encoded@);
                payload
            },
            HttpFrame::Settings(f) => {
                let mut payload: Vec<u8> = Vec::new();
                encode_settings(&f.entries, &mut payload);
                assert(payload@ =~= settings_bytes(f.entries@));
                payload
            },
            HttpFrame::Reserved => Vec::new(),
        }
    }

    /// Length of the frame's wire form.
    pub fn encoded_len(&self) -> (n: u64)
        requires
            self@.well_formed(),
        ensures
            n == self@.encoding().len(),
    {
        let ty = self.ty();
        let len: u64 = match self {
            HttpFrame::Data(f) => f.payload.len() as u64,
            HttpFrame::Headers(f) => f.encoded.len() as u64,
            HttpFrame::CancelPush(id) => {
                proof {
                    varint::lemma_first_byte(*id);
                }
                varint::size(*id) as u64
            },
            HttpFrame::Goaway(id) => {
                proof {
                    varint::lemma_first_byte(*id);
                }
                varint::size(*id) as u64
            },
            HttpFrame::MaxPushId(id) => {
                proof {
                    varint::lemma_first_byte(*id);
                }
                varint::size(*id) as u64
            },
            HttpFrame::PushPromise(f) => {
                proof {
                    varint::lemma_first_byte(f.id);
                }
                varint::size(f.id) as u64 + f.encoded.len() as u64
            },
            HttpFrame::Settings(f) => settings_len(&f.entries),
            HttpFrame::Reserved => {
                return 0;
            },
        };
        proof {
            lemma_header_roundtrip(ty, len, Seq::empty());
        }
        (varint::size(ty) + varint::size(len)) as u64 + len
    }

    /// Appends the frame's wire form to `buf` where that can be done: where
    /// the frame is well formed and the buffer has room for it. Says whether
    /// it did; if not, `buf` stays as it is.
    pub fn try_encode(&self, buf: &mut BytesMut) -> (done: bool)
        ensures
            done == (self@.well_formed() && buffered(*old(buf)).len() + self@.encoding().len()
                <= usize::MAX),
            buffered(*final(buf)) == if done {
                buffered(*old(buf)) + self@.encoding()
            } else {
                buffered(*old(buf))
            },
    {
        if !self.is_well_formed() {
            return false;
        }
        let held = as_slice(buf).len();
        if self.encoded_len() > (usize::MAX - held) as u64 {
            return false;
        }
        self.encode(buf);
        true
    }

    /// Appends the frame's wire form to `buf`. A reserved frame has none, and
    /// `buf` stays as it is.
    pub fn encode(&self, buf: &mut BytesMut)
        requires
            self@.well_formed(),
            buffered(*old(buf)).len() + self@.encoding().len() <= usize::MAX,
        ensures
            buffered(*final(buf)) == buffered(*old(buf)) + self@.encoding(),
    {
        match self {
            HttpFrame::Data(f) => f.encode(buf),
            HttpFrame::Headers(f) => f.encode(buf),
            HttpFrame::Settings(f) => f.encode(buf),
            HttpFrame::PushPromise(f) => f.encode(buf),
            HttpFrame::CancelPush(id) => put_single(CANCEL_PUSH, *id, buf),
            HttpFrame::Goaway(id) => put_single(GOAWAY, *id, buf),
            HttpFrame::MaxPushId(id) => put_single(MAX_PUSH_ID, *id, buf),
            HttpFrame::Reserved => {
                assert(buffered(*buf) + Seq::<u8>::empty() =~= buffered(*buf));
            },
        }
    }
}

/// Parsing the wire form of a list of settings gives the list back.
pub proof fn lemma_settings_roundtrip(entries: Seq<(u64, u64)>)
    requires
        Frame::Settings(entries).well_formed(),
    ensures
        parse_settings(settings_bytes(entries)) == Some(entries),
    decreases entries.len(),
{
    if entries.len() == 0 {
    } else {
        let id = entries[0].0;
        let value = entries[0].1;
        let tail = entries.skip(1);
        let s = settings_bytes(entries);
        let after_id = varint::spec_encode(value) + settings_bytes(tail);
        assert(s =~= varint::spec_encode(id) + after_id);
        varint::lemma_roundtrip(id, after_id);
        varint::lemma_roundtrip(value, settings_bytes(tail));
        assert(s.skip(varint::encoded_size(id) as int) =~= after_id);
        assert(after_id.skip(varint::encoded_size(value) as int) =~= settings_bytes(tail));
        assert forall|i: int| 0 <= i < tail.len() implies (#[trigger] tail[i]).0
            <= varint::MAX_VALUE && tail[i].1 <= varint::MAX_VALUE by {
            assert(tail[i] == entries[i + 1]);
        }
        assert(settings_bytes(tail).len() <= s.len());
        lemma_settings_roundtrip(tail);
        assert(seq![(id, value)] + tail =~= entries);
    }
}

/// The header of a well-formed frame, whatever follows it, reads back as the
/// frame's type and the length of its payload.
pub proof fn lemma_header_roundtrip(ty: u64, len: u64, rest: Seq<u8>)
    requires
        ty <= varint::MAX_VALUE,
        len <= varint::MAX_VALUE,
    ensures
        header_bytes(ty, len).len() == varint::encoded_size(ty) + varint::encoded_size(len),
        parse_header(header_bytes(ty, len) + rest) == Some(
            (ty, len, header_bytes(ty, len).len()),
        ),
{
    let s = header_bytes(ty, len) + rest;
    let after_ty = varint::spec_encode(len) + rest;
    assert(s =~= varint::spec_encode(ty) + after_ty);
    varint::lemma_roundtrip(ty, after_ty);
    varint::lemma_roundtrip(len, rest);
    assert(s.skip(varint::encoded_size(ty) as int) =~= after_ty);
}

/// The payload of a well-formed frame reads back as the frame.
pub proof fn lemma_payload_roundtrip(f: Frame)
    requires
        f.well_formed(),
        !(f is Reserved),
    ensures
        parse_payload(f.ty(), f.payload()) == Ok::<_, Error>(f),
{
    match f {
        Frame::CancelPush(id) => {
            varint::lemma_roundtrip(id, Seq::empty());
            assert(varint::spec_encode(id) + Seq::<u8>::empty() =~= varint::spec_encode(id));
        },
        Frame::Goaway(id) => {
            varint::lemma_roundtrip(id, Seq::empty());
            assert(varint::spec_encode(id) + Seq::<u8>::empty() =~= varint::spec_encode(id));
        },
        Frame::MaxPushId(id) => {
            varint::lemma_roundtrip(id, Seq::empty());
            assert(varint::spec_encode(id) + Seq::<u8>::empty() =~= varint::spec_encode(id));
        },
        Frame::PushPromise(id, e) => {
            varint::lemma_roundtrip(id, e);
            assert((varint::spec_encode(id) + e).skip(varint::encoded_size(id) as int) =~= e);
        },
        Frame::Settings(entries) => {
            lemma_settings_roundtrip(entries);
        },
        _ => {},
    }
}

/// Round trip: the wire form of a frame, whatever follows it, parses as that
/// frame and as nothing more than its own bytes.
pub proof fn lemma_parse_encoding(f: Frame, rest: Seq<u8>)
    requires
        f.well_formed(),
        !(f is Reserved),
    ensures
        spec_parse(f.encoding() + rest) == Ok::<_, Error>((f, f.encoding().len())),
{
    let len = f.payload().len() as u64;
    let s = f.encoding() + rest;
    assert(s =~= f.header() + (f.payload() + rest));
    lemma_header_roundtrip(f.ty(), len, f.payload() + rest);
    let head = f.header().len() as int;
    assert(s.subrange(head, head + len) =~= f.payload());
    lemma_payload_roundtrip(f);
}


/// A buffer that starts with the header of a well-formed frame reads back
/// the frame's type and the length of its payload.
pub proof fn lemma_header_whole(f: Frame, t: Seq<u8>)
    requires
        f.well_formed(),
        !(f is Reserved),
        t.len() >= f.header().len(),
        t.take(f.header().len() as int) == f.header(),
    ensures
        f.header().len() >= 2,
        parse_header(t) == Some((f.ty(), f.payload().len() as u64, f.header().len())),
{
    let rest = t.skip(f.header().len() as int);
    assert(t =~= t.take(f.header().len() as int) + rest);
    lemma_header_roundtrip(f.ty(), f.payload().len() as u64, rest);
}

/// A buffer that ends inside the header of a well-formed frame holds no
/// header, and the lower bound it gives for the frame is above what the
/// buffer holds and within the header.
pub proof fn lemma_header_prefix(f: Frame, k: int)
    requires
        f.well_formed(),
        !(f is Reserved),
        0 <= k < f.header().len(),
    ensures
        parse_header(f.header().take(k)) is None,
        k < header_need(f.header().take(k)) <= f.header().len(),
{
    let ty = f.ty();
    let len = f.payload().len() as u64;
    let a = varint::spec_encode(ty);
    let b = varint::spec_encode(len);
    let h = f.header();
    let p = h.take(k);
    varint::lemma_first_byte(ty);
    varint::lemma_first_byte(len);
    let n1 = a.len() as int;
    let n2 = b.len() as int;
    assert(h =~= a + b);
    if k == 0 {
    } else if k < n1 {
        assert(p[0] == a[0]);
    } else {
        assert(p[0] == a[0]);
        let tail = p.skip(n1);
        assert(p =~= a + tail);
        varint::lemma_roundtrip(ty, tail);
        if k == n1 {
        } else {
            assert(tail[0] == b[0]);
            assert(p[n1] == b[0]);
        }
    }
}

/// A buffer that holds less than all of a well-formed frame, and for a DATA
/// frame less than its header, parses as incomplete, with a lower bound that
/// is above what the buffer holds and no more than the frame's length.
pub proof fn lemma_parse_prefix(f: Frame, k: int)
    requires
        f.well_formed(),
        !(f is Reserved),
        0 <= k < f.encoding().len(),
        f is Data ==> k < f.header().len(),
    ensures
        spec_parse(f.encoding().take(k)) matches Err(Error::Incomplete(min)) && k < min
            <= f.encoding().len(),
{
    let e = f.encoding();
    let p = e.take(k);
    let head = f.header().len() as int;
    varint::lemma_first_byte(f.ty());
    varint::lemma_first_byte(f.payload().len() as u64);
    if k < head {
        assert(p =~= f.header().take(k));
        lemma_header_prefix(f, k);
    } else {
        assert(p.take(head) =~= f.header());
        lemma_header_whole(f, p);
    }
}


/// A header is read from its own bytes alone: two buffers that agree up to
/// the end of the header that the first one holds give the same header.
pub proof fn lemma_header_agree(s: Seq<u8>, t: Seq<u8>, n: int)
    requires
        parse_header(s) matches Some((_, _, head)) && head <= n,
        n <= s.len(),
        n <= t.len(),
        s.take(n) == t.take(n),
    ensures
        parse_header(t) == parse_header(s),
{
    varint::lemma_decode_bounds(s);
    let n1 = varint::decoded_size(s) as int;
    varint::lemma_decode_bounds(s.skip(n1));
    let n2 = varint::decoded_size(s.skip(n1)) as int;
    assert forall|i: int| 0 <= i < n implies s[i] == t[i] by {
        assert(s.take(n)[i] == s[i]);
        assert(t.take(n)[i] == t[i]);
    }
    assert(t.subrange(0, n1) =~= s.subrange(0, n1));
    varint::lemma_decode_prefix(s, t);
    assert(t.skip(n1).subrange(0, n2) =~= s.skip(n1).subrange(0, n2));
    varint::lemma_decode_prefix(s.skip(n1), t.skip(n1));
}

/// A buffer cut inside a header holds no header, and the lower bound it
/// gives for the frame is above the cut and within the header.
pub proof fn lemma_header_truncate(s: Seq<u8>, k: int)
    requires
        parse_header(s) matches Some((_, _, head)) && 0 <= k < head,
    ensures
        parse_header(s.take(k)) is None,
        parse_header(s) matches Some((_, _, head)) && k < header_need(s.take(k)) <= head,
{
    varint::lemma_decode_bounds(s);
    let n1 = varint::decoded_size(s) as int;
    varint::lemma_decode_bounds(s.skip(n1));
    let p = s.take(k);
    if k == 0 {
    } else if k < n1 {
        assert(p[0] == s[0]);
    } else {
        assert(p[0] == s[0]);
        assert(p.subrange(0, n1) =~= s.subrange(0, n1));
        varint::lemma_decode_prefix(s, p);
        if k > n1 {
            assert(p.skip(n1)[0] == s.skip(n1)[0]);
            assert(p[n1] == s.skip(n1)[0]);
        }
    }
}

/// A frame is read from its own bytes alone: a buffer that starts with the
/// bytes of the frame that another buffer holds gives the same frame.
pub proof fn lemma_parse_extend(s: Seq<u8>, t: Seq<u8>)
    requires
        spec_parse(s) matches Ok((_, n)) && n <= t.len() && t.take(n as int) == s.take(n as int),
    ensures
        spec_parse(t) == spec_parse(s),
        spec_parse(s) matches Ok((_, n)) && 2 <= n <= s.len(),
{
    let (ty, len, head) = parse_header(s).unwrap();
    let n = head + len;
    varint::lemma_decode_bounds(s);
    varint::lemma_decode_bounds(s.skip(varint::decoded_size(s) as int));
    lemma_header_agree(s, t, n as int);
    assert forall|i: int| 0 <= i < n implies s[i] == t[i] by {
        assert(s.take(n as int)[i] == s[i]);
        assert(t.take(n as int)[i] == t[i]);
    }
    assert(t.subrange(head as int, n as int) =~= s.subrange(head as int, n as int));
}

/// A buffer cut inside a frame holds no frame. Cut inside the header, or
/// inside the payload of a frame other than DATA, it is incomplete, with a
/// lower bound for the frame above the cut and within the frame. Cut inside
/// the payload of a DATA frame, it holds the header and part of the payload.
pub proof fn lemma_parse_truncate(s: Seq<u8>, k: int)
    requires
        spec_parse(s) matches Ok((_, n)) && 0 <= k < n,
    ensures
        ({
            let (ty, len, head) = parse_header(s).unwrap();
            let cut = spec_parse(s.take(k));
            &&& parse_header(s) is Some
            &&& 2 <= head <= head + len <= s.len()
            &&& spec_parse(s) matches Ok((_, n)) && n == head + len
            &&& if k < head {
                cut matches Err(Error::Incomplete(min)) && k < min <= head
            } else if ty == DATA {
                cut == Err::<(Frame, nat), _>(Error::IncompleteData) && parse_header(s.take(k))
                    == parse_header(s)
            } else {
                cut == Err::<(Frame, nat), _>(Error::Incomplete((head + len) as u64))
            }
        }),
{
    let (ty, len, head) = parse_header(s).unwrap();
    varint::lemma_decode_bounds(s);
    varint::lemma_decode_bounds(s.skip(varint::decoded_size(s) as int));
    if k < head {
        lemma_header_truncate(s, k);
    } else {
        assert(s.take(k).take(k) =~= s.take(k));
        lemma_header_agree(s, s.take(k), k);
    }
}

} // verus!
