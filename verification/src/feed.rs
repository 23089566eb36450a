//! How the frames that a decoder hands out depend on the way the bytes of a
//! stream arrive.
//!
//! A stream is fed to a decoder by appending bytes to a buffer and calling
//! the decoder until it asks for more. The laws of this module compare the
//! two extremes: all of the stream at once, and one byte at a time.

use crate::frame::{step, DecoderState};
use crate::proto::frame::{lemma_parse_extend, lemma_parse_truncate, parse_header, spec_parse};
use crate::proto::frame::{Frame, PartialData, DATA};
use crate::proto::varint;
use vstd::prelude::*;

verus! {

/// What the reader of a stream of frames is given: a byte of a message body,
/// or a frame that is not DATA.
pub enum Token {
    Byte(u8),
    Frame(Frame),
}

/// The bytes of a piece of a body, one token each.
pub open spec fn body(p: Seq<u8>) -> Seq<Token> {
    Seq::new(p.len(), |i: int| Token::Byte(p[i]))
}

/// What a frame gives its reader: its payload byte by byte for a DATA frame,
/// the frame itself for any other.
pub open spec fn tokens_of(f: Frame) -> Seq<Token> {
    match f {
        Frame::Data(p) => body(p),
        _ => seq![Token::Frame(f)],
    }
}

/// What a sequence of frames gives its reader. The pieces of a body count
/// for the bytes they hold, however the body is cut into pieces.
pub open spec fn tokens(fs: Seq<Frame>) -> Seq<Token>
    decreases fs.len(),
{
    if fs.len() == 0 {
        Seq::empty()
    } else {
        tokens_of(fs[0]) + tokens(fs.skip(1))
    }
}

/// A decoder, the buffer it reads from, and the frames it has handed out.
#[verifier::ext_equal]
pub struct Fed {
    pub decoder: DecoderState,
    pub buf: Seq<u8>,
    pub out: Seq<Frame>,
}

/// Calls the decoder on the buffer until it hands out no frame.
pub open spec fn drain(d: DecoderState, buf: Seq<u8>) -> Fed
    decreases buf.len(),
{
    let s = step(d, buf);
    match s.output {
        Ok(Some(f)) if 0 < s.consumed <= buf.len() => {
            let rest = drain(s.next, buf.skip(s.consumed as int));
            Fed { decoder: rest.decoder, buf: rest.buf, out: seq![f] + rest.out }
        },
        _ => Fed { decoder: s.next, buf: buf.skip(s.consumed as int), out: Seq::empty() },
    }
}

/// Appends the bytes of `input` to the buffer one at a time, and after each
/// calls the decoder until it hands out no frame.
pub open spec fn feed_bytewise(d: DecoderState, buf: Seq<u8>, input: Seq<u8>) -> Fed
    decreases input.len(),
{
    if input.len() == 0 {
        Fed { decoder: d, buf, out: Seq::empty() }
    } else {
        let first = drain(d, buf.push(input[0]));
        let rest = feed_bytewise(first.decoder, first.buf, input.skip(1));
        Fed { decoder: rest.decoder, buf: rest.buf, out: first.out + rest.out }
    }
}

/// The frames that `s` spells out, one after the other, or `None` where `s`
/// is not a whole number of frames.
pub open spec fn frames_of(s: Seq<u8>) -> Option<Seq<Frame>>
    decreases s.len(),
{
    if s.len() == 0 {
        Some(Seq::empty())
    } else {
        match spec_parse(s) {
            Ok((f, n)) => if 0 < n <= s.len() {
                match frames_of(s.skip(n as int)) {
                    Some(rest) => Some(seq![f] + rest),
                    None => None,
                }
            } else {
                None
            },
            Err(_) => None,
        }
    }
}

/// A decoder with an empty buffer hands out nothing.
proof fn lemma_drain_empty(d: DecoderState)
    ensures
        drain(d, Seq::empty()) == (Fed { decoder: d, buf: Seq::empty(), out: Seq::empty() }),
{
    assert(Seq::<u8>::empty().skip(0) =~= Seq::<u8>::empty());
}

/// The tokens of a frame followed by more frames.
proof fn lemma_tokens_cons(f: Frame, fs: Seq<Frame>)
    ensures
        tokens(seq![f] + fs) == tokens_of(f) + tokens(fs),
        tokens(Seq::<Frame>::empty() + fs) == tokens(fs),
{
    assert((seq![f] + fs).skip(1) =~= fs);
    assert(Seq::<Frame>::empty() + fs =~= fs);
}

/// All at once: a decoder between two frames, given a buffer that holds a
/// whole number of frames, hands out those frames, each in one piece, empties
/// the buffer and is between two frames again.
pub proof fn lemma_drain_whole(s: Seq<u8>)
    requires
        frames_of(s) is Some,
    ensures
        drain(DecoderState::clean(), s) == (Fed {
            decoder: DecoderState::clean(),
            buf: Seq::empty(),
            out: frames_of(s).unwrap(),
        }),
    decreases s.len(),
{
    if s.len() == 0 {
        assert(s.skip(0) =~= Seq::<u8>::empty());
    } else {
        let (f, n) = spec_parse(s).unwrap();
        lemma_drain_whole(s.skip(n as int));
    }
}

/// Where a decoder stands after the first `k` bytes of `s` came one at a
/// time, `s` being a whole number of frames and `k` a place inside its first
/// frame: before the header is in, and for a frame other than DATA before
/// all of it is in, the buffer holds the `k` bytes; inside the payload of a
/// DATA frame the buffer is empty and the decoder owes the rest.
#[verifier::opaque]
spec fn midway(s: Seq<u8>, k: int, d: DecoderState, buf: Seq<u8>) -> bool {
    if s.len() == 0 {
        k == 0 && d == DecoderState::clean() && buf.len() == 0
    } else {
        &&& spec_parse(s) matches Ok((_, n))
        &&& parse_header(s) matches Some((ty, len, head))
        &&& 0 <= k < n
        &&& if k == 0 {
            d == DecoderState::clean() && buf.len() == 0
        } else if k < head {
            d.partial is None && buf == s.take(k) && (d.expected matches Some(m) ==> m <= head)
        } else if ty == DATA {
            d == (DecoderState {
                partial: Some(PartialData { len, remaining: (n - k) as u64 }),
                expected: None,
            }) && buf.len() == 0
        } else {
            d.partial is None && buf == s.take(k) && (d.expected matches Some(m) ==> m <= n)
        }
    }
}

/// What is still to come for the reader after the first `k` bytes of `s`.
#[verifier::opaque]
spec fn ahead(s: Seq<u8>, k: int) -> Seq<Token> {
    match (frames_of(s), parse_header(s)) {
        (Some(fs), Some((_, _, head))) => if fs.len() == 0 {
            Seq::empty()
        } else {
            (match fs[0] {
                Frame::Data(p) => body(
                    p.skip(
                        if k > head {
                            k - head
                        } else {
                            0
                        },
                    ),
                ),
                f => tokens_of(f),
            }) + tokens(fs.skip(1))
        },
        _ => Seq::empty(),
    }
}

/// Length of the first frame of `s`.
#[verifier::opaque]
spec fn first_len(s: Seq<u8>) -> int {
    match spec_parse(s) {
        Ok((_, n)) => n as int,
        Err(_) => 0,
    }
}

/// Whether `s` is a whole number of frames.
#[verifier::opaque]
spec fn whole(s: Seq<u8>) -> bool {
    frames_of(s) is Some
}

/// The tokens of two runs of frames, one after the other.
pub proof fn lemma_tokens_concat(a: Seq<Frame>, b: Seq<Frame>)
    ensures
        tokens(a + b) == tokens(a) + tokens(b),
    decreases a.len(),
{
    if a.len() == 0 {
        assert(a + b =~= b);
        assert(tokens(a) + tokens(b) =~= tokens(b));
    } else {
        lemma_tokens_concat(a.skip(1), b);
        assert((a + b).skip(1) =~= a.skip(1) + b);
        assert((a + b)[0] == a[0]);
        assert(tokens(a + b) =~= tokens(a) + tokens(b));
    }
}

/// A byte of payload that comes alone is handed out alone.
proof fn lemma_byte_of_payload(len: u64, remaining: u64, b: u8)
    requires
        0 < remaining,
    ensures
        drain(
            DecoderState { partial: Some(PartialData { len, remaining }), expected: None },
            seq![b],
        ) == (Fed {
            decoder: if remaining == 1 {
                DecoderState::clean()
            } else {
                DecoderState {
                    partial: Some(PartialData { len, remaining: (remaining - 1) as u64 }),
                    expected: None,
                }
            },
            buf: Seq::empty(),
            out: seq![Frame::Data(seq![b])],
        }),
{
    let d = DecoderState { partial: Some(PartialData { len, remaining }), expected: None };
    let grown = seq![b];
    let s1 = step(d, grown);
    assert(grown.take(1) =~= grown);
    assert(grown.skip(1) =~= Seq::<u8>::empty());
    lemma_drain_empty(s1.next);
    assert(seq![Frame::Data(seq![b])] + Seq::<Frame>::empty() =~= seq![Frame::Data(seq![b])]);
}

/// A buffer that holds less than a frame stays as it is, and the minimum
/// that the decoder keeps stays within `bound`.
proof fn lemma_byte_short(d: DecoderState, grown: Seq<u8>, bound: int)
    requires
        d.partial is None,
        grown.len() > 0,
        spec_parse(grown) matches Err(crate::proto::frame::Error::Incomplete(m)) && m <= bound,
        d.expected matches Some(m0) ==> m0 <= bound,
    ensures
        drain(d, grown).buf == grown,
        drain(d, grown).out == Seq::<Frame>::empty(),
        drain(d, grown).decoder.partial is None,
        drain(d, grown).decoder.expected matches Some(m) ==> m <= bound,
{
    assert(grown.skip(0) =~= grown);
}

/// A buffer that holds the header of a DATA frame and none of its payload
/// is emptied, and the decoder owes the whole payload.
proof fn lemma_byte_opens_data(d: DecoderState, grown: Seq<u8>)
    requires
        d.partial is None,
        grown.len() > 0,
        spec_parse(grown) == Err::<(Frame, nat), _>(crate::proto::frame::Error::IncompleteData),
        parse_header(grown) matches Some((_, _, head)) && head == grown.len(),
        d.expected matches Some(m0) ==> m0 <= grown.len(),
    ensures
        drain(d, grown) == (Fed {
            decoder: DecoderState {
                partial: Some(
                    PartialData {
                        len: parse_header(grown).unwrap().1,
                        remaining: parse_header(grown).unwrap().1,
                    },
                ),
                expected: None,
            },
            buf: Seq::empty(),
            out: Seq::empty(),
        }),
{
    assert(grown.skip(grown.len() as int) =~= Seq::<u8>::empty());
}

/// A buffer that holds one whole frame and no more is emptied, and the
/// frame is handed out.
proof fn lemma_byte_completes(d: DecoderState, grown: Seq<u8>, f: Frame)
    requires
        d.partial is None,
        grown.len() > 0,
        spec_parse(grown) == Ok::<_, crate::proto::frame::Error>((f, grown.len())),
        d.expected matches Some(m0) ==> m0 <= grown.len(),
    ensures
        drain(d, grown) == (Fed {
            decoder: DecoderState::clean(),
            buf: Seq::empty(),
            out: seq![f],
        }),
{
    let s1 = step(d, grown);
    assert(grown.skip(grown.len() as int) =~= Seq::<u8>::empty());
    lemma_drain_empty(s1.next);
    assert(seq![f] + Seq::<Frame>::empty() =~= seq![f]);
}

/// The first frame of a stream that is a whole number of frames.
proof fn lemma_first_frame(s: Seq<u8>)
    requires
        frames_of(s) is Some,
        s.len() > 0,
    ensures
        spec_parse(s) matches Ok((f, n)) && parse_header(s) matches Some((ty, len, head)) && 2
            <= head && n == head + len && n <= s.len() && frames_of(s.skip(n as int)) is Some
            && frames_of(s).unwrap() == seq![f] + frames_of(s.skip(n as int)).unwrap() && (ty
            == DATA ==> f == Frame::Data(s.subrange(head as int, n as int))) && (ty != DATA
            ==> !(f is Data)),
{
    lemma_parse_extend(s, s);
    varint::lemma_decode_bounds(s);
    varint::lemma_decode_bounds(s.skip(varint::decoded_size(s) as int));
}

/// One more byte, inside the payload of a DATA frame.
proof fn lemma_step_payload(s: Seq<u8>, k: int, d: DecoderState, buf: Seq<u8>)
    requires
        frames_of(s) is Some,
        s.len() > 0,
        midway(s, k, d, buf),
        parse_header(s) matches Some((ty, _, head)) && ty == DATA && k >= head,
    ensures
        ({
            let n = first_len(s);
            let first = drain(d, buf.push(s[k]));
            &&& 0 <= k < n <= s.len()
            &&& whole(s.skip(n))
            &&& tokens(first.out) + (if k + 1 < n {
                ahead(s, k + 1)
            } else {
                ahead(s.skip(n), 0)
            }) == ahead(s, k)
            &&& if k + 1 < n {
                midway(s, k + 1, first.decoder, first.buf)
            } else {
                midway(s.skip(n), 0, first.decoder, first.buf)
            }
        }),
{
    reveal(midway);
    reveal(ahead);
    reveal(first_len);
    reveal(whole);
    lemma_first_frame(s);
    let (f, n) = spec_parse(s).unwrap();
    let (ty, len, head) = parse_header(s).unwrap();
    let p = s.subrange(head as int, n as int);
    let b = s[k];
    assert(buf.push(b) =~= seq![b]);
    lemma_byte_of_payload(len, (n - k) as u64, b);
    let first = drain(d, seq![b]);
    let rest = frames_of(s.skip(n as int)).unwrap();
    assert((seq![f] + rest).skip(1) =~= rest);
    lemma_tokens_cons(Frame::Data(seq![b]), Seq::empty());
    assert(seq![Frame::Data(seq![b])] + Seq::<Frame>::empty() =~= seq![Frame::Data(seq![b])]);
    assert(tokens(first.out) =~= body(seq![b]));
    assert(p[k - head] == b);
    if k + 1 < n {
        assert(body(p.skip(k - head)) =~= body(seq![b]) + body(p.skip(k + 1 - head)));
        assert(tokens(first.out) + ahead(s, k + 1) =~= ahead(s, k));
    } else {
        assert(body(p.skip(k - head)) =~= body(seq![b]));
        lemma_ahead_start(s.skip(n as int));
        lemma_midway_start(s.skip(n as int));
        assert(tokens(first.out) + tokens(rest) =~= ahead(s, k));
    }
}

/// One more byte, before the frame is whole and, for a DATA frame, before
/// its header is.
#[verifier::rlimit(80)]
proof fn lemma_step_frame(s: Seq<u8>, k: int, d: DecoderState, buf: Seq<u8>)
    requires
        frames_of(s) is Some,
        s.len() > 0,
        midway(s, k, d, buf),
        parse_header(s) matches Some((ty, _, head)) && (ty != DATA || k < head),
    ensures
        ({
            let n = first_len(s);
            let first = drain(d, buf.push(s[k]));
            &&& 0 <= k < n <= s.len()
            &&& whole(s.skip(n))
            &&& tokens(first.out) + (if k + 1 < n {
                ahead(s, k + 1)
            } else {
                ahead(s.skip(n), 0)
            }) == ahead(s, k)
            &&& if k + 1 < n {
                midway(s, k + 1, first.decoder, first.buf)
            } else {
                midway(s.skip(n), 0, first.decoder, first.buf)
            }
        }),
{
    reveal(midway);
    reveal(ahead);
    reveal(first_len);
    reveal(whole);
    lemma_first_frame(s);
    let (f, n) = spec_parse(s).unwrap();
    let (ty, len, head) = parse_header(s).unwrap();
    let rest = frames_of(s.skip(n as int)).unwrap();
    assert((seq![f] + rest).skip(1) =~= rest);
    assert(buf =~= s.take(k));
    let grown = buf.push(s[k]);
    assert(grown =~= s.take(k + 1));
    let first = drain(d, grown);
    let p = s.subrange(head as int, n as int);
    assert(p.skip(0) =~= p);
    if k + 1 < n {
        lemma_parse_truncate(s, k + 1);
        if k + 1 >= head && ty == DATA {
            lemma_byte_opens_data(d, grown);
        } else if k + 1 < head {
            lemma_byte_short(d, grown, head as int);
        } else {
            lemma_byte_short(d, grown, n as int);
        }
        assert(first.out =~= Seq::<Frame>::empty());
        assert(tokens(first.out) + ahead(s, k + 1) =~= ahead(s, k));
    } else {
        assert(s.take(n as int).take(n as int) =~= s.take(n as int));
        lemma_parse_extend(s, s.take(n as int));
        lemma_byte_completes(d, grown, f);
        lemma_tokens_cons(f, Seq::empty());
        assert(seq![f] + Seq::<Frame>::empty() =~= seq![f]);
        assert(tokens(first.out) =~= tokens_of(f));
        lemma_ahead_start(s.skip(n as int));
        lemma_midway_start(s.skip(n as int));
        assert(tokens(first.out) + tokens(rest) =~= ahead(s, k));
    }
}

/// A decoder between two frames with an empty buffer stands at the start of
/// any stream.
proof fn lemma_midway_start(s: Seq<u8>)
    requires
        frames_of(s) is Some,
    ensures
        midway(s, 0, DecoderState::clean(), Seq::empty()),
{
    reveal(midway);
    if s.len() > 0 {
        lemma_first_frame(s);
    }
}

/// At the end of the stream the decoder is between two frames, the buffer is
/// empty and nothing is still to come.
proof fn lemma_midway_end(s: Seq<u8>, k: int, d: DecoderState, buf: Seq<u8>)
    requires
        s.len() == 0,
        midway(s, k, d, buf),
    ensures
        k == 0,
        d == DecoderState::clean(),
        buf == Seq::<u8>::empty(),
        ahead(s, k) == Seq::<Token>::empty(),
{
    reveal(midway);
    reveal(ahead);
    assert(buf =~= Seq::<u8>::empty());
}

/// One more byte.
proof fn lemma_step(s: Seq<u8>, k: int, d: DecoderState, buf: Seq<u8>)
    requires
        whole(s),
        s.len() > 0,
        midway(s, k, d, buf),
    ensures
        ({
            let n = first_len(s);
            let first = drain(d, buf.push(s[k]));
            &&& 0 <= k < n <= s.len()
            &&& whole(s.skip(n))
            &&& tokens(first.out) + (if k + 1 < n {
                ahead(s, k + 1)
            } else {
                ahead(s.skip(n), 0)
            }) == ahead(s, k)
            &&& if k + 1 < n {
                midway(s, k + 1, first.decoder, first.buf)
            } else {
                midway(s.skip(n), 0, first.decoder, first.buf)
            }
        }),
{
    reveal(whole);
    reveal(midway);
    lemma_first_frame(s);
    let (ty, len, head) = parse_header(s).unwrap();
    if ty == DATA && k >= head {
        lemma_step_payload(s, k, d, buf);
    } else {
        lemma_step_frame(s, k, d, buf);
    }
}

/// One byte at a time, from any place inside a frame on: the reader is given
/// what was still to come, and the decoder ends between two frames with an
/// empty buffer.
proof fn lemma_feed_from(s: Seq<u8>, k: int, d: DecoderState, buf: Seq<u8>)
    requires
        whole(s),
        midway(s, k, d, buf),
    ensures
        feed_bytewise(d, buf, s.skip(k)).decoder == DecoderState::clean(),
        feed_bytewise(d, buf, s.skip(k)).buf == Seq::<u8>::empty(),
        tokens(feed_bytewise(d, buf, s.skip(k)).out) == ahead(s, k),
    decreases s.len() - k,
{
    if s.len() == 0 {
        lemma_midway_end(s, k, d, buf);
        assert(s.skip(0) =~= s);
    } else {
        lemma_step(s, k, d, buf);
        let n = first_len(s);
        let input = s.skip(k);
        assert(input[0] == s[k]);
        assert(input.skip(1) =~= s.skip(k + 1));
        let first = drain(d, buf.push(s[k]));
        let after = feed_bytewise(first.decoder, first.buf, s.skip(k + 1));
        assert(feed_bytewise(d, buf, input).out == first.out + after.out);
        lemma_tokens_concat(first.out, after.out);
        if k + 1 < n {
            lemma_feed_from(s, k + 1, first.decoder, first.buf);
        } else {
            let tail = s.skip(n);
            assert(tail.skip(0) =~= s.skip(k + 1));
            lemma_feed_from(tail, 0, first.decoder, first.buf);
        }
    }
}

/// At the start of a stream, all its tokens are still to come.
proof fn lemma_ahead_start(s: Seq<u8>)
    requires
        frames_of(s) is Some,
    ensures
        ahead(s, 0) == tokens(frames_of(s).unwrap()),
{
    reveal(ahead);
    if s.len() == 0 {
    } else {
        let fs = frames_of(s).unwrap();
        lemma_parse_extend(s, s);
        match fs[0] {
            Frame::Data(p) => {
                assert(p.skip(0) =~= p);
            },
            _ => {},
        }
    }
}

/// Byte-at-a-time feed: a stream that is a whole number of frames gives its
/// reader the same, whether it comes one byte at a time or all at once.
///
/// All at once, the decoder hands out the frames of the stream, each in one
/// piece. One byte at a time, it hands out the same frames, except that the
/// payload of a DATA frame comes in pieces of one byte; the frames other than
/// DATA, and the bytes of the bodies between them, are the same and in the
/// same order. Either way the decoder ends between two frames with an empty
/// buffer.
pub proof fn lemma_bytewise_feed(s: Seq<u8>)
    requires
        frames_of(s) is Some,
    ensures
        drain(DecoderState::clean(), s).out == frames_of(s).unwrap(),
        tokens(feed_bytewise(DecoderState::clean(), Seq::empty(), s).out) == tokens(
            drain(DecoderState::clean(), s).out,
        ),
        feed_bytewise(DecoderState::clean(), Seq::empty(), s).decoder == drain(
            DecoderState::clean(),
            s,
        ).decoder,
        feed_bytewise(DecoderState::clean(), Seq::empty(), s).buf == drain(
            DecoderState::clean(),
            s,
        ).buf,
{
    lemma_drain_whole(s);
    lemma_midway_start(s);
    assert(whole(s)) by {
        reveal(whole);
    }
    lemma_feed_from(s, 0, DecoderState::clean(), Seq::empty());
    assert(s.skip(0) =~= s);
    lemma_ahead_start(s);
}

} // verus!
