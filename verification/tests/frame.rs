use bytes::BytesMut;
use quinn_h3::frame::{Error, FrameDecoder, WriteFrame, WriteFrameState, READ_CAPACITY};
use quinn_h3::proto::frame;
use quinn_h3::proto::frame::{
    DataFrame, HeadersFrame, HttpFrame, PartialData, PushPromiseFrame, SettingsError,
    SettingsFrame,
};
use quinn_h3::proto::{
    ErrorCode, FRAME_ERROR, FRAME_UNEXPECTED, GENERAL_PROTOCOL_ERROR, REQUEST_CANCELLED,
    SETTINGS_ERROR,
};
use quinn_h3::streams::{SendHalf, StreamId};

#[test]
fn one_frame() {
    let frame = frame::HeadersFrame {
        encoded: b"salut"[..].into(),
    };

    let mut buf = BytesMut::with_capacity(16);
    frame.encode(&mut buf);

    let mut decoder = FrameDecoder::default();
    assert!(matches!(
        decoder.decode(&mut buf),
        Ok(Some(HttpFrame::Headers(_)))
    ));
}

#[test]
fn incomplete_frame() {
    let frame = frame::HeadersFrame {
        encoded: b"salut"[..].into(),
    };

    let mut buf = BytesMut::with_capacity(16);
    frame.encode(&mut buf);
    buf.truncate(buf.len() - 1);

    let mut decoder = FrameDecoder::default();
    assert!(matches!(decoder.decode(&mut buf), Ok(None)));
}

#[test]
fn two_frames_then_incomplete() {
    let frames = [
        HttpFrame::Headers(frame::HeadersFrame {
            encoded: b"header"[..].into(),
        }),
        HttpFrame::Data(frame::DataFrame {
            payload: b"body"[..].into(),
        }),
        HttpFrame::Headers(frame::HeadersFrame {
            encoded: b"trailer"[..].into(),
        }),
    ];

    let mut buf = BytesMut::with_capacity(64);
    for frame in frames.iter() {
        frame.encode(&mut buf);
    }
    buf.truncate(buf.len() - 1);

    let mut decoder = FrameDecoder::default();
    assert!(matches!(
        decoder.decode(&mut buf),
        Ok(Some(HttpFrame::Headers(_)))
    ));
    assert!(matches!(
        decoder.decode(&mut buf),
        Ok(Some(HttpFrame::Data(_)))
    ));
    assert!(matches!(decoder.decode(&mut buf), Ok(None)));
}

fn wire(frame: &HttpFrame) -> Vec<u8> {
    let mut buf = BytesMut::new();
    frame.encode(&mut buf);
    buf.to_vec()
}

fn headers(encoded: &[u8]) -> HttpFrame {
    HttpFrame::Headers(HeadersFrame {
        encoded: encoded.to_vec(),
    })
}

fn data(payload: &[u8]) -> HttpFrame {
    HttpFrame::Data(DataFrame {
        payload: payload.to_vec(),
    })
}

#[test]
fn one_headers_frame_drains_the_buffer() {
    let mut buf = BytesMut::with_capacity(16);
    HeadersFrame {
        encoded: b"salut".to_vec(),
    }
    .encode(&mut buf);
    assert_eq!(&buf[..], &[0x01, 0x05, b's', b'a', b'l', b'u', b't'][..]);

    let mut decoder = FrameDecoder::default();
    let frame = decoder.decode(&mut buf).unwrap();
    assert_eq!(frame, Some(headers(b"salut")));
    assert!(buf.is_empty());
    assert_eq!(decoder.partial(), None);
    assert_eq!(decoder.expected(), None);
}

#[test]
fn truncated_headers_leaves_the_buffer() {
    let mut buf = BytesMut::with_capacity(16);
    HeadersFrame {
        encoded: b"salut".to_vec(),
    }
    .encode(&mut buf);
    buf.truncate(buf.len() - 1);
    let before = buf.to_vec();

    let mut decoder = FrameDecoder::default();
    assert!(matches!(decoder.decode(&mut buf), Ok(None)));
    assert_eq!(buf.to_vec(), before);
    assert_eq!(decoder.expected(), Some(7));

    // Asking again changes nothing; the missing byte completes the frame.
    assert!(matches!(decoder.decode(&mut buf), Ok(None)));
    assert_eq!(buf.to_vec(), before);
    buf.extend_from_slice(b"t");
    assert_eq!(decoder.decode(&mut buf).unwrap(), Some(headers(b"salut")));
    assert!(buf.is_empty());
    assert_eq!(decoder.expected(), None);
}

#[test]
fn three_frames_last_truncated() {
    let mut buf = BytesMut::with_capacity(64);
    headers(b"header").encode(&mut buf);
    data(b"body").encode(&mut buf);
    headers(b"trailer").encode(&mut buf);
    buf.truncate(buf.len() - 1);

    let mut decoder = FrameDecoder::default();
    assert_eq!(decoder.decode(&mut buf).unwrap(), Some(headers(b"header")));
    assert_eq!(decoder.decode(&mut buf).unwrap(), Some(data(b"body")));
    assert_eq!(decoder.decode(&mut buf).unwrap(), None);
    assert_eq!(buf.len(), 2 + 6);
}

#[test]
fn empty_buffer_needs_more() {
    let mut buf = BytesMut::new();
    let mut decoder = FrameDecoder::default();
    assert!(matches!(decoder.decode(&mut buf), Ok(None)));
    assert_eq!(decoder.expected(), None);
    assert_eq!(decoder.partial(), None);
}

#[test]
fn partial_data() {
    let payload: Vec<u8> = (0..1024u32).map(|i| (i % 251) as u8).collect();
    let whole = wire(&data(&payload));
    assert_eq!(whole.len(), 1 + 2 + 1024);
    assert_eq!(&whole[..3], &[0x00, 0x44, 0x00][..]);

    let mut buf = BytesMut::new();
    buf.extend_from_slice(&whole[..3 + 100]);
    let mut decoder = FrameDecoder::default();
    assert_eq!(
        decoder.decode(&mut buf).unwrap(),
        Some(data(&payload[..100]))
    );
    assert!(buf.is_empty());
    assert_eq!(
        decoder.partial(),
        Some(PartialData {
            len: 1024,
            remaining: 924
        })
    );

    // Nothing new, nothing out.
    assert_eq!(decoder.decode(&mut buf).unwrap(), None);

    buf.extend_from_slice(&whole[3 + 100..]);
    assert_eq!(
        decoder.decode(&mut buf).unwrap(),
        Some(data(&payload[100..]))
    );
    assert!(buf.is_empty());
    assert_eq!(decoder.partial(), None);
}

#[test]
fn partial_data_stops_at_the_end_of_the_frame() {
    let mut stream = wire(&data(b"0123456789"));
    stream.extend_from_slice(&wire(&headers(b"next")));

    let mut buf = BytesMut::new();
    buf.extend_from_slice(&stream[..2 + 4]);
    let mut decoder = FrameDecoder::default();
    assert_eq!(decoder.decode(&mut buf).unwrap(), Some(data(b"0123")));
    assert_eq!(decoder.partial().unwrap().remaining(), 6);

    buf.extend_from_slice(&stream[6..]);
    assert_eq!(decoder.decode(&mut buf).unwrap(), Some(data(b"456789")));
    assert_eq!(decoder.partial(), None);
    assert_eq!(decoder.decode(&mut buf).unwrap(), Some(headers(b"next")));
    assert!(buf.is_empty());
}

#[test]
fn data_header_alone_opens_the_frame() {
    let whole = wire(&data(b"abc"));
    let mut buf = BytesMut::new();
    buf.extend_from_slice(&whole[..2]);
    let mut decoder = FrameDecoder::default();
    assert_eq!(decoder.decode(&mut buf).unwrap(), None);
    assert!(buf.is_empty());
    assert_eq!(
        decoder.partial(),
        Some(PartialData {
            len: 3,
            remaining: 3
        })
    );
    buf.extend_from_slice(&whole[2..]);
    assert_eq!(decoder.decode(&mut buf).unwrap(), Some(data(b"abc")));
    assert_eq!(decoder.partial(), None);
}

#[test]
fn empty_data_frame() {
    let mut buf = BytesMut::new();
    data(b"").encode(&mut buf);
    assert_eq!(&buf[..], &[0x00, 0x00][..]);
    let mut decoder = FrameDecoder::default();
    assert_eq!(decoder.decode(&mut buf).unwrap(), Some(data(b"")));
    assert!(buf.is_empty());
}

fn every_kind() -> Vec<HttpFrame> {
    vec![
        data(b"some body"),
        data(b""),
        headers(b"salut"),
        HttpFrame::CancelPush(5),
        HttpFrame::CancelPush(70000),
        HttpFrame::Settings(SettingsFrame {
            entries: vec![(1, 4096), (6, 1 << 40), (7, 0)],
        }),
        HttpFrame::Settings(SettingsFrame { entries: vec![] }),
        HttpFrame::PushPromise(PushPromiseFrame {
            id: 134,
            encoded: b"promised".to_vec(),
        }),
        HttpFrame::Goaway(1 << 33),
        HttpFrame::MaxPushId(63),
    ]
}

#[test]
fn codec_round_trip() {
    for frame in every_kind() {
        assert!(frame.is_well_formed());
        let mut buf = BytesMut::new();
        frame.encode(&mut buf);
        let len = buf.len();
        assert_eq!(HttpFrame::decode(&buf[..]), Ok((frame.clone(), len)));

        let mut decoder = FrameDecoder::default();
        assert_eq!(decoder.decode(&mut buf).unwrap(), Some(frame));
        assert!(buf.is_empty());
        assert_eq!(decoder.partial(), None);
        assert_eq!(decoder.expected(), None);
    }
}

#[test]
fn exact_wire_forms() {
    assert_eq!(wire(&HttpFrame::CancelPush(5)), vec![0x03, 0x01, 0x05]);
    assert_eq!(
        wire(&HttpFrame::Goaway(16384)),
        vec![0x07, 0x04, 0x80, 0x00, 0x40, 0x00]
    );
    assert_eq!(wire(&HttpFrame::MaxPushId(64)), vec![0x0d, 0x02, 0x40, 0x40]);
    assert_eq!(
        wire(&HttpFrame::Settings(SettingsFrame {
            entries: vec![(1, 4096), (7, 0)]
        })),
        vec![0x04, 0x05, 0x01, 0x50, 0x00, 0x07, 0x00]
    );
    assert_eq!(
        wire(&HttpFrame::PushPromise(PushPromiseFrame {
            id: 2,
            encoded: b"ab".to_vec()
        })),
        vec![0x05, 0x03, 0x02, b'a', b'b']
    );
    assert_eq!(wire(&data(b"body")), vec![0x00, 0x04, b'b', b'o', b'd', b'y']);
    assert_eq!(wire(&HttpFrame::Reserved), Vec::<u8>::new());
}

#[test]
fn encode_appends_to_the_buffer() {
    let mut buf = BytesMut::new();
    buf.extend_from_slice(b"xy");
    headers(b"h").encode(&mut buf);
    data(b"d").encode(&mut buf);
    assert_eq!(&buf[..], &[b'x', b'y', 0x01, 0x01, b'h', 0x00, 0x01, b'd'][..]);
}

#[test]
fn payload_and_type() {
    assert_eq!(headers(b"salut").ty(), frame::HEADERS);
    assert_eq!(data(b"x").ty(), frame::DATA);
    assert_eq!(HttpFrame::Goaway(1).ty(), frame::GOAWAY);
    assert_eq!(headers(b"salut").into_payload(), b"salut".to_vec());
    assert_eq!(HttpFrame::CancelPush(64).into_payload(), vec![0x40, 0x40]);
    assert_eq!(
        HttpFrame::Settings(SettingsFrame {
            entries: vec![(1, 2), (3, 4)]
        })
        .into_payload(),
        vec![1, 2, 3, 4]
    );
    assert_eq!(HttpFrame::Reserved.into_payload(), Vec::<u8>::new());
}

#[test]
fn well_formedness() {
    assert!(HttpFrame::Reserved.is_well_formed());
    assert!(HttpFrame::CancelPush((1 << 62) - 1).is_well_formed());
    assert!(!HttpFrame::CancelPush(1 << 62).is_well_formed());
    assert!(!HttpFrame::Goaway(u64::MAX).is_well_formed());
    assert!(!HttpFrame::MaxPushId(1 << 62).is_well_formed());
    assert!(!HttpFrame::Settings(SettingsFrame {
        entries: vec![(1, 1), (1 << 62, 0)]
    })
    .is_well_formed());
    assert!(!HttpFrame::Settings(SettingsFrame {
        entries: vec![(1, 1 << 63)]
    })
    .is_well_formed());
    assert!(!HttpFrame::PushPromise(PushPromiseFrame {
        id: 1 << 62,
        encoded: vec![]
    })
    .is_well_formed());
}

#[test]
fn other_types_are_reserved() {
    for ty in [0x02u8, 0x06, 0x08, 0x09, 0x0e, 0x21, 0x3f] {
        let mut buf = BytesMut::new();
        buf.extend_from_slice(&[ty, 0x03, 1, 2, 3, 0x01, 0x00]);
        let mut decoder = FrameDecoder::default();
        assert_eq!(decoder.decode(&mut buf).unwrap(), Some(HttpFrame::Reserved));
        assert_eq!(&buf[..], &[0x01, 0x00][..]);
        assert_eq!(decoder.decode(&mut buf).unwrap(), Some(headers(b"")));
    }
    // A type that takes two bytes to write.
    let mut buf = BytesMut::new();
    buf.extend_from_slice(&[0x40, 0x40, 0x00]);
    let mut decoder = FrameDecoder::default();
    assert_eq!(decoder.decode(&mut buf).unwrap(), Some(HttpFrame::Reserved));
    assert!(buf.is_empty());
}

#[test]
fn reserved_frame_waits_for_its_payload() {
    let mut buf = BytesMut::new();
    buf.extend_from_slice(&[0x21, 0x03, 1, 2]);
    let mut decoder = FrameDecoder::default();
    assert_eq!(decoder.decode(&mut buf).unwrap(), None);
    assert_eq!(buf.len(), 4);
    assert_eq!(decoder.expected(), Some(5));
}

#[test]
fn incomplete_says_how_much_is_needed() {
    assert_eq!(HttpFrame::decode(&[]), Err(frame::Error::Incomplete(2)));
    assert_eq!(HttpFrame::decode(&[0x01]), Err(frame::Error::Incomplete(2)));
    assert_eq!(HttpFrame::decode(&[0x40]), Err(frame::Error::Incomplete(3)));
    assert_eq!(
        HttpFrame::decode(&[0x40, 0x01]),
        Err(frame::Error::Incomplete(3))
    );
    assert_eq!(
        HttpFrame::decode(&[0x01, 0x80]),
        Err(frame::Error::Incomplete(5))
    );
    assert_eq!(
        HttpFrame::decode(&[0x01, 0x05, b's']),
        Err(frame::Error::Incomplete(7))
    );
    assert_eq!(
        HttpFrame::decode(&[0x00, 0x05, b's']),
        Err(frame::Error::IncompleteData)
    );
    assert_eq!(
        HttpFrame::decode(&[0x00, 0x05]),
        Err(frame::Error::IncompleteData)
    );
}

#[test]
fn malformed_payloads() {
    // One integer is the whole payload of these.
    for ty in [0x03u8, 0x07, 0x0d] {
        assert_eq!(
            HttpFrame::decode(&[ty, 0x02, 0x05, 0x00]),
            Err(frame::Error::Malformed)
        );
        assert_eq!(
            HttpFrame::decode(&[ty, 0x01, 0x40]),
            Err(frame::Error::Malformed)
        );
        assert_eq!(HttpFrame::decode(&[ty, 0x00]), Err(frame::Error::Malformed));
    }
    // A promise needs its identifier.
    assert_eq!(
        HttpFrame::decode(&[0x05, 0x00]),
        Err(frame::Error::Malformed)
    );
    assert_eq!(
        HttpFrame::decode(&[0x05, 0x01, 0x40]),
        Err(frame::Error::Malformed)
    );
    // Settings come in pairs.
    assert_eq!(
        HttpFrame::decode(&[0x04, 0x01, 0x01]),
        Err(frame::Error::Settings(SettingsError::Malformed))
    );
    assert_eq!(
        HttpFrame::decode(&[0x04, 0x03, 0x01, 0x02, 0x40]),
        Err(frame::Error::Settings(SettingsError::Malformed))
    );
}

#[test]
fn decoder_reports_and_keeps_bad_frames() {
    let mut buf = BytesMut::new();
    buf.extend_from_slice(&[0x03, 0x02, 0x05, 0x00]);
    let mut decoder = FrameDecoder::default();
    let err = decoder.decode(&mut buf).unwrap_err();
    assert!(matches!(err, Error::Proto(frame::Error::Malformed)));
    assert_eq!(err.code(), ErrorCode(FRAME_ERROR));
    assert_eq!(buf.len(), 4);

    let mut buf = BytesMut::new();
    buf.extend_from_slice(&[0x04, 0x01, 0x01]);
    let err = FrameDecoder::default().decode(&mut buf).unwrap_err();
    assert!(matches!(
        err,
        Error::Proto(frame::Error::Settings(SettingsError::Malformed))
    ));
    assert_eq!(err.code(), ErrorCode(SETTINGS_ERROR));
}

#[test]
fn error_codes() {
    assert_eq!(
        Error::Proto(frame::Error::Settings(SettingsError::Malformed)).code(),
        ErrorCode(SETTINGS_ERROR)
    );
    assert_eq!(
        Error::Proto(frame::Error::UnsupportedFrame(2)).code(),
        ErrorCode(FRAME_UNEXPECTED)
    );
    assert_eq!(
        Error::Proto(frame::Error::Malformed).code(),
        ErrorCode(FRAME_ERROR)
    );
    assert_eq!(
        Error::Proto(frame::Error::Incomplete(3)).code(),
        ErrorCode(FRAME_ERROR)
    );
    assert_eq!(
        Error::Proto(frame::Error::IncompleteData).code(),
        ErrorCode(FRAME_ERROR)
    );
    let io = std::io::Error::new(std::io::ErrorKind::Other, "gone");
    assert_eq!(Error::Io(io).code(), ErrorCode(GENERAL_PROTOCOL_ERROR));
    assert_eq!(ErrorCode(FRAME_ERROR).to_wire(), 0x106);
    assert_eq!(ErrorCode::from_wire(0x10c), ErrorCode(REQUEST_CANCELLED));
}

#[test]
fn errors_convert() {
    let e: Error = frame::Error::Malformed.into();
    assert!(matches!(e, Error::Proto(frame::Error::Malformed)));
    let e: Error = std::io::Error::new(std::io::ErrorKind::UnexpectedEof, "eof").into();
    assert!(matches!(e, Error::Io(_)));
}

/// What a reader is given: body bytes, and the frames that are not DATA.
fn flatten(frames: &[HttpFrame]) -> Vec<Result<u8, HttpFrame>> {
    let mut out = Vec::new();
    for f in frames {
        match f {
            HttpFrame::Data(d) => out.extend(d.payload.iter().map(|b| Ok(*b))),
            other => out.push(Err(other.clone())),
        }
    }
    out
}

fn drain(decoder: &mut FrameDecoder, buf: &mut BytesMut, out: &mut Vec<HttpFrame>) {
    while let Some(f) = decoder.decode(buf).unwrap() {
        out.push(f);
    }
}

#[test]
fn byte_at_a_time_feed() {
    let mut stream = Vec::new();
    let frames = every_kind();
    for f in frames.iter() {
        stream.extend_from_slice(&wire(f));
    }
    stream.extend_from_slice(&[0x21, 0x02, 7, 7]);

    let mut at_once = Vec::new();
    let mut decoder = FrameDecoder::default();
    let mut buf = BytesMut::new();
    buf.extend_from_slice(&stream);
    drain(&mut decoder, &mut buf, &mut at_once);
    assert!(buf.is_empty());
    let mut expected = frames.clone();
    expected.push(HttpFrame::Reserved);
    assert_eq!(at_once, expected);

    let mut bytewise = Vec::new();
    let mut decoder = FrameDecoder::default();
    let mut buf = BytesMut::new();
    for b in stream.iter() {
        buf.extend_from_slice(&[*b]);
        drain(&mut decoder, &mut buf, &mut bytewise);
    }
    assert!(buf.is_empty());
    assert_eq!(decoder.partial(), None);
    assert_eq!(decoder.expected(), None);
    assert_eq!(flatten(&bytewise), flatten(&at_once));
    // The body came in pieces of one byte.
    assert!(bytewise.len() > at_once.len());
}

#[test]
fn prefix_completeness() {
    for frame in every_kind() {
        if let HttpFrame::Data(_) = frame {
            continue;
        }
        let whole = wire(&frame);
        for k in 0..whole.len() {
            let mut decoder = FrameDecoder::default();
            let mut buf = BytesMut::new();
            buf.extend_from_slice(&whole[..k]);
            assert_eq!(decoder.decode(&mut buf).unwrap(), None);
            assert_eq!(&buf[..], &whole[..k]);
            buf.extend_from_slice(&whole[k..]);
            assert_eq!(decoder.decode(&mut buf).unwrap(), Some(frame.clone()));
            assert!(buf.is_empty());
        }
    }
}

#[test]
fn partial_data_at_every_split() {
    let payload = b"0123456789abcdef";
    let whole = wire(&data(payload));
    for k in 1..payload.len() {
        let mut decoder = FrameDecoder::default();
        let mut buf = BytesMut::new();
        buf.extend_from_slice(&whole[..2 + k]);
        assert_eq!(decoder.decode(&mut buf).unwrap(), Some(data(&payload[..k])));
        assert_eq!(
            decoder.partial().unwrap().remaining(),
            (payload.len() - k) as u64
        );
        buf.extend_from_slice(&whole[2 + k..]);
        assert_eq!(decoder.decode(&mut buf).unwrap(), Some(data(&payload[k..])));
        assert_eq!(decoder.partial(), None);
        assert!(buf.is_empty());
    }
}

#[test]
fn partial_data_helpers() {
    let (mut partial, first) = PartialData::decode(&[0x00, 0x05, b'a', b'b']);
    assert_eq!(first.payload, b"ab".to_vec());
    assert_eq!(partial.remaining(), 3);
    assert_eq!(partial.len, 5);
    let (piece, n) = partial.decode_data(b"cd");
    assert_eq!((piece.payload, n), (b"cd".to_vec(), 2));
    assert_eq!(partial.remaining(), 1);
    let (piece, n) = partial.decode_data(b"efgh");
    assert_eq!((piece.payload, n), (b"e".to_vec(), 1));
    assert_eq!(partial.remaining(), 0);
}

#[test]
fn read_capacity() {
    assert_eq!(READ_CAPACITY, 65535);
}

fn writer(frame: HttpFrame) -> WriteFrame {
    WriteFrame::new(SendHalf::new(StreamId(8)), frame)
}

#[test]
fn write_frame_header_then_payload() {
    let mut w = writer(headers(b"salut"));
    assert!(!w.is_finished());
    assert_eq!(w.pending(), &[0x01, 0x05][..]);
    // One byte of the header is accepted: the rest of the header is next.
    assert!(w.poll(1).is_none());
    assert_eq!(w.pending(), &[0x05][..]);
    // Nothing accepted: the same again.
    assert!(w.poll(0).is_none());
    assert_eq!(w.pending(), &[0x05][..]);
    assert!(w.poll(1).is_none());
    // The payload starts only now.
    assert_eq!(w.pending(), &b"salut"[..]);
    assert!(w.poll(2).is_none());
    assert_eq!(w.pending(), &b"lut"[..]);
    let stream = w.poll(3);
    assert_eq!(stream.map(|s| s.id()), Some(StreamId(8)));
    assert!(w.is_finished());
}

#[test]
fn write_frame_empty_payload_takes_an_empty_write() {
    let mut w = writer(data(b""));
    assert_eq!(w.pending(), &[0x00, 0x00][..]);
    assert!(w.poll(2).is_none());
    assert!(!w.is_finished());
    assert_eq!(w.pending(), &b""[..]);
    assert!(w.poll(0).is_some());
    assert!(w.is_finished());
}

#[test]
fn write_frame_puts_the_encoding_on_the_wire() {
    for frame in every_kind() {
        for step in 1..5usize {
            let expected = wire(&frame);
            let mut w = writer(frame.clone());
            let mut sent = Vec::new();
            let mut stream = None;
            while stream.is_none() {
                let pending = w.pending().to_vec();
                let n = pending.len().min(step);
                sent.extend_from_slice(&pending[..n]);
                stream = w.poll(n);
            }
            assert_eq!(sent, expected);
            assert!(w.is_finished());
        }
    }
}

#[test]
fn write_frame_reset() {
    let mut w = writer(data(b"abc"));
    assert!(w.poll(1).is_none());
    let order = w.reset(ErrorCode(REQUEST_CANCELLED)).unwrap();
    assert_eq!(order.stream.id(), StreamId(8));
    assert_eq!(order.code, ErrorCode(REQUEST_CANCELLED));
    // The stream is gone: a second reset orders nothing.
    assert!(w.reset(ErrorCode(REQUEST_CANCELLED)).is_none());
    assert!(!w.is_finished());

    let mut w = writer(data(b""));
    assert!(w.poll(2).is_none());
    assert!(w.poll(0).is_some());
    assert!(w.reset(ErrorCode(FRAME_ERROR)).is_none());
}

#[test]
fn write_frame_poll_stopped() {
    let mut w = writer(data(b"abc"));
    assert_eq!(w.poll_stopped(None), None);
    assert_eq!(w.poll_stopped(Some(None)), Some(None));
    assert_eq!(
        w.poll_stopped(Some(Some(0x10c))),
        Some(Some(ErrorCode(REQUEST_CANCELLED)))
    );
    assert_eq!(w.poll_stopped(Some(Some(77))), Some(Some(ErrorCode(77))));
    let _ = w.reset(ErrorCode(FRAME_ERROR));
    assert_eq!(w.poll_stopped(Some(Some(0x10c))), None);
    assert_eq!(w.poll_stopped(Some(None)), None);
}

#[test]
fn write_frame_state_values() {
    assert_ne!(WriteFrameState::Header(0), WriteFrameState::Payload);
    assert_ne!(WriteFrameState::Payload, WriteFrameState::Finished);
}

#[test]
fn encoded_lengths() {
    for frame in every_kind() {
        assert_eq!(frame.encoded_len(), wire(&frame).len() as u64);
    }
    assert_eq!(HttpFrame::Reserved.encoded_len(), 0);
    assert_eq!(headers(b"salut").encoded_len(), 7);
    let big = data(&vec![0u8; 16384]);
    assert_eq!(big.encoded_len(), 1 + 4 + 16384);
}

#[test]
fn try_encode_checks_the_frame() {
    let mut buf = BytesMut::new();
    buf.extend_from_slice(b"xy");
    assert!(!HttpFrame::CancelPush(1 << 62).try_encode(&mut buf));
    assert_eq!(&buf[..], &b"xy"[..]);
    assert!(HttpFrame::CancelPush(5).try_encode(&mut buf));
    assert_eq!(&buf[..], &[b'x', b'y', 0x03, 0x01, 0x05][..]);
    assert!(HttpFrame::Reserved.try_encode(&mut buf));
    assert_eq!(buf.len(), 5);
}
