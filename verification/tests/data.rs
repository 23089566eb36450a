use bytes::BytesMut;
use quinn_h3::data::{
    RecvAction, RecvData, RecvEvent, RecvPhase, SendAction, SendData, SendEvent, SendPhase,
};
use quinn_h3::error::{Error, PeerError, WriteError};
use quinn_h3::frame;
use quinn_h3::headers::{DecodeHeaders, SendHeaders};
use quinn_h3::proto::frame::Error as Proto;
use quinn_h3::proto::frame::{DataFrame, HeadersFrame, HttpFrame, SettingsError};
use quinn_h3::proto::headers::{Field, Header};
use quinn_h3::proto::{
    ErrorCode, FRAME_ERROR, FRAME_UNEXPECTED, GENERAL_PROTOCOL_ERROR, INTERNAL_ERROR,
    QPACK_DECOMPRESSION_FAILED, REQUEST_CANCELLED, SETTINGS_ERROR,
};
use quinn_h3::streams::{RecvHalf, SendHalf, Stop, StreamId};

fn field(name: &str, value: &str) -> Field {
    Field {
        name: name.as_bytes().to_vec(),
        value: value.as_bytes().to_vec(),
    }
}

fn request() -> Header {
    Header::new(
        vec![field(":method", "GET"), field(":path", "/")],
        vec![field("accept", "*/*")],
    )
}

fn trailers() -> Header {
    Header::trailer(vec![field("checksum", "abc")])
}

fn wire(frame: &HttpFrame) -> Vec<u8> {
    let mut buf = BytesMut::new();
    frame.encode(&mut buf);
    buf.to_vec()
}

fn headers_frame(encoded: &[u8]) -> HeadersFrame {
    HeadersFrame {
        encoded: encoded.to_vec(),
    }
}

fn driver(finish: bool) -> SendData {
    SendData::new(SendHalf::new(StreamId(4)), request(), finish)
}

/// Performs writes of at most `step` bytes until the driver asks for
/// something else, and records what the stream accepted.
fn write_all(d: &mut SendData, step: usize, sent: &mut Vec<u8>) -> SendAction {
    loop {
        let pending = d.pending().to_vec();
        let n = pending.len().min(step);
        sent.extend_from_slice(&pending[..n]);
        match d.poll(SendEvent::Wrote(Ok(n))) {
            SendAction::Write => continue,
            other => return other,
        }
    }
}

#[test]
fn header_blocks() {
    let h = request();
    assert!(!h.is_trailer());
    assert_eq!(h.pseudo().len(), 2);
    assert_eq!(h.fields(), &vec![field("accept", "*/*")]);
    let t = trailers();
    assert!(t.is_trailer());
    assert!(t.pseudo().is_empty());
    assert_eq!(t.fields(), &vec![field("checksum", "abc")]);
}

#[test]
fn send_whole_message_in_order() {
    for step in [1usize, 2, 3, 1000] {
        let mut d = driver(true);
        assert_eq!(d.phase(), SendPhase::Initial);
        assert_eq!(d.stream_id(), StreamId(4));
        let mut sent = Vec::new();

        match d.poll(SendEvent::Begin) {
            SendAction::Encode(h) => assert_eq!(h, request()),
            _ => panic!("the opening block is compressed first"),
        }
        assert_eq!(d.phase(), SendPhase::Initial);
        assert!(matches!(
            d.poll(SendEvent::Encoded(Ok(headers_frame(b"head")))),
            SendAction::Write
        ));
        assert_eq!(d.phase(), SendPhase::WritingHeaders);
        assert!(matches!(
            write_all(&mut d, step, &mut sent),
            SendAction::PollBody
        ));
        assert_eq!(d.phase(), SendPhase::PollingBody);
        assert_eq!(d.pending(), &b""[..]);

        for chunk in [&b"first"[..], &b""[..], &b"third chunk"[..]] {
            assert!(matches!(
                d.poll(SendEvent::Body(Some(Ok(chunk.to_vec())))),
                SendAction::Write
            ));
            assert_eq!(d.phase(), SendPhase::WritingDataFrame);
            assert!(matches!(
                write_all(&mut d, step, &mut sent),
                SendAction::PollBody
            ));
        }

        assert!(matches!(
            d.poll(SendEvent::Body(None)),
            SendAction::PollTrailers
        ));
        assert_eq!(d.phase(), SendPhase::PollingTrailers);
        match d.poll(SendEvent::Trailers(Ok(Some(trailers())))) {
            SendAction::Encode(h) => assert_eq!(h, trailers()),
            _ => panic!("the trailers are compressed"),
        }
        assert!(matches!(
            d.poll(SendEvent::Encoded(Ok(headers_frame(b"tail")))),
            SendAction::Write
        ));
        assert_eq!(d.phase(), SendPhase::WritingTrailers);
        assert!(matches!(
            write_all(&mut d, step, &mut sent),
            SendAction::Finish
        ));
        assert_eq!(d.phase(), SendPhase::Closing);

        let mut expected = wire(&HttpFrame::Headers(headers_frame(b"head")));
        for chunk in [&b"first"[..], &b""[..], &b"third chunk"[..]] {
            expected.extend_from_slice(&wire(&HttpFrame::Data(DataFrame {
                payload: chunk.to_vec(),
            })));
        }
        expected.extend_from_slice(&wire(&HttpFrame::Headers(headers_frame(b"tail"))));
        assert_eq!(sent, expected);

        match d.poll(SendEvent::Finish(Ok(()))) {
            SendAction::Done {
                result,
                reset,
                request_finished,
            } => {
                assert!(result.is_ok());
                assert!(reset.is_none());
                assert!(request_finished);
            }
            _ => panic!("the driver is done"),
        }
        assert_eq!(d.phase(), SendPhase::Finished);
        // A finished driver answers with success and no bookkeeping.
        assert!(matches!(
            d.poll(SendEvent::Begin),
            SendAction::Done {
                result: Ok(()),
                reset: None,
                request_finished: false
            }
        ));
        assert!(d.cancel().is_none());
    }
}

#[test]
fn send_without_body_or_trailers() {
    let mut d = driver(false);
    let mut sent = Vec::new();
    assert!(matches!(d.poll(SendEvent::Begin), SendAction::Encode(_)));
    assert!(matches!(
        d.poll(SendEvent::Encoded(Ok(headers_frame(b"")))),
        SendAction::Write
    ));
    assert!(matches!(
        write_all(&mut d, 16, &mut sent),
        SendAction::PollBody
    ));
    assert!(matches!(
        d.poll(SendEvent::Body(None)),
        SendAction::PollTrailers
    ));
    assert!(matches!(
        d.poll(SendEvent::Trailers(Ok(None))),
        SendAction::Finish
    ));
    assert_eq!(sent, vec![0x01, 0x00]);
    assert!(matches!(
        d.poll(SendEvent::Finish(Ok(()))),
        SendAction::Done {
            result: Ok(()),
            reset: None,
            request_finished: false
        }
    ));
}

#[test]
fn send_encoder_failure() {
    let mut d = driver(true);
    assert!(matches!(d.poll(SendEvent::Begin), SendAction::Encode(_)));
    match d.poll(SendEvent::Encoded(Err(ErrorCode(INTERNAL_ERROR)))) {
        SendAction::Done {
            result: Err(Error::Header(code)),
            reset: None,
            request_finished: false,
        } => assert_eq!(code, ErrorCode(INTERNAL_ERROR)),
        _ => panic!("the encoder's refusal fails the driver"),
    }
    assert_eq!(d.phase(), SendPhase::Initial);
    // The stream is still the driver's to reset.
    let reset = d.cancel().unwrap();
    assert_eq!(reset.stream.id(), StreamId(4));
    assert_eq!(reset.code, ErrorCode(REQUEST_CANCELLED));
}

#[test]
fn send_write_failure() {
    let mut d = driver(true);
    let _ = d.poll(SendEvent::Begin);
    let _ = d.poll(SendEvent::Encoded(Ok(headers_frame(b"head"))));
    let pending = d.pending().to_vec();
    match d.poll(SendEvent::Wrote(Err(WriteError::Stopped(ErrorCode(
        REQUEST_CANCELLED,
    ))))) {
        SendAction::Done {
            result: Err(Error::Write(e)),
            reset: None,
            request_finished: false,
        } => assert_eq!(e, WriteError::Stopped(ErrorCode(REQUEST_CANCELLED))),
        _ => panic!("a failed write fails the driver"),
    }
    assert_eq!(d.phase(), SendPhase::WritingHeaders);
    assert_eq!(d.pending(), &pending[..]);
}

#[test]
fn send_body_failure_resets_the_stream() {
    let mut d = driver(true);
    let mut sent = Vec::new();
    let _ = d.poll(SendEvent::Begin);
    let _ = d.poll(SendEvent::Encoded(Ok(headers_frame(b"head"))));
    let _ = write_all(&mut d, 16, &mut sent);
    match d.poll(SendEvent::Body(Some(Err(())))) {
        SendAction::Done {
            result: Err(Error::Body),
            reset: Some(reset),
            request_finished: false,
        } => {
            assert_eq!(reset.stream.id(), StreamId(4));
            assert_eq!(reset.code, ErrorCode(REQUEST_CANCELLED));
        }
        _ => panic!("a failed body fails the driver and resets the stream"),
    }
    assert_eq!(d.phase(), SendPhase::Finished);
    assert!(d.cancel().is_none());
}

#[test]
fn send_trailers_failure_resets_the_stream() {
    let mut d = driver(true);
    let mut sent = Vec::new();
    let _ = d.poll(SendEvent::Begin);
    let _ = d.poll(SendEvent::Encoded(Ok(headers_frame(b"head"))));
    let _ = write_all(&mut d, 16, &mut sent);
    let _ = d.poll(SendEvent::Body(None));
    assert!(matches!(
        d.poll(SendEvent::Trailers(Err(()))),
        SendAction::Done {
            result: Err(Error::Body),
            reset: Some(_),
            request_finished: false
        }
    ));
    assert_eq!(d.phase(), SendPhase::Finished);
}

#[test]
fn send_finish_failure() {
    let mut d = driver(true);
    let mut sent = Vec::new();
    let _ = d.poll(SendEvent::Begin);
    let _ = d.poll(SendEvent::Encoded(Ok(headers_frame(b"head"))));
    let _ = write_all(&mut d, 16, &mut sent);
    let _ = d.poll(SendEvent::Body(None));
    let _ = d.poll(SendEvent::Trailers(Ok(None)));
    assert!(matches!(
        d.poll(SendEvent::Finish(Err(WriteError::ConnectionClosed))),
        SendAction::Done {
            result: Err(Error::Write(WriteError::ConnectionClosed)),
            reset: None,
            request_finished: false
        }
    ));
    assert_eq!(d.phase(), SendPhase::Closing);
}

#[test]
fn cancel_during_body() {
    let mut d = driver(true);
    let mut sent = Vec::new();
    let _ = d.poll(SendEvent::Begin);
    let _ = d.poll(SendEvent::Encoded(Ok(headers_frame(b"head"))));
    assert!(matches!(
        write_all(&mut d, 16, &mut sent),
        SendAction::PollBody
    ));
    // The first of three chunks is half way out.
    assert!(matches!(
        d.poll(SendEvent::Body(Some(Ok(b"one".to_vec())))),
        SendAction::Write
    ));
    assert!(matches!(
        d.poll(SendEvent::Wrote(Ok(2))),
        SendAction::Write
    ));
    assert!(matches!(
        d.poll(SendEvent::Wrote(Ok(1))),
        SendAction::Write
    ));
    assert_eq!(d.phase(), SendPhase::WritingDataFrame);

    let reset = d.cancel().unwrap();
    assert_eq!(reset.stream.id(), StreamId(4));
    assert_eq!(reset.code, ErrorCode(REQUEST_CANCELLED));
    assert_eq!(d.phase(), SendPhase::Finished);
    assert_eq!(d.pending(), &b""[..]);

    // A second cancel is a no-op.
    assert!(d.cancel().is_none());
    assert_eq!(d.phase(), SendPhase::Finished);

    // Polling answers with success, and asks for no write.
    assert!(matches!(
        d.poll(SendEvent::Wrote(Ok(0))),
        SendAction::Done {
            result: Ok(()),
            reset: None,
            request_finished: false
        }
    ));
    assert_eq!(d.pending(), &b""[..]);
}

#[test]
fn cancel_in_every_phase() {
    // Before anything happened.
    let mut d = driver(true);
    assert!(d.cancel().is_some());
    assert!(d.cancel().is_none());

    // While the opening block goes out.
    let mut d = driver(true);
    let _ = d.poll(SendEvent::Begin);
    let _ = d.poll(SendEvent::Encoded(Ok(headers_frame(b"head"))));
    assert!(d.cancel().is_some());
    assert_eq!(d.phase(), SendPhase::Finished);
    assert!(d.cancel().is_none());

    // While the trailers go out.
    let mut d = driver(true);
    let mut sent = Vec::new();
    let _ = d.poll(SendEvent::Begin);
    let _ = d.poll(SendEvent::Encoded(Ok(headers_frame(b"head"))));
    let _ = write_all(&mut d, 16, &mut sent);
    let _ = d.poll(SendEvent::Body(None));
    let _ = d.poll(SendEvent::Trailers(Ok(Some(trailers()))));
    let _ = d.poll(SendEvent::Encoded(Ok(headers_frame(b"tail"))));
    assert_eq!(d.phase(), SendPhase::WritingTrailers);
    assert!(d.cancel().is_some());
    assert!(d.cancel().is_none());

    // While the stream is being finished.
    let mut d = driver(true);
    let mut sent = Vec::new();
    let _ = d.poll(SendEvent::Begin);
    let _ = d.poll(SendEvent::Encoded(Ok(headers_frame(b"head"))));
    let _ = write_all(&mut d, 16, &mut sent);
    let _ = d.poll(SendEvent::Body(None));
    let _ = d.poll(SendEvent::Trailers(Ok(None)));
    assert_eq!(d.phase(), SendPhase::Closing);
    assert!(d.cancel().is_some());
    assert!(d.cancel().is_none());
}

#[test]
fn send_poll_stopped() {
    let mut d = driver(true);
    assert_eq!(d.poll_stopped(None), None);
    assert_eq!(d.poll_stopped(Some(None)), Some(None));
    assert_eq!(
        d.poll_stopped(Some(Some(0x10c))),
        Some(Some(ErrorCode(REQUEST_CANCELLED)))
    );
    let _ = d.poll(SendEvent::Begin);
    let _ = d.poll(SendEvent::Encoded(Ok(headers_frame(b"head"))));
    // The frame writer holds the stream now.
    assert_eq!(d.poll_stopped(None), None);
    assert_eq!(d.poll_stopped(Some(Some(5))), Some(Some(ErrorCode(5))));
    let _ = d.cancel();
    // No stream, nothing to wait for.
    assert_eq!(d.poll_stopped(None), Some(None));
    assert_eq!(d.poll_stopped(Some(Some(5))), Some(None));
}

#[test]
fn send_headers_alone() {
    let mut s = match SendHeaders::new(Ok(headers_frame(b"salut")), SendHalf::new(StreamId(0))) {
        Ok(s) => s,
        Err(_) => panic!("a compressed block is sent"),
    };
    assert_eq!(s.0.pending(), &[0x01, 0x05][..]);
    assert_eq!(s.poll_stopped(Some(Some(1))), Some(Some(ErrorCode(1))));
    let order = s.reset(ErrorCode(REQUEST_CANCELLED)).unwrap();
    assert_eq!(order.code, ErrorCode(REQUEST_CANCELLED));
    assert_eq!(s.poll_stopped(Some(Some(1))), None);

    match SendHeaders::new(
        Err(ErrorCode(INTERNAL_ERROR)),
        SendHalf::new(StreamId(0)),
    ) {
        Err(Error::Header(code)) => assert_eq!(code, ErrorCode(INTERNAL_ERROR)),
        _ => panic!("a refused block is an error"),
    }
}

#[test]
fn decode_headers_answers() {
    let d = DecodeHeaders::new(headers_frame(b"block"), StreamId(12));
    assert_eq!(d.frame(), Some(&headers_frame(b"block")));
    assert_eq!(d.stream_id(), StreamId(12));
    assert!(d.poll(None).is_none());
    match d.poll(Some(Ok(request()))) {
        Some(Ok(h)) => assert_eq!(h, request()),
        _ => panic!("the block is handed on"),
    }
    match d.poll(Some(Err(ErrorCode(QPACK_DECOMPRESSION_FAILED)))) {
        Some(Err(Error::Header(code))) => assert_eq!(code, ErrorCode(0x200)),
        _ => panic!("the refusal is handed on"),
    }
}

fn receiver() -> RecvData {
    RecvData::new(RecvHalf::new(StreamId(4)), StreamId(4))
}

#[test]
fn recv_head_of_message() {
    let mut r = receiver();
    assert_eq!(r.phase(), RecvPhase::Receiving);
    assert_eq!(r.stream_id(), StreamId(4));
    assert!(r.decoding().is_none());
    // Frames that mean nothing here are skipped.
    assert!(matches!(
        r.poll(RecvEvent::Frame(Some(Ok(HttpFrame::Reserved)))),
        RecvAction::Receive
    ));
    assert!(matches!(
        r.poll(RecvEvent::Frame(Some(Ok(HttpFrame::Reserved)))),
        RecvAction::Receive
    ));
    assert_eq!(r.phase(), RecvPhase::Receiving);
    assert!(matches!(
        r.poll(RecvEvent::Frame(Some(Ok(HttpFrame::Headers(headers_frame(
            b"block"
        )))))),
        RecvAction::Decode
    ));
    assert_eq!(r.phase(), RecvPhase::Decoding);
    assert_eq!(r.decoding(), Some(&headers_frame(b"block")));
    match r.poll(RecvEvent::Decoded(Ok(request()))) {
        RecvAction::Done {
            result: Ok((header, body)),
            stop: None,
        } => {
            assert_eq!(header, request());
            assert_eq!(body.stream_id, StreamId(4));
            assert_eq!(body.recv.id(), StreamId(4));
        }
        _ => panic!("the head of the message and its body reader"),
    }
    assert_eq!(r.phase(), RecvPhase::Finished);
    // The stream went to the body reader.
    assert!(r.reset(ErrorCode(REQUEST_CANCELLED)).is_none());
}

#[test]
fn recv_unexpected_first_frame() {
    let mut r = receiver();
    let first = HttpFrame::Data(DataFrame {
        payload: b"body".to_vec(),
    });
    match r.poll(RecvEvent::Frame(Some(Ok(first.clone())))) {
        RecvAction::Done {
            result: Err(Error::Peer(PeerError::UnexpectedFrame(f))),
            stop: Some(stop),
        } => {
            assert_eq!(f, first);
            assert_eq!(
                stop,
                Stop {
                    stream: StreamId(4),
                    code: ErrorCode(FRAME_UNEXPECTED)
                }
            );
        }
        _ => panic!("a body before the head is the peer's fault"),
    }
    assert_eq!(r.phase(), RecvPhase::Receiving);
}

#[test]
fn recv_other_first_frames() {
    for first in [
        HttpFrame::Goaway(0),
        HttpFrame::CancelPush(1),
        HttpFrame::MaxPushId(1),
    ] {
        let mut r = receiver();
        assert!(matches!(
            r.poll(RecvEvent::Frame(Some(Ok(first)))),
            RecvAction::Done {
                result: Err(Error::Peer(PeerError::UnexpectedFrame(_))),
                stop: Some(Stop {
                    stream: StreamId(4),
                    code: ErrorCode(FRAME_UNEXPECTED)
                })
            }
        ));
    }
}

#[test]
fn recv_codec_failure_stops_with_its_code() {
    let cases = vec![
        (frame::Error::Proto(Proto::Malformed), FRAME_ERROR),
        (
            frame::Error::Proto(Proto::Settings(SettingsError::Malformed)),
            SETTINGS_ERROR,
        ),
        (
            frame::Error::Proto(Proto::UnsupportedFrame(2)),
            FRAME_UNEXPECTED,
        ),
        (
            frame::Error::Io(std::io::Error::new(std::io::ErrorKind::Other, "gone")),
            GENERAL_PROTOCOL_ERROR,
        ),
    ];
    for (e, code) in cases {
        let mut r = receiver();
        match r.poll(RecvEvent::Frame(Some(Err(e)))) {
            RecvAction::Done {
                result: Err(Error::Frame(_)),
                stop: Some(stop),
            } => assert_eq!(
                stop,
                Stop {
                    stream: StreamId(4),
                    code: ErrorCode(code)
                }
            ),
            _ => panic!("a codec failure fails the driver"),
        }
    }
}

#[test]
fn recv_end_of_stream() {
    let mut r = receiver();
    assert!(matches!(
        r.poll(RecvEvent::Frame(None)),
        RecvAction::Done {
            result: Err(Error::Peer(PeerError::UnexpectedEnd)),
            stop: None
        }
    ));
}

#[test]
fn recv_decode_failure() {
    let mut r = receiver();
    let _ = r.poll(RecvEvent::Frame(Some(Ok(HttpFrame::Headers(
        headers_frame(b"block"),
    )))));
    match r.poll(RecvEvent::Decoded(Err(ErrorCode(
        QPACK_DECOMPRESSION_FAILED,
    )))) {
        RecvAction::Done {
            result: Err(Error::Header(code)),
            stop: None,
        } => assert_eq!(code, ErrorCode(QPACK_DECOMPRESSION_FAILED)),
        _ => panic!("the refusal fails the driver"),
    }
    assert_eq!(r.phase(), RecvPhase::Decoding);
}

#[test]
fn recv_reset() {
    let mut r = receiver();
    assert_eq!(
        r.reset(ErrorCode(REQUEST_CANCELLED)),
        Some(Stop {
            stream: StreamId(4),
            code: ErrorCode(REQUEST_CANCELLED)
        })
    );
    // The driver stays as it was.
    assert_eq!(r.phase(), RecvPhase::Receiving);
    assert!(r.reset(ErrorCode(FRAME_ERROR)).is_some());
}
