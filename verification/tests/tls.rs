use quinn_h3::tls::{
    client_transport_parameters, encode_transport_parameters, initial_parameters,
    server_transport_parameters, tag, TransportParameter, ALPN_PROTOCOL, DRAFT_10,
};

#[test]
fn tags() {
    assert_eq!(tag(&TransportParameter::InitialMaxStreamData(0)), 0);
    assert_eq!(tag(&TransportParameter::InitialMaxData(0)), 1);
    assert_eq!(tag(&TransportParameter::InitialMaxStreamIdBidi(0)), 2);
    assert_eq!(tag(&TransportParameter::IdleTimeout(0)), 3);
    assert_eq!(tag(&TransportParameter::OmitConnectionId), 4);
    assert_eq!(tag(&TransportParameter::MaxPacketSize(0)), 5);
    assert_eq!(tag(&TransportParameter::StatelessResetToken(vec![])), 6);
    assert_eq!(tag(&TransportParameter::AckDelayExponent(0)), 7);
    assert_eq!(tag(&TransportParameter::InitialMaxStreamIdUni(0)), 8);
}

#[test]
fn values_are_big_endian() {
    let encoded = encode_transport_parameters(&[
        TransportParameter::InitialMaxStreamData(131072),
        TransportParameter::InitialMaxData(1048576),
        TransportParameter::InitialMaxStreamIdBidi(0x0102_0304),
        TransportParameter::IdleTimeout(300),
        TransportParameter::OmitConnectionId,
        TransportParameter::MaxPacketSize(0xfffe),
        TransportParameter::StatelessResetToken(vec![9, 8, 7]),
        TransportParameter::AckDelayExponent(3),
        TransportParameter::InitialMaxStreamIdUni(u32::MAX),
    ]);
    assert_eq!(
        encoded,
        vec![
            (0u16, vec![0x00, 0x02, 0x00, 0x00]),
            (1, vec![0x00, 0x10, 0x00, 0x00]),
            (2, vec![0x01, 0x02, 0x03, 0x04]),
            (3, vec![0x01, 0x2c]),
            (4, vec![]),
            (5, vec![0xff, 0xfe]),
            (6, vec![9, 8, 7]),
            (7, vec![3]),
            (8, vec![0xff, 0xff, 0xff, 0xff]),
        ]
    );
}

#[test]
fn no_parameters() {
    assert!(encode_transport_parameters(&[]).is_empty());
}

#[test]
fn parameters_of_the_handshake() {
    assert_eq!(
        initial_parameters(),
        vec![
            TransportParameter::InitialMaxStreamData(131072),
            TransportParameter::InitialMaxData(1048576),
            TransportParameter::IdleTimeout(300),
        ]
    );
    assert_eq!(ALPN_PROTOCOL, "hq-10");
    assert_eq!(DRAFT_10, 0xff00_000a);
}

#[test]
fn client_announcement() {
    let entries = encode_transport_parameters(&initial_parameters());
    assert_eq!(
        client_transport_parameters(1, &entries),
        Some(vec![
            0, 0, 0, 1, // the version the client starts with
            0, 22, // length of the list
            0, 0, 0, 4, 0, 2, 0, 0, // window of a stream
            0, 1, 0, 4, 0, 0x10, 0, 0, // window of the connection
            0, 3, 0, 2, 0x01, 0x2c, // idle timeout
        ])
    );
    assert_eq!(
        client_transport_parameters(0xff00_000a, &vec![]),
        Some(vec![0xff, 0, 0, 0x0a, 0, 0])
    );
}

#[test]
fn server_announcement() {
    let entries = encode_transport_parameters(&[
        TransportParameter::OmitConnectionId,
        TransportParameter::AckDelayExponent(3),
    ]);
    assert_eq!(
        server_transport_parameters(DRAFT_10, &vec![DRAFT_10, 1], &entries),
        Some(vec![
            0xff, 0, 0, 0x0a, // the version agreed on
            8, 0xff, 0, 0, 0x0a, 0, 0, 0, 1, // the versions supported
            0, 9, // length of the list
            0, 4, 0, 0, // no connection id
            0, 7, 0, 1, 3, // ack delay exponent
        ])
    );
    assert_eq!(
        server_transport_parameters(1, &vec![], &vec![]),
        Some(vec![0, 0, 0, 1, 0, 0, 0])
    );
}

#[test]
fn announcements_without_room() {
    // A value that two bytes cannot count.
    let long = vec![(6u16, vec![0u8; 0x1_0000])];
    assert_eq!(client_transport_parameters(1, &long), None);
    assert_eq!(server_transport_parameters(1, &vec![1], &long), None);
    // A list that two bytes cannot count.
    let many = vec![(6u16, vec![0u8; 0x7ffc]), (6u16, vec![0u8; 0x7ffc])];
    assert_eq!(client_transport_parameters(1, &many), None);
    // The longest list there is room for.
    let most = vec![(6u16, vec![0u8; 0x7ffc]), (6u16, vec![0u8; 0x7ffb])];
    assert_eq!(
        client_transport_parameters(1, &most).map(|b| b.len()),
        Some(4 + 2 + 0xffff)
    );
    // More versions than one byte can count the bytes of.
    assert_eq!(server_transport_parameters(1, &vec![1; 64], &vec![]), None);
    assert_eq!(
        server_transport_parameters(1, &vec![1; 63], &vec![]).map(|b| b.len()),
        Some(4 + 1 + 252 + 2)
    );
}
