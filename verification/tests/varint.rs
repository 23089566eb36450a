use quinn_h3::proto::varint::{decode, encode, size, MAX_SIZE, MAX_VALUE};

fn encoded(v: u64) -> Vec<u8> {
    let mut out = Vec::new();
    encode(v, &mut out);
    out
}

#[test]
fn encode_one_byte() {
    assert_eq!(encoded(37), vec![0x25]);
    assert_eq!(encoded(0), vec![0x00]);
    assert_eq!(encoded(63), vec![0x3f]);
}

#[test]
fn encode_two_bytes() {
    assert_eq!(encoded(15293), vec![0x7b, 0xbd]);
    assert_eq!(encoded(64), vec![0x40, 0x40]);
    assert_eq!(encoded(16383), vec![0x7f, 0xff]);
}

#[test]
fn encode_four_bytes() {
    assert_eq!(encoded(494_878_333), vec![0x9d, 0x7f, 0x3e, 0x7d]);
    assert_eq!(encoded(16384), vec![0x80, 0x00, 0x40, 0x00]);
}

#[test]
fn encode_eight_bytes() {
    assert_eq!(
        encoded(151_288_809_941_952_652),
        vec![0xc2, 0x19, 0x7c, 0x5e, 0xff, 0x14, 0xe8, 0x8c]
    );
    assert_eq!(encoded(MAX_VALUE), vec![0xff; 8]);
    assert_eq!(encoded(1 << 30), vec![0xc0, 0, 0, 0, 0x40, 0, 0, 0]);
}

#[test]
fn encode_appends() {
    let mut out = vec![9u8, 8];
    encode(37, &mut out);
    assert_eq!(out, vec![9, 8, 0x25]);
}

#[test]
fn decode_known_values() {
    assert_eq!(decode(&[0x25]), Some((37, 1)));
    assert_eq!(decode(&[0x7b, 0xbd]), Some((15293, 2)));
    assert_eq!(decode(&[0x9d, 0x7f, 0x3e, 0x7d]), Some((494_878_333, 4)));
    assert_eq!(
        decode(&[0xc2, 0x19, 0x7c, 0x5e, 0xff, 0x14, 0xe8, 0x8c]),
        Some((151_288_809_941_952_652, 8))
    );
}

#[test]
fn decode_reads_only_its_own_bytes() {
    assert_eq!(decode(&[0x25, 0xff, 0xff]), Some((37, 1)));
    assert_eq!(decode(&[0x7b, 0xbd, 0x01]), Some((15293, 2)));
}

#[test]
fn decode_accepts_longer_forms() {
    assert_eq!(decode(&[0x40, 0x25]), Some((37, 2)));
    assert_eq!(decode(&[0x80, 0x00, 0x00, 0x25]), Some((37, 4)));
}

#[test]
fn decode_needs_all_bytes() {
    assert_eq!(decode(&[]), None);
    assert_eq!(decode(&[0x7b]), None);
    assert_eq!(decode(&[0x9d, 0x7f, 0x3e]), None);
    assert_eq!(decode(&[0xc2, 0x19, 0x7c, 0x5e, 0xff, 0x14, 0xe8]), None);
}

#[test]
fn size_at_the_boundaries() {
    assert_eq!(size(0), 1);
    assert_eq!(size(63), 1);
    assert_eq!(size(64), 2);
    assert_eq!(size(16383), 2);
    assert_eq!(size(16384), 4);
    assert_eq!(size((1 << 30) - 1), 4);
    assert_eq!(size(1 << 30), 8);
    assert_eq!(size(MAX_VALUE), MAX_SIZE);
}

#[test]
fn round_trip_over_the_boundaries() {
    let values = [
        0u64,
        1,
        63,
        64,
        255,
        256,
        16383,
        16384,
        65535,
        (1 << 30) - 1,
        1 << 30,
        u32::MAX as u64,
        1 << 40,
        MAX_VALUE - 1,
        MAX_VALUE,
    ];
    for v in values.iter() {
        let bytes = encoded(*v);
        assert_eq!(bytes.len(), size(*v));
        assert_eq!(decode(&bytes), Some((*v, bytes.len())));
    }
}
