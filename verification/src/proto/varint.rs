//! QUIC variable-length integers.
//!
//! A value below 2^62 is written big-endian in 1, 2, 4 or 8 bytes. The two
//! high bits of the first byte give the length: `00`, `01`, `10`, `11`.

use vstd::prelude::*;

verus! {

/// The largest value that has an encoding.
pub const MAX_VALUE: u64 = 0x3FFF_FFFF_FFFF_FFFF;

/// The largest number of bytes an encoding takes.
pub const MAX_SIZE: usize = 8;

/// Number of bytes in the shortest encoding of `v`.
pub open spec fn encoded_size(v: u64) -> nat {
    if v < 0x40 {
        1
    } else if v < 0x4000 {
        2
    } else if v < 0x4000_0000 {
        4
    } else {
        8
    }
}

/// Number of bytes of the encoding that starts with byte `first`.
pub open spec fn announced_size(first: u8) -> nat {
    if first < 0x40 {
        1
    } else if first < 0x80 {
        2
    } else if first < 0xC0 {
        4
    } else {
        8
    }
}

/// The shortest encoding of `v`, for `v <= MAX_VALUE`.
pub open spec fn spec_encode(v: u64) -> Seq<u8> {
    if v < 0x40 {
        seq![v as u8]
    } else if v < 0x4000 {
        seq![(0x40 + v / 0x100) as u8, (v % 0x100) as u8]
    } else if v < 0x4000_0000 {
        seq![
            (0x80 + v / 0x100_0000) as u8,
            (v / 0x1_0000 % 0x100) as u8,
            (v / 0x100 % 0x100) as u8,
            (v % 0x100) as u8,
        ]
    } else {
        seq![
            (0xC0 + v / 0x100_0000_0000_0000) as u8,
            (v / 0x1_0000_0000_0000 % 0x100) as u8,
            (v / 0x100_0000_0000 % 0x100) as u8,
            (v / 0x1_0000_0000 % 0x100) as u8,
            (v / 0x100_0000 % 0x100) as u8,
            (v / 0x1_0000 % 0x100) as u8,
            (v / 0x100 % 0x100) as u8,
            (v % 0x100) as u8,
        ]
    }
}

/// The value held by the first `announced_size(s[0])` bytes of `s`.
pub open spec fn leading_value(s: Seq<u8>) -> int
    recommends
        s.len() > 0,
        s.len() >= announced_size(s[0]),
{
    let n = announced_size(s[0]);
    if n == 1 {
        s[0] as int
    } else if n == 2 {
        (s[0] - 0x40) * 0x100 + s[1]
    } else if n == 4 {
        (s[0] - 0x80) * 0x100_0000 + s[1] * 0x1_0000 + s[2] * 0x100 + s[3]
    } else {
        (s[0] - 0xC0) * 0x100_0000_0000_0000 + s[1] * 0x1_0000_0000_0000 + s[2]
            * 0x100_0000_0000 + s[3] * 0x1_0000_0000 + s[4] * 0x100_0000 + s[5] * 0x1_0000
            + s[6] * 0x100 + s[7]
    }
}

/// The integer at the front of `s` and the number of bytes it takes, or
/// `None` where `s` ends before the integer does.
pub open spec fn spec_decode(s: Seq<u8>) -> Option<(u64, nat)> {
    if s.len() == 0 || s.len() < announced_size(s[0]) {
        None
    } else {
        Some((leading_value(s) as u64, announced_size(s[0])))
    }
}

/// Every decoded value has an encoding, and the size is one of 1, 2, 4, 8.
pub proof fn lemma_decode_bounds(s: Seq<u8>)
    ensures
        spec_decode(s) matches Some((v, n)) ==> v <= MAX_VALUE && 1 <= n <= 8 && n <= s.len()
            && v == leading_value(s),
{
}

/// Number of bytes the integer at the front of `s` takes; 0 where `s` ends
/// before the integer does.
pub open spec fn decoded_size(s: Seq<u8>) -> nat {
    match spec_decode(s) {
        Some((_, n)) => n,
        None => 0,
    }
}

/// Decoding reads only the bytes of the integer: what follows them does not
/// change the result.
pub proof fn lemma_decode_prefix(s: Seq<u8>, t: Seq<u8>)
    requires
        spec_decode(s) is Some,
        t.len() >= decoded_size(s),
        t.subrange(0, decoded_size(s) as int) == s.subrange(0, decoded_size(s) as int),
    ensures
        spec_decode(t) == spec_decode(s),
{
    let n = decoded_size(s) as int;
    assert forall|i: int| 0 <= i < n implies t[i] == s[i] by {
        assert(t.subrange(0, n)[i] == s.subrange(0, n)[i]);
    }
}

proof fn lemma_split_two(v: u64)
    by (bit_vector)
    requires
        v < 0x4000,
    ensures
        v == (v / 0x100) * 0x100 + v % 0x100,
        v / 0x100 < 0x40,
{
}

proof fn lemma_split_four(v: u64)
    by (bit_vector)
    requires
        v < 0x4000_0000,
    ensures
        v == (v / 0x100_0000) * 0x100_0000 + (v / 0x1_0000 % 0x100) * 0x1_0000 + (v / 0x100
            % 0x100) * 0x100 + v % 0x100,
        v / 0x100_0000 < 0x40,
{
}

proof fn lemma_split_eight(v: u64)
    by (bit_vector)
    requires
        v <= 0x3FFF_FFFF_FFFF_FFFF,
    ensures
        v == (v / 0x100_0000_0000_0000) * 0x100_0000_0000_0000 + (v / 0x1_0000_0000_0000
            % 0x100) * 0x1_0000_0000_0000 + (v / 0x100_0000_0000 % 0x100) * 0x100_0000_0000 + (v
            / 0x1_0000_0000 % 0x100) * 0x1_0000_0000 + (v / 0x100_0000 % 0x100) * 0x100_0000 + (v
            / 0x1_0000 % 0x100) * 0x1_0000 + (v / 0x100 % 0x100) * 0x100 + v % 0x100,
        v / 0x100_0000_0000_0000 < 0x40,
{
}

/// Decoding the encoding of `v`, whatever follows it, gives `v` back.
pub proof fn lemma_roundtrip(v: u64, rest: Seq<u8>)
    requires
        v <= MAX_VALUE,
    ensures
        spec_encode(v).len() == encoded_size(v),
        spec_decode(spec_encode(v) + rest) == Some((v, encoded_size(v))),
{
    let e = spec_encode(v);
    let s = e + rest;
    assert forall|i: int| 0 <= i < e.len() implies s[i] == e[i] by {}
    assert(s[0] == e[0]);
    if v < 0x40 {
    } else if v < 0x4000 {
        lemma_split_two(v);
        assert(s[1] == e[1]);
    } else if v < 0x4000_0000 {
        lemma_split_four(v);
        assert(s[1] == e[1] && s[2] == e[2] && s[3] == e[3]);
    } else {
        lemma_split_eight(v);
        assert(s[1] == e[1] && s[2] == e[2] && s[3] == e[3]);
        assert(s[4] == e[4] && s[5] == e[5] && s[6] == e[6] && s[7] == e[7]);
    }
}

/// The first byte of an encoding announces the encoding's length.
pub proof fn lemma_first_byte(v: u64)
    requires
        v <= MAX_VALUE,
    ensures
        spec_encode(v).len() == encoded_size(v),
        1 <= encoded_size(v) <= 8,
        announced_size(spec_encode(v)[0]) == encoded_size(v),
{
    lemma_roundtrip(v, Seq::empty());
    assert(spec_encode(v) + Seq::<u8>::empty() =~= spec_encode(v));
}

/// Reads the integer at the front of `buf`.
///
/// Returns the value and the number of bytes it takes, or `None` where `buf`
/// ends before the integer does.
pub fn decode(buf: &[u8]) -> (res: Option<(u64, usize)>)
    ensures
        match res {
            Some((v, n)) => spec_decode(buf@) == Some((v, n as nat)),
            None => spec_decode(buf@) is None,
        },
{
    if buf.len() == 0 {
        return None;
    }
    let first: u8 = buf[0];
    if first < 0x40 {
        Some((first as u64, 1))
    } else if first < 0x80 {
        if buf.len() < 2 {
            return None;
        }
        let v: u64 = ((first - 0x40) as u64) * 0x100 + buf[1] as u64;
        Some((v, 2))
    } else if first < 0xC0 {
        if buf.len() < 4 {
            return None;
        }
        let v: u64 = ((first - 0x80) as u64) * 0x100_0000 + (buf[1] as u64) * 0x1_0000 + (
        buf[2] as u64) * 0x100 + buf[3] as u64;
        Some((v, 4))
    } else {
        if buf.len() < 8 {
            return None;
        }
        let v: u64 = ((first - 0xC0) as u64) * 0x100_0000_0000_0000 + (buf[1] as u64)
            * 0x1_0000_0000_0000 + (buf[2] as u64) * 0x100_0000_0000 + (buf[3] as u64)
            * 0x1_0000_0000 + (buf[4] as u64) * 0x100_0000 + (buf[5] as u64) * 0x1_0000 + (
        buf[6] as u64) * 0x100 + buf[7] as u64;
        Some((v, 8))
    }
}

/// Number of bytes in the shortest encoding of `v`.
pub fn size(v: u64) -> (n: usize)
    ensures
        n == encoded_size(v),
        1 <= n <= MAX_SIZE,
{
    if v < 0x40 {
        1
    } else if v < 0x4000 {
        2
    } else if v < 0x4000_0000 {
        4
    } else {
        8
    }
}

/// Appends the shortest encoding of `v` to `out`.
pub fn encode(v: u64, out: &mut Vec<u8>)
    requires
        v <= MAX_VALUE,
    ensures
        final(out)@ == old(out)@ + spec_encode(v),
{
    let ghost before = out@;
    if v < 0x40 {
        out.push(v as u8);
    } else if v < 0x4000 {
        out.push((0x40 + v / 0x100) as u8);
        out.push((v % 0x100) as u8);
    } else if v < 0x4000_0000 {
        out.push((0x80 + v / 0x100_0000) as u8);
        out.push((v / 0x1_0000 % 0x100) as u8);
        out.push((v / 0x100 % 0x100) as u8);
        out.push((v % 0x100) as u8);
    } else {
        out.push((0xC0 + v / 0x100_0000_0000_0000) as u8);
        out.push((v / 0x1_0000_0000_0000 % 0x100) as u8);
        out.push((v / 0x100_0000_0000 % 0x100) as u8);
        out.push((v / 0x1_0000_0000 % 0x100) as u8);
        out.push((v / 0x100_0000 % 0x100) as u8);
        out.push((v / 0x1_0000 % 0x100) as u8);
        out.push((v / 0x100 % 0x100) as u8);
        out.push((v % 0x100) as u8);
    }
    assert(out@ =~= before + spec_encode(v));
}

} // verus!
