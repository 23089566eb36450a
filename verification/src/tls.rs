//! The transport parameters that an endpoint announces in its TLS handshake.

use vstd::prelude::*;

verus! {

/// The protocol name offered in the handshake.
pub const ALPN_PROTOCOL: &'static str = "hq-10";

/// The version of the transport that the endpoints speak.
pub const DRAFT_10: u32 = 0xff00_000a;

/// One transport parameter.
#[derive(Debug, Clone, PartialEq, Eq)]
pub enum TransportParameter {
    InitialMaxStreamData(u32),
    InitialMaxData(u32),
    InitialMaxStreamIdBidi(u32),
    IdleTimeout(u16),
    OmitConnectionId,
    MaxPacketSize(u16),
    StatelessResetToken(Vec<u8>),
    AckDelayExponent(u8),
    InitialMaxStreamIdUni(u32),
}

/// The four bytes of `v`, most significant first.
pub open spec fn be32(v: u32) -> Seq<u8> {
    seq![
        (v / 0x100_0000) as u8,
        (v / 0x1_0000 % 0x100) as u8,
        (v / 0x100 % 0x100) as u8,
        (v % 0x100) as u8,
    ]
}

/// The two bytes of `v`, most significant first.
pub open spec fn be16(v: u16) -> Seq<u8> {
    seq![(v / 0x100) as u8, (v % 0x100) as u8]
}

impl TransportParameter {
    /// The number that names the parameter in the handshake.
    pub open spec fn spec_tag(&self) -> u16 {
        match self {
            TransportParameter::InitialMaxStreamData(_) => 0,
            TransportParameter::InitialMaxData(_) => 1,
            TransportParameter::InitialMaxStreamIdBidi(_) => 2,
            TransportParameter::IdleTimeout(_) => 3,
            TransportParameter::OmitConnectionId => 4,
            TransportParameter::MaxPacketSize(_) => 5,
            TransportParameter::StatelessResetToken(_) => 6,
            TransportParameter::AckDelayExponent(_) => 7,
            TransportParameter::InitialMaxStreamIdUni(_) => 8,
        }
    }

    /// The parameter's value as it travels: integers most significant byte
    /// first, a token as it is, nothing for a parameter without a value.
    pub open spec fn value(&self) -> Seq<u8> {
        match self {
            TransportParameter::InitialMaxStreamData(v) => be32(*v),
            TransportParameter::InitialMaxData(v) => be32(*v),
            TransportParameter::InitialMaxStreamIdBidi(v) => be32(*v),
            TransportParameter::InitialMaxStreamIdUni(v) => be32(*v),
            TransportParameter::IdleTimeout(v) => be16(*v),
            TransportParameter::MaxPacketSize(v) => be16(*v),
            TransportParameter::OmitConnectionId => Seq::empty(),
            TransportParameter::StatelessResetToken(v) => v@,
            TransportParameter::AckDelayExponent(v) => seq![*v],
        }
    }
}

/// The number that names `param` in the handshake.
pub fn tag(param: &TransportParameter) -> (t: u16)
    ensures
        t == param.spec_tag(),
{
    match param {
        TransportParameter::InitialMaxStreamData(_) => 0,
        TransportParameter::InitialMaxData(_) => 1,
        TransportParameter::InitialMaxStreamIdBidi(_) => 2,
        TransportParameter::IdleTimeout(_) => 3,
        TransportParameter::OmitConnectionId => 4,
        TransportParameter::MaxPacketSize(_) => 5,
        TransportParameter::StatelessResetToken(_) => 6,
        TransportParameter::AckDelayExponent(_) => 7,
        TransportParameter::InitialMaxStreamIdUni(_) => 8,
    }
}

/// Appends the four bytes of `v`, most significant first.
fn put_u32(v: u32, bytes: &mut Vec<u8>)
    ensures
        final(bytes)@ == old(bytes)@ + be32(v),
{
    bytes.push((v / 0x100_0000) as u8);
    bytes.push((v / 0x1_0000 % 0x100) as u8);
    bytes.push((v / 0x100 % 0x100) as u8);
    bytes.push((v % 0x100) as u8);
    assert(bytes@ =~= old(bytes)@ + be32(v));
}

/// Appends the two bytes of `v`, most significant first.
fn put_u16(v: u16, bytes: &mut Vec<u8>)
    ensures
        final(bytes)@ == old(bytes)@ + be16(v),
{
    bytes.push((v / 0x100) as u8);
    bytes.push((v % 0x100) as u8);
    assert(bytes@ =~= old(bytes)@ + be16(v));
}

/// Encodes transport parameters for the handshake: for each parameter, in
/// the order given, its tag and the bytes of its value.
pub fn encode_transport_parameters(params: &[TransportParameter]) -> (ret: Vec<(u16, Vec<u8>)>)
    ensures
        ret@.len() == params@.len(),
        forall|i: int|
            0 <= i < params@.len() ==> (#[trigger] ret@[i]).0 == params@[i].spec_tag()
                && ret@[i].1@ == params@[i].value(),
{
    let mut ret: Vec<(u16, Vec<u8>)> = Vec::new();
    let mut i: usize = 0;
    while i < params.len()
        invariant
            i <= params@.len(),
            ret@.len() == i,
            forall|j: int|
                0 <= j < i ==> (#[trigger] ret@[j]).0 == params@[j].spec_tag() && ret@[j].1@
                    == params@[j].value(),
        decreases params@.len() - i,
    {
        let param = &params[i];
        let mut bytes: Vec<u8> = Vec::new();
        match param {
            TransportParameter::InitialMaxStreamData(v) => put_u32(*v, &mut bytes),
            TransportParameter::InitialMaxData(v) => put_u32(*v, &mut bytes),
            TransportParameter::InitialMaxStreamIdBidi(v) => put_u32(*v, &mut bytes),
            TransportParameter::InitialMaxStreamIdUni(v) => put_u32(*v, &mut bytes),
            TransportParameter::IdleTimeout(v) => put_u16(*v, &mut bytes),
            TransportParameter::MaxPacketSize(v) => put_u16(*v, &mut bytes),
            TransportParameter::OmitConnectionId => {},
            TransportParameter::StatelessResetToken(v) => {
                bytes.extend_from_slice(v.as_slice());
            },
            TransportParameter::AckDelayExponent(v) => {
                bytes.push(*v);
            },
        }
        assert(bytes@ =~= param.value());
        ret.push((tag(param), bytes));
        i = i + 1;
    }
    ret
}

/// The parameters that an endpoint of this library announces: a window of
/// 128 KiB for each stream, of 1 MiB for the connection, and an idle timeout
/// of 300 seconds.
pub fn initial_parameters() -> (params: Vec<TransportParameter>)
    ensures
        params@ == seq![
            TransportParameter::InitialMaxStreamData(131072),
            TransportParameter::InitialMaxData(1048576),
            TransportParameter::IdleTimeout(300),
        ],
{
    let mut params: Vec<TransportParameter> = Vec::new();
    params.push(TransportParameter::InitialMaxStreamData(131072));
    params.push(TransportParameter::InitialMaxData(1048576));
    params.push(TransportParameter::IdleTimeout(300));
    assert(params@ =~= seq![
        TransportParameter::InitialMaxStreamData(131072),
        TransportParameter::InitialMaxData(1048576),
        TransportParameter::IdleTimeout(300),
    ]);
    params
}


/// One encoded parameter as it stands in the handshake: its tag, the length
/// of its value, and the value.
pub open spec fn entry_bytes(tag: u16, value: Seq<u8>) -> Seq<u8> {
    be16(tag) + be16(value.len() as u16) + value
}

/// Encoded parameters as they stand in the handshake, one after the other.
pub open spec fn list_bytes(entries: Seq<(u16, Vec<u8>)>) -> Seq<u8>
    decreases entries.len(),
{
    if entries.len() == 0 {
        Seq::empty()
    } else {
        list_bytes(entries.drop_last()) + entry_bytes(entries.last().0, entries.last().1@)
    }
}

/// Whether the handshake has room for `entries`: lengths are written in two
/// bytes, for each value and for the list as a whole.
pub open spec fn fits(entries: Seq<(u16, Vec<u8>)>) -> bool {
    &&& list_bytes(entries).len() <= 0xFFFF
    &&& forall|i: int| 0 <= i < entries.len() ==> (#[trigger] entries[i]).1@.len() <= 0xFFFF
}

/// The list of parameters with its length in front.
pub open spec fn block_bytes(entries: Seq<(u16, Vec<u8>)>) -> Seq<u8> {
    be16(list_bytes(entries).len() as u16) + list_bytes(entries)
}

/// The versions a server supports, four bytes each.
pub open spec fn versions_bytes(versions: Seq<u32>) -> Seq<u8>
    decreases versions.len(),
{
    if versions.len() == 0 {
        Seq::empty()
    } else {
        versions_bytes(versions.drop_last()) + be32(versions.last())
    }
}

/// What a client announces: the version it starts with, and its parameters.
pub open spec fn client_bytes(initial_version: u32, entries: Seq<(u16, Vec<u8>)>) -> Seq<u8> {
    be32(initial_version) + block_bytes(entries)
}

/// What a server announces: the version agreed on, the versions it supports
/// behind their length in bytes, and its parameters.
pub open spec fn server_bytes(
    negotiated_version: u32,
    supported_versions: Seq<u32>,
    entries: Seq<(u16, Vec<u8>)>,
) -> Seq<u8> {
    be32(negotiated_version) + seq![(4 * supported_versions.len()) as u8] + versions_bytes(
        supported_versions,
    ) + block_bytes(entries)
}

/// A list is at least as long as each of its beginnings.
proof fn lemma_list_bytes_grows(entries: Seq<(u16, Vec<u8>)>, k: int)
    requires
        0 <= k <= entries.len(),
    ensures
        list_bytes(entries.take(k)).len() <= list_bytes(entries).len(),
    decreases entries.len(),
{
    if k == entries.len() {
        assert(entries.take(k) =~= entries);
    } else {
        assert(entries.drop_last().take(k) =~= entries.take(k));
        lemma_list_bytes_grows(entries.drop_last(), k);
    }
}

/// Appends the list of parameters with its length in front, where the
/// handshake has room for it.
fn put_block(entries: &Vec<(u16, Vec<u8>)>, out: &mut Vec<u8>) -> (ok: bool)
    ensures
        ok == fits(entries@),
        ok ==> final(out)@ == old(out)@ + block_bytes(entries@),
        !ok ==> final(out)@ == old(out)@,
{
    let mut list: Vec<u8> = Vec::new();
    let mut i: usize = 0;
    assert(entries@.take(0) =~= Seq::empty());
    while i < entries.len()
        invariant
            i <= entries@.len(),
            list@ == list_bytes(entries@.take(i as int)),
            list@.len() <= 0xFFFF,
            out@ == old(out)@,
            forall|j: int| 0 <= j < i ==> (#[trigger] entries@[j]).1@.len() <= 0xFFFF,
        decreases entries@.len() - i,
    {
        let entry = &entries[i];
        proof {
            assert(entries@.take(i + 1).drop_last() =~= entries@.take(i as int));
            lemma_list_bytes_grows(entries@, i + 1);
        }
        if entry.1.len() > 0xFFFF {
            return false;
        }
        if list.len() + 4 + entry.1.len() > 0xFFFF {
            return false;
        }
        let ghost before = list@;
        put_u16(entry.0, &mut list);
        put_u16(entry.1.len() as u16, &mut list);
        list.extend_from_slice(entry.1.as_slice());
        assert(list@ =~= before + entry_bytes(entry.0, entry.1@));
        i = i + 1;
    }
    assert(entries@.take(i as int) =~= entries@);
    put_u16(list.len() as u16, out);
    out.extend_from_slice(list.as_slice());
    assert(out@ =~= old(out)@ + block_bytes(entries@));
    true
}

/// The transport parameters of a client as they go into its first message:
/// the version it starts with, then the parameters. `None` where the
/// handshake has no room for the parameters.
pub fn client_transport_parameters(
    initial_version: u32,
    entries: &Vec<(u16, Vec<u8>)>,
) -> (res: Option<Vec<u8>>)
    ensures
        match res {
            Some(bytes) => fits(entries@) && bytes@ == client_bytes(initial_version, entries@),
            None => !fits(entries@),
        },
{
    let mut out: Vec<u8> = Vec::new();
    put_u32(initial_version, &mut out);
    if put_block(entries, &mut out) {
        assert(out@ =~= client_bytes(initial_version, entries@));
        Some(out)
    } else {
        None
    }
}

/// The transport parameters of a server as they go into its answer: the
/// version agreed on, the versions it supports, then the parameters. `None`
/// where the handshake has no room: for more than 63 versions, or for the
/// parameters.
pub fn server_transport_parameters(
    negotiated_version: u32,
    supported_versions: &Vec<u32>,
    entries: &Vec<(u16, Vec<u8>)>,
) -> (res: Option<Vec<u8>>)
    ensures
        match res {
            Some(bytes) => supported_versions@.len() <= 63 && fits(entries@) && bytes@
                == server_bytes(negotiated_version, supported_versions@, entries@),
            None => supported_versions@.len() > 63 || !fits(entries@),
        },
{
    if supported_versions.len() > 63 {
        return None;
    }
    let mut out: Vec<u8> = Vec::new();
    put_u32(negotiated_version, &mut out);
    out.push((4 * supported_versions.len()) as u8);
    let ghost start = out@;
    let mut i: usize = 0;
    assert(supported_versions@.take(0) =~= Seq::empty());
    assert(out@ =~= start + versions_bytes(supported_versions@.take(0)));
    while i < supported_versions.len()
        invariant
            i <= supported_versions@.len(),
            out@ == start + versions_bytes(supported_versions@.take(i as int)),
        decreases supported_versions@.len() - i,
    {
        let ghost before = out@;
        put_u32(supported_versions[i], &mut out);
        proof {
            assert(supported_versions@.take(i + 1).drop_last() =~= supported_versions@.take(
                i as int,
            ));
            assert(out@ =~= start + versions_bytes(supported_versions@.take(i + 1)));
        }
        i = i + 1;
    }
    assert(supported_versions@.take(i as int) =~= supported_versions@);
    if put_block(entries, &mut out) {
        assert(out@ =~= server_bytes(negotiated_version, supported_versions@, entries@));
        Some(out)
    } else {
        None
    }
}

} // verus!
