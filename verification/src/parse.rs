//! Extraction of IPv4 TCP/UDP flow keys from captured Ethernet frames.
use crate::bytes::{be_bytes, be_value, lemma_be_fixed};
use crate::flow::FlowKey;
use vstd::prelude::*;

verus! {

pub const ETHERTYPE_IPV4: u16 = 0x0800;
pub const ETHERTYPE_VLAN: u16 = 0x8100;
pub const IPPROTO_TCP: u8 = 6;
pub const IPPROTO_UDP: u8 = 17;

/// The big-endian 16-bit number in bytes `i` and `i + 1` of `d`.
pub open spec fn be16_at(d: Seq<u8>, i: int) -> int {
    d[i] as int * 256 + d[i + 1] as int
}

/// The big-endian 32-bit number in bytes `i` to `i + 3` of `d`.
pub open spec fn be32_at(d: Seq<u8>, i: int) -> int {
    d[i] as int * 0x100_0000 + d[i + 1] as int * 0x1_0000 + d[i + 2] as int * 0x100 + d[i + 3] as int
}

/// The flow key and IP total length of an IPv4 datagram that carries TCP or
/// UDP with at least its two port fields, or `None` for anything else.
pub open spec fn spec_parse_ipv4_l4(d: Seq<u8>) -> Option<(FlowKey, u32)> {
    if d.len() < 20 {
        None
    } else {
        let version = d[0] / 16;
        let ihl = (d[0] % 16) as int * 4;
        let total = be16_at(d, 2);
        let protocol = d[9];
        if version != 4 || ihl < 20 || d.len() < ihl || total < ihl || d.len() < total {
            None
        } else if protocol != IPPROTO_TCP && protocol != IPPROTO_UDP {
            None
        } else if total - ihl < 4 {
            None
        } else {
            Some((
                FlowKey {
                    src_ip: be32_at(d, 12) as u32,
                    dst_ip: be32_at(d, 16) as u32,
                    src_port: be16_at(d, ihl) as u16,
                    dst_port: be16_at(d, ihl + 2) as u16,
                    protocol,
                },
                total as u32,
            ))
        }
    }
}

/// What `parse_ethernet_ipv4` gives for a frame: the IPv4 payload of an
/// Ethernet II frame, with at most one 802.1Q tag, parsed as above.
pub open spec fn spec_parse_ethernet_ipv4(d: Seq<u8>) -> Option<(FlowKey, u32)> {
    if d.len() < 14 {
        None
    } else if be16_at(d, 12) == ETHERTYPE_VLAN {
        if d.len() < 18 {
            None
        } else if be16_at(d, 16) != ETHERTYPE_IPV4 {
            None
        } else {
            spec_parse_ipv4_l4(d.subrange(18, d.len() as int))
        }
    } else if be16_at(d, 12) != ETHERTYPE_IPV4 {
        None
    } else {
        spec_parse_ipv4_l4(d.subrange(14, d.len() as int))
    }
}

fn read_be16(data: &[u8], i: usize) -> (v: u16)
    requires
        i + 1 < data@.len(),
    ensures
        v == be16_at(data@, i as int),
{
    (data[i] as u16) * 256 + data[i + 1] as u16
}

fn read_be32(data: &[u8], i: usize) -> (v: u32)
    requires
        i + 3 < data@.len(),
    ensures
        v == be32_at(data@, i as int),
{
    (data[i] as u32) * 0x100_0000 + (data[i + 1] as u32) * 0x1_0000 + (data[i + 2] as u32) * 0x100
        + data[i + 3] as u32
}

/// Parses IPv4 TCP/UDP flows from a link-layer frame (Ethernet).
pub fn parse_ethernet_ipv4(data: &[u8]) -> (r: Option<(FlowKey, u32)>)
    ensures
        r == spec_parse_ethernet_ipv4(data@),
{
    if data.len() < 14 {
        return None;
    }
    let mut offset: usize = 12;
    let mut ethertype = read_be16(data, offset);
    offset += 2;

    // 802.1Q VLAN
    if ethertype == ETHERTYPE_VLAN {
        if data.len() < offset + 4 {
            return None;
        }
        ethertype = read_be16(data, offset + 2);
        offset += 4;
    }
    if ethertype != ETHERTYPE_IPV4 {
        return None;
    }
    parse_ipv4_l4(&data[offset..data.len()])
}

fn parse_ipv4_l4(data: &[u8]) -> (r: Option<(FlowKey, u32)>)
    ensures
        r == spec_parse_ipv4_l4(data@),
{
    if data.len() < 20 {
        return None;
    }
    let version_ihl = data[0];
    let version = version_ihl >> 4u8;
    let ihl_words = version_ihl & 0x0fu8;
    assert(version == version_ihl / 16 && ihl_words == version_ihl % 16) by (bit_vector)
        requires
            version == version_ihl >> 4u8,
            ihl_words == version_ihl & 0x0fu8,
    ;
    if version != 4 {
        return None;
    }
    let ihl = ihl_words as usize * 4;
    if ihl < 20 || data.len() < ihl {
        return None;
    }
    let total_length = read_be16(data, 2) as usize;
    if total_length < ihl || data.len() < total_length {
        return None;
    }
    let protocol = data[9];
    if protocol != IPPROTO_TCP && protocol != IPPROTO_UDP {
        return None;
    }
    let src_ip = read_be32(data, 12);
    let dst_ip = read_be32(data, 16);

    let l4 = &data[ihl..total_length];
    if l4.len() < 4 {
        return None;
    }
    let src_port = read_be16(l4, 0);
    let dst_port = read_be16(l4, 2);
    let key = FlowKey { src_ip, dst_ip, src_port, dst_port, protocol };
    Some((key, total_length as u32))
}

/// A parsed frame is TCP or UDP, its IP total length covers a minimal
/// header and both ports, and the datagram lies within the frame.
pub proof fn lemma_parse_result_shape(d: Seq<u8>)
    ensures
        spec_parse_ethernet_ipv4(d) matches Some((key, total)) ==> {
            &&& key.protocol == IPPROTO_TCP || key.protocol == IPPROTO_UDP
            &&& 24 <= total
            &&& 14 + total <= d.len()
        },
{
}

/// The IPv4 parser never reports more bytes than it was given, nor more
/// than an IPv4 total length can hold, nor fewer than a minimal header and
/// both ports.
pub proof fn lemma_parse_ipv4_l4_shape(d: Seq<u8>)
    ensures
        spec_parse_ipv4_l4(d) matches Some((key, total)) ==> {
            &&& key.protocol == IPPROTO_TCP || key.protocol == IPPROTO_UDP
            &&& 24 <= total
            &&& total <= d.len()
            &&& total <= u16::MAX
        },
{
}

/// Bytes after the IPv4 datagram (Ethernet padding, a frame check
/// sequence) do not change what the parser reads from it.
pub proof fn lemma_parse_ipv4_l4_ignores_trailing_bytes(d: Seq<u8>, extra: Seq<u8>)
    ensures
        spec_parse_ipv4_l4(d) is Some ==> spec_parse_ipv4_l4(d + extra) == spec_parse_ipv4_l4(d),
{
    if spec_parse_ipv4_l4(d) is Some {
        let e = d + extra;
        assert forall|i: int| 0 <= i < d.len() implies e[i] == d[i] by {}
        let ihl = (d[0] % 16) as int * 4;
        assert(e[0] == d[0] && e[2] == d[2] && e[3] == d[3] && e[9] == d[9]);
        assert(be32_at(e, 12) == be32_at(d, 12));
        assert(be32_at(e, 16) == be32_at(d, 16));
        assert(be16_at(e, ihl) == be16_at(d, ihl));
        assert(be16_at(e, ihl + 2) == be16_at(d, ihl + 2));
    }
}

/// A frame that parses still parses to the same flow when bytes are
/// appended after it: only a frame shorter than its IPv4 total length is
/// refused, never a longer one.
pub proof fn lemma_parse_ignores_trailing_bytes(d: Seq<u8>, extra: Seq<u8>)
    ensures
        spec_parse_ethernet_ipv4(d) is Some ==> spec_parse_ethernet_ipv4(d + extra) == spec_parse_ethernet_ipv4(d),
{
    if spec_parse_ethernet_ipv4(d) is Some {
        let e = d + extra;
        assert(e[12] == d[12] && e[13] == d[13]);
        if be16_at(d, 12) == ETHERTYPE_VLAN {
            assert(e[16] == d[16] && e[17] == d[17]);
            let p = d.subrange(18, d.len() as int);
            assert(e.subrange(18, e.len() as int) =~= p + extra);
            lemma_parse_ipv4_l4_ignores_trailing_bytes(p, extra);
        } else {
            let p = d.subrange(14, d.len() as int);
            assert(e.subrange(14, e.len() as int) =~= p + extra);
            lemma_parse_ipv4_l4_ignores_trailing_bytes(p, extra);
        }
    }
}

/// An IPv4 datagram of `total` bytes with a 20-byte header, carrying the
/// flow `key` (TCP or UDP ports first in the transport header), zero-filled.
pub open spec fn spec_ipv4_datagram(key: FlowKey, total: nat) -> Seq<u8> {
    seq![0x45u8, 0u8] + be_bytes(total, 2) + seq![0u8, 0u8, 0u8, 0u8, 64u8, key.protocol, 0u8, 0u8]
        + be_bytes(key.src_ip as nat, 4) + be_bytes(key.dst_ip as nat, 4) + be_bytes(key.src_port as nat, 2)
        + be_bytes(key.dst_port as nat, 2) + Seq::new((total - 24) as nat, |i: int| 0u8)
}

/// An Ethernet frame (zero addresses) with an optional 802.1Q tag around a datagram.
pub open spec fn spec_ethernet_frame(vlan: bool, datagram: Seq<u8>) -> Seq<u8> {
    Seq::new(12, |i: int| 0u8) + (if vlan { seq![0x81u8, 0x00u8, 0x00u8, 0x05u8] } else { Seq::empty() })
        + seq![0x08u8, 0x00u8] + datagram
}

proof fn lemma_be_digits(v: nat, len: nat)
    requires
        len == 2 || len == 4,
        len == 2 ==> v < 0x1_0000,
        len == 4 ==> v < 0x1_0000_0000,
    ensures
        len == 2 ==> be16_at(be_bytes(v, 2), 0) == v,
        len == 4 ==> be32_at(be_bytes(v, 4), 0) == v,
{
    lemma_be_fixed(v, len);
    reveal_with_fuel(be_value, 5);
    let b = be_bytes(v, len);
    if len == 2 {
        assert(b.drop_last().drop_last() =~= Seq::<u8>::empty());
        assert(b.drop_last()[0] == b[0]);
    } else {
        assert(b.drop_last().drop_last().drop_last().drop_last() =~= Seq::<u8>::empty());
        assert(b.drop_last().drop_last().drop_last()[0] == b[0]);
        assert(b.drop_last().drop_last()[1] == b[1]);
        assert(b.drop_last()[2] == b[2]);
    }
}

/// A frame built around a TCP or UDP datagram parses back to the flow key
/// it was built from and the datagram's total length, with or without a
/// VLAN tag and whatever follows the datagram in the frame.
#[verifier::rlimit(50)]
pub proof fn lemma_parse_recovers_built_frame(key: FlowKey, total: nat, vlan: bool, extra: Seq<u8>)
    requires
        key.protocol == IPPROTO_TCP || key.protocol == IPPROTO_UDP,
        24 <= total <= u16::MAX,
    ensures
        spec_parse_ethernet_ipv4(spec_ethernet_frame(vlan, spec_ipv4_datagram(key, total)) + extra)
            == Some((key, total as u32)),
{
    let d = spec_ipv4_datagram(key, total);
    let tb = be_bytes(total, 2);
    let sb = be_bytes(key.src_ip as nat, 4);
    let db = be_bytes(key.dst_ip as nat, 4);
    let spb = be_bytes(key.src_port as nat, 2);
    let dpb = be_bytes(key.dst_port as nat, 2);
    lemma_be_fixed(total, 2);
    lemma_be_fixed(key.src_ip as nat, 4);
    lemma_be_fixed(key.dst_ip as nat, 4);
    lemma_be_fixed(key.src_port as nat, 2);
    lemma_be_fixed(key.dst_port as nat, 2);
    lemma_be_digits(total, 2);
    lemma_be_digits(key.src_ip as nat, 4);
    lemma_be_digits(key.dst_ip as nat, 4);
    lemma_be_digits(key.src_port as nat, 2);
    lemma_be_digits(key.dst_port as nat, 2);
    assert(d.len() == total);
    assert(d[0] == 0x45u8);
    assert(d[9] == key.protocol);
    assert(d[2] == tb[0] && d[3] == tb[1]);
    assert(be16_at(d, 2) == total);
    assert(d[12] == sb[0] && d[13] == sb[1] && d[14] == sb[2] && d[15] == sb[3]);
    assert(be32_at(d, 12) == key.src_ip);
    assert(d[16] == db[0] && d[17] == db[1] && d[18] == db[2] && d[19] == db[3]);
    assert(be32_at(d, 16) == key.dst_ip);
    assert(d[20] == spb[0] && d[21] == spb[1]);
    assert(be16_at(d, 20) == key.src_port);
    assert(d[22] == dpb[0] && d[23] == dpb[1]);
    assert(be16_at(d, 22) == key.dst_port);
    assert((0x45u8 / 16) == 4 && (0x45u8 % 16) * 4 == 20) by (bit_vector);
    assert(spec_parse_ipv4_l4(d) == Some((key, total as u32)));
    lemma_parse_ipv4_l4_ignores_trailing_bytes(d, extra);
    let f = spec_ethernet_frame(vlan, d) + extra;
    let off: int = if vlan { 18 } else { 14 };
    assert(f.subrange(off, f.len() as int) =~= d + extra);
    if vlan {
        assert(f[12] == 0x81u8 && f[13] == 0u8 && f[16] == 0x08u8 && f[17] == 0u8);
    } else {
        assert(f[12] == 0x08u8 && f[13] == 0u8);
    }
}

} // verus!
