//! OSPFv3 datagrams on a punt socket. The framing is that of OSPFv2; the packets are IPv6.
use vstd::prelude::*;

use crate::io_punt;
use crate::io_punt::{
    build_punt_l2_frame, eth_l3_offset, ETHERNET_HEADER_LEN, OSPF_PROTO, PUNT_ACTION_L2,
    PUNT_DESC_LEN,
};
use crate::io_v3;
use crate::io_v3::{IoInterfaceV3, RxPacketV3, TxPacketV3};
use crate::packet::inet;
use crate::packet::inet::checksum_of;
use crate::wire;
use crate::wire::{
    copy_range, get_le32, get_u128, get_u16, put_bytes, put_le32, put_u128, put_u16, put_u32,
};

verus! {

/// Routes an IPv6 packet.
pub const PUNT_ACTION_IP6_ROUTED: u32 = 2;

/// Octets of an IPv6 header.
pub const IPV6_HEADER_LEN: usize = 40;

/// The Ethernet type of IPv6.
pub const ETHERTYPE_IPV6: u16 = 0x86dd;

/// Where the checksum stands in an OSPFv3 header.
pub const OSPF_V3_CHECKSUM_OFFSET: usize = 12;

/// What the OSPFv3 checksum is taken of: the IPv6 pseudo-header and the packet.
pub open spec fn summed(src: u128, dst: u128, packet: Seq<u8>) -> Seq<u8> {
    wire::be128(src) + wire::be128(dst) + wire::be32((packet.len() % 0x100000000) as u32) + seq![
        0u8,
        0u8,
        0u8,
        OSPF_PROTO,
    ] + packet
}

/// The OSPFv3 checksum of a packet.
pub fn ospfv3_checksum(src: u128, dst: u128, ospf: &[u8]) -> (r: u16)
    ensures
        r == inet::inet_checksum(summed(src, dst, ospf@)),
{
    let mut buf: Vec<u8> = Vec::new();
    put_u128(&mut buf, src);
    put_u128(&mut buf, dst);
    put_u32(&mut buf, (ospf.len() as u64 % 0x100000000) as u32);
    put_u32(&mut buf, OSPF_PROTO as u32);
    put_bytes(&mut buf, ospf);
    assert(wire::be32(89) =~= seq![0u8, 0u8, 0u8, OSPF_PROTO]);
    assert(buf@ =~= summed(src, dst, ospf@));
    checksum_of(buf.as_slice())
}

/// The packet with a checksum of zero.
pub open spec fn unsealed(packet: Seq<u8>) -> Seq<u8> {
    packet.update(12, 0).update(13, 0)
}

/// The packet with its checksum filled in; one that is too short for a checksum as it is.
pub open spec fn sealed(src: u128, dst: u128, packet: Seq<u8>) -> Seq<u8> {
    if packet.len() < OSPF_V3_CHECKSUM_OFFSET + 2 {
        packet
    } else {
        let c = inet::inet_checksum(summed(src, dst, unsealed(packet)));
        packet.update(12, (c / 256) as u8).update(13, (c % 256) as u8)
    }
}

/// The packet with its checksum filled in.
pub fn ospfv3_compute_checksum_in_place(src: u128, dst: u128, packet: &[u8]) -> (r: Vec<u8>)
    ensures
        r@ == sealed(src, dst, packet@),
{
    let mut data: Vec<u8> = copy_range(packet, 0, packet.len());
    assert(data@ =~= packet@);
    if data.len() >= OSPF_V3_CHECKSUM_OFFSET + 2 {
        data[OSPF_V3_CHECKSUM_OFFSET] = 0;
        data[OSPF_V3_CHECKSUM_OFFSET + 1] = 0;
        assert(data@ =~= unsealed(packet@));
        let c: u16 = ospfv3_checksum(src, dst, data.as_slice());
        data[OSPF_V3_CHECKSUM_OFFSET] = (c / 256) as u8;
        data[OSPF_V3_CHECKSUM_OFFSET + 1] = (c % 256) as u8;
        assert(data@ =~= sealed(src, dst, packet@));
    }
    data
}

/// Whether the address is a multicast group.
pub open spec fn multicast_v6(a: u128) -> bool {
    a / 0x1000000000000000000000000000000 == 0xff
}

/// Whether the address is a multicast group.
pub fn is_multicast_v6(addr: u128) -> (r: bool)
    ensures
        r == multicast_v6(addr),
{
    addr / 0x1000000000000000000000000000000 == 0xff
}

/// The Ethernet address of a multicast group: its low 32 bits behind a fixed prefix.
pub open spec fn group_mac_v6(a: u128) -> Seq<u8> {
    seq![0x33u8, 0x33u8] + wire::be32((a % 0x100000000) as u32)
}

/// The Ethernet address of a multicast group.
pub fn multicast_mac_v6(addr: u128) -> (r: [u8; 6])
    ensures
        r@ == group_mac_v6(addr),
{
    let low: u32 = (addr % 0x100000000) as u32;
    let r: [u8; 6] = [
        0x33,
        0x33,
        (low / 16777216) as u8,
        (low / 65536 % 256) as u8,
        (low / 256 % 256) as u8,
        (low % 256) as u8,
    ];
    assert(r@ =~= group_mac_v6(addr));
    r
}

/// The IPv6 packet that carries `data`: traffic class of network control, a single hop, OSPF. The
/// payload length is a 16-bit field.
pub open spec fn ipv6_packet(src: u128, dst: u128, data: Seq<u8>) -> Seq<u8> {
    wire::be32(0x6c000000) + wire::be16((data.len() % 65536) as u16) + seq![OSPF_PROTO, 1u8]
        + wire::be128(src) + wire::be128(dst) + data
}

/// The IPv6 packet that carries `data`.
pub fn build_ipv6_packet(src: u128, dst: u128, data: &[u8]) -> (r: Vec<u8>)
    ensures
        r@ == ipv6_packet(src, dst, data@),
{
    let mut p: Vec<u8> = Vec::new();
    put_u32(&mut p, 0x6c000000);
    put_u16(&mut p, (data.len() % 65536) as u16);
    p.push(OSPF_PROTO);
    p.push(1);
    put_u128(&mut p, src);
    put_u128(&mut p, dst);
    put_bytes(&mut p, data);
    assert(p@ =~= ipv6_packet(src, dst, data@));
    p
}

/// The position of the interface with index `idx` at or behind `from`.
pub open spec fn io_pos(s: Seq<IoInterfaceV3>, idx: u32, from: int) -> Option<int>
    decreases s.len() - from,
{
    if from < 0 || from >= s.len() {
        None
    } else if s[from].sw_if_index == idx {
        Some(from)
    } else {
        io_pos(s, idx, from + 1)
    }
}

/// The position of the interface with index `idx`.
pub fn find_io_interface_v3(ifs: &Vec<IoInterfaceV3>, idx: u32) -> (r: Option<usize>)
    ensures
        match (r, io_pos(ifs@, idx, 0)) {
            (Some(i), Some(j)) => i == j && i < ifs@.len() && ifs@[j].sw_if_index == idx,
            (None, None) => true,
            _ => false,
        },
{
    let mut i: usize = 0;
    while i < ifs.len()
        invariant
            i <= ifs@.len(),
            io_pos(ifs@, idx, 0) == io_pos(ifs@, idx, i as int),
        decreases ifs.len() - i,
    {
        if ifs[i].sw_if_index == idx {
            return Some(i);
        }
        i = i + 1;
    }
    None
}

/// The datagram that sends a packet out of the interface, with the checksum of the packet filled
/// in.
pub open spec fn datagram(f: IoInterfaceV3, p: io_v3::TxPacketV3View) -> Seq<u8> {
    let ip = ipv6_packet(p.src_addr, p.dst_addr, sealed(p.src_addr, p.dst_addr, p.data));
    if multicast_v6(p.dst_addr) {
        wire::le32(p.sw_if_index) + wire::le32(PUNT_ACTION_L2) + io_punt::frame(
            group_mac_v6(p.dst_addr),
            f.mac_address@,
            f.outer_vlan_id,
            f.inner_vlan_id,
            ETHERTYPE_IPV6,
            ip,
        )
    } else {
        wire::le32(p.sw_if_index) + wire::le32(PUNT_ACTION_IP6_ROUTED) + ip
    }
}

/// The datagram that sends a packet; nothing if the interface is unknown. A multicast packet goes
/// out as a whole frame, any other is routed.
pub fn punt_datagram_v3(ifs: &Vec<IoInterfaceV3>, packet: &TxPacketV3) -> (r: Option<Vec<u8>>)
    ensures
        match (r, io_pos(ifs@, packet.sw_if_index, 0)) {
            (Some(d), Some(i)) => d@ == datagram(ifs@[i], packet@),
            (None, None) => true,
            _ => false,
        },
{
    match find_io_interface_v3(ifs, packet.sw_if_index) {
        Some(i) => {
            let f = &ifs[i];
            let data = ospfv3_compute_checksum_in_place(
                packet.src_addr,
                packet.dst_addr,
                packet.data.as_slice(),
            );
            let ip = build_ipv6_packet(packet.src_addr, packet.dst_addr, data.as_slice());
            let mut d: Vec<u8> = Vec::new();
            put_le32(&mut d, packet.sw_if_index);
            if is_multicast_v6(packet.dst_addr) {
                let whole = build_punt_l2_frame(
                    multicast_mac_v6(packet.dst_addr),
                    f.mac_address,
                    f.outer_vlan_id,
                    f.inner_vlan_id,
                    ETHERTYPE_IPV6,
                    ip.as_slice(),
                );
                put_le32(&mut d, PUNT_ACTION_L2);
                put_bytes(&mut d, whole.as_slice());
            } else {
                put_le32(&mut d, PUNT_ACTION_IP6_ROUTED);
                put_bytes(&mut d, ip.as_slice());
            }
            assert(d@ =~= datagram(*f, packet@));
            Some(d)
        },
        None => None,
    }
}

/// The OSPF packet in the IPv6 packet at `at` of a datagram: nothing unless the header is whole, is
/// IPv6 and names OSPF, and the payload lies inside the datagram.
pub open spec fn carried(s: Seq<u8>, at: int) -> Option<io_v3::RxPacketV3View> {
    let n = wire::u16_at(s, at + 4);
    let start = at + IPV6_HEADER_LEN;
    if start > s.len() || s[at] / 16 != 6 || s[at + 6] != OSPF_PROTO || start + n > s.len() {
        None
    } else {
        Some(
            io_v3::RxPacketV3View {
                sw_if_index: wire::le32_at(s, 0),
                src_addr: wire::u128_at(s, at + 8),
                dst_addr: wire::u128_at(s, at + 24),
                data: s.subrange(start, start + n),
            },
        )
    }
}

/// The OSPF packet in an arriving datagram: nothing if it is too short to hold one, if the frame
/// does not carry one, or if the interface is not among `ifs`.
pub open spec fn received(ifs: Seq<IoInterfaceV3>, s: Seq<u8>) -> Option<io_v3::RxPacketV3View> {
    if s.len() < PUNT_DESC_LEN + ETHERNET_HEADER_LEN + IPV6_HEADER_LEN + 16 {
        None
    } else {
        match io_punt::l3_offset(s.skip(PUNT_DESC_LEN as int)) {
            Some(off) => match carried(s, PUNT_DESC_LEN + off) {
                Some(p) => if io_pos(ifs, p.sw_if_index, 0) is Some {
                    Some(p)
                } else {
                    None
                },
                None => None,
            },
            None => None,
        }
    }
}

/// The OSPF packet in an arriving datagram.
pub fn punt_packet_v3(ifs: &Vec<IoInterfaceV3>, buf: &[u8]) -> (r: Option<RxPacketV3>)
    ensures
        match (r, received(ifs@, buf@)) {
            (Some(p), Some(v)) => p@ == v,
            (None, None) => true,
            _ => false,
        },
{
    let n: usize = buf.len();
    if n < PUNT_DESC_LEN + ETHERNET_HEADER_LEN + IPV6_HEADER_LEN + 16 {
        return None;
    }
    let whole: Vec<u8> = copy_range(buf, PUNT_DESC_LEN, n);
    assert(whole@ =~= buf@.skip(PUNT_DESC_LEN as int));
    let off: usize = match eth_l3_offset(whole.as_slice()) {
        Some(o) => o,
        None => {
            return None;
        },
    };
    let at: usize = PUNT_DESC_LEN + off;
    if n - at < IPV6_HEADER_LEN {
        return None;
    }
    if buf[at] / 16 != 6 || buf[at + 6] != OSPF_PROTO {
        return None;
    }
    let len: usize = get_u16(buf, at + 4) as usize;
    let start: usize = at + IPV6_HEADER_LEN;
    if n - start < len {
        return None;
    }
    let sw_if_index: u32 = get_le32(buf, 0);
    match find_io_interface_v3(ifs, sw_if_index) {
        Some(_) => Some(
            RxPacketV3 {
                sw_if_index,
                src_addr: get_u128(buf, at + 8),
                dst_addr: get_u128(buf, at + 24),
                data: copy_range(buf, start, start + len),
            },
        ),
        None => None,
    }
}

/// Every packet that is long enough for a checksum leaves with one that holds.
pub proof fn lemma_sealed_checksum_holds(src: u128, dst: u128, packet: Seq<u8>)
    requires
        packet.len() >= OSPF_V3_CHECKSUM_OFFSET + 2,
    ensures
        inet::inet_checksum(summed(src, dst, sealed(src, dst, packet))) == 0,
{
    let s = summed(src, dst, unsealed(packet));
    let c = inet::inet_checksum(s);
    let t = summed(src, dst, sealed(src, dst, packet));
    assert(s.len() == 40 + packet.len());
    assert(s[52] == unsealed(packet)[12]);
    assert(s[53] == unsealed(packet)[13]);
    inet::lemma_checksum_verifies(s, 52);
    assert(s.update(52, (c / 256) as u8).update(53, (c % 256) as u8) =~= t);
}

/// Sealing a packet again changes nothing.
pub proof fn lemma_seal_twice(src: u128, dst: u128, packet: Seq<u8>)
    ensures
        sealed(src, dst, sealed(src, dst, packet)) == sealed(src, dst, packet),
{
    if packet.len() >= OSPF_V3_CHECKSUM_OFFSET + 2 {
        assert(unsealed(sealed(src, dst, packet)) =~= unsealed(packet));
        assert(sealed(src, dst, sealed(src, dst, packet)) =~= sealed(src, dst, packet));
    }
}

/// Sealing touches nothing but the checksum field, does not look at what stood there, and leaves a
/// packet too short for a checksum as it is. The checksum of a sealed packet is zero, and sealing it
/// again changes nothing.
pub proof fn lemma_sealing(src: u128, dst: u128, packet: Seq<u8>, hi: u8, lo: u8)
    ensures
        ({
            let r = sealed(src, dst, packet);
            &&& r.len() == packet.len()
            &&& forall|i: int| 0 <= i < packet.len() && i != 12 && i != 13 ==> r[i] == packet[i]
            &&& packet.len() < 14 ==> r == packet
            &&& packet.len() >= 14 ==> {
                &&& sealed(src, dst, packet.update(12, hi).update(13, lo)) == r
                &&& inet::inet_checksum(summed(src, dst, r)) == 0
            }
            &&& sealed(src, dst, r) == r
        }),
{
    lemma_seal_twice(src, dst, packet);
    if packet.len() >= 14 {
        lemma_sealed_checksum_holds(src, dst, packet);
        let other = packet.update(12, hi).update(13, lo);
        assert(unsealed(other) =~= unsealed(packet));
        assert(sealed(src, dst, other) =~= sealed(src, dst, packet));
    }
}

/// What stands where in an IPv6 packet that we build.
proof fn lemma_ipv6_fields(src: u128, dst: u128, data: Seq<u8>)
    requires
        data.len() <= 65535,
    ensures
        ({
            let ip = ipv6_packet(src, dst, data);
            &&& ip.len() == 40 + data.len()
            &&& ip[0] == 0x6c
            &&& ip[4] * 256 + ip[5] == data.len()
            &&& ip[6] == OSPF_PROTO
            &&& wire::u128_at(ip, 8) == src
            &&& wire::u128_at(ip, 24) == dst
            &&& ip.skip(40) == data
        }),
{
    let n = data.len() as u16;
    let front = wire::be32(0x6c000000) + wire::be16(n) + seq![OSPF_PROTO, 1u8];
    assert(front.len() == 8);
    assert(front[0] == 0x6c && front[6] == OSPF_PROTO);
    assert(front[4] * 256 + front[5] == data.len());
    assert(ipv6_packet(src, dst, data) == front + wire::be128(src) + wire::be128(dst) + data);
    assert(wire::be128(src).len() == 16 && wire::be128(dst).len() == 16);
    lemma_laid_out(front, wire::be128(src), wire::be128(dst), data);
    lemma_be128_inside(front + wire::be128(src) + wire::be128(dst) + data, 8, src);
    lemma_be128_inside(front + wire::be128(src) + wire::be128(dst) + data, 24, dst);
}

/// Where the parts of a packet stand.
proof fn lemma_laid_out(front: Seq<u8>, a: Seq<u8>, b: Seq<u8>, data: Seq<u8>)
    requires
        front.len() == 8,
        a.len() == 16,
        b.len() == 16,
    ensures
        ({
            let ip = front + a + b + data;
            &&& ip.len() == 40 + data.len()
            &&& ip[0] == front[0]
            &&& ip[4] == front[4]
            &&& ip[5] == front[5]
            &&& ip[6] == front[6]
            &&& ip.subrange(8, 24) == a
            &&& ip.subrange(24, 40) == b
            &&& ip.skip(40) == data
        }),
{
    let ip = front + a + b + data;
    assert(ip.subrange(8, 24) =~= a);
    assert(ip.subrange(24, 40) =~= b);
    assert(ip.skip(40) =~= data);
}

/// An IPv6 packet that we build, at the end of a datagram, carries its data.
pub proof fn lemma_carried(s: Seq<u8>, at: int, src: u128, dst: u128, data: Seq<u8>)
    requires
        0 <= at <= s.len(),
        data.len() <= 65535,
        s.skip(at) == ipv6_packet(src, dst, data),
    ensures
        carried(s, at) == Some(
            io_v3::RxPacketV3View {
                sw_if_index: wire::le32_at(s, 0),
                src_addr: src,
                dst_addr: dst,
                data,
            },
        ),
{
    lemma_ipv6_fields(src, dst, data);
    lemma_carried_fields(s, at, s.skip(at), src, dst, data);
}

proof fn lemma_carried_fields(
    s: Seq<u8>,
    at: int,
    ip: Seq<u8>,
    src: u128,
    dst: u128,
    data: Seq<u8>,
)
    requires
        0 <= at <= s.len(),
        data.len() <= 65535,
        s.skip(at) == ip,
        ip.len() == 40 + data.len(),
        ip[0] == 0x6c,
        ip[4] * 256 + ip[5] == data.len(),
        ip[6] == OSPF_PROTO,
        wire::u128_at(ip, 8) == src,
        wire::u128_at(ip, 24) == dst,
        ip.skip(40) == data,
    ensures
        carried(s, at) == Some(
            io_v3::RxPacketV3View {
                sw_if_index: wire::le32_at(s, 0),
                src_addr: src,
                dst_addr: dst,
                data,
            },
        ),
{
    assert(s.len() == at + ip.len());
    assert(s[at] == ip[0] && s[at + 4] == ip[4] && s[at + 5] == ip[5] && s[at + 6] == ip[6]);
    lemma_shifted(s, at, ip, 8);
    lemma_shifted(s, at, ip, 24);
    assert(s.subrange(at + 40, at + 40 + data.len()) =~= data) by {
        assert(s.subrange(at + 40, at + 40 + data.len()) =~= ip.skip(40));
    }
    assert(wire::u16_at(s, at + 4) == data.len());
}

/// Sixteen octets give the same value wherever the sequence starts.
proof fn lemma_shifted(s: Seq<u8>, at: int, ip: Seq<u8>, i: int)
    requires
        0 <= at <= s.len(),
        s.skip(at) == ip,
        0 <= i,
        i + 16 <= ip.len(),
    ensures
        wire::u128_at(s, at + i) == wire::u128_at(ip, i),
{
    lemma_word_shifted(s, at, ip, i);
    lemma_word_shifted(s, at, ip, i + 4);
    lemma_word_shifted(s, at, ip, i + 8);
    lemma_word_shifted(s, at, ip, i + 12);
}

proof fn lemma_word_shifted(s: Seq<u8>, at: int, ip: Seq<u8>, i: int)
    requires
        0 <= at <= s.len(),
        s.skip(at) == ip,
        0 <= i,
        i + 4 <= ip.len(),
    ensures
        wire::u32_at(s, at + i) == wire::u32_at(ip, i),
{
    assert(s[at + i] == ip[i]);
    assert(s[at + i + 1] == ip[i + 1]);
    assert(s[at + i + 2] == ip[i + 2]);
    assert(s[at + i + 3] == ip[i + 3]);
}

proof fn lemma_be128_inside(s: Seq<u8>, i: int, x: u128)
    requires
        0 <= i,
        i + 16 <= s.len(),
        s.subrange(i, i + 16) == wire::be128(x),
    ensures
        wire::u128_at(s, i) == x,
{
    let t = s.subrange(i, i + 16);
    let u = s.take(i + 16);
    assert(u.skip(i) =~= t);
    lemma_shifted(u, i, t, 0);
    wire::lemma_be128_roundtrip(x);
    assert(wire::u128_at(u, i) == wire::u128_at(s, i)) by {
        assert forall|k: int| 0 <= k < i + 16 implies u[k] == s[k] by {}
    }
}

/// A multicast packet that we send is, to a receiver on the link that knows the interface by the
/// same index, the packet with its checksum filled in.
pub proof fn lemma_multicast_received(
    f: IoInterfaceV3,
    p: io_v3::TxPacketV3View,
    ifs: Seq<IoInterfaceV3>,
)
    requires
        multicast_v6(p.dst_addr),
        16 <= p.data.len() <= 65535,
        io_pos(ifs, p.sw_if_index, 0) is Some,
    ensures
        received(ifs, datagram(f, p)) == Some(
            io_v3::RxPacketV3View {
                sw_if_index: p.sw_if_index,
                src_addr: p.src_addr,
                dst_addr: p.dst_addr,
                data: sealed(p.src_addr, p.dst_addr, p.data),
            },
        ),
{
    let data = sealed(p.src_addr, p.dst_addr, p.data);
    let ip = ipv6_packet(p.src_addr, p.dst_addr, data);
    let mac = group_mac_v6(p.dst_addr);
    let n = io_punt::tag_bytes(f.outer_vlan_id, f.inner_vlan_id).len() as int;
    assert(mac.len() == 6);
    assert(data.len() == p.data.len());
    io_punt::lemma_framed(
        p.sw_if_index,
        mac,
        (f.mac_address@, f.outer_vlan_id, f.inner_vlan_id),
        ETHERTYPE_IPV6,
        ip,
    );
    lemma_frame_received(ifs, datagram(f, p), 14 + n, p.src_addr, p.dst_addr, data);
}

proof fn lemma_frame_received(
    ifs: Seq<IoInterfaceV3>,
    s: Seq<u8>,
    off: int,
    src: u128,
    dst: u128,
    data: Seq<u8>,
)
    requires
        s.len() >= PUNT_DESC_LEN,
        io_punt::l3_offset(s.skip(PUNT_DESC_LEN as int)) == Some(off),
        14 <= off <= s.len() - PUNT_DESC_LEN,
        s.skip(PUNT_DESC_LEN as int).skip(off) == ipv6_packet(src, dst, data),
        16 <= data.len() <= 65535,
        io_pos(ifs, wire::le32_at(s, 0), 0) is Some,
    ensures
        received(ifs, s) == Some(
            io_v3::RxPacketV3View {
                sw_if_index: wire::le32_at(s, 0),
                src_addr: src,
                dst_addr: dst,
                data,
            },
        ),
{
    assert(s.skip(PUNT_DESC_LEN as int).skip(off) =~= s.skip(PUNT_DESC_LEN + off));
    lemma_ipv6_fields(src, dst, data);
    assert(s.skip(PUNT_DESC_LEN + off).len() == s.len() - PUNT_DESC_LEN - off);
    lemma_carried(s, PUNT_DESC_LEN + off, src, dst, data);
}

} // verus!
