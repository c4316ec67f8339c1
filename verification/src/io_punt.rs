//! OSPFv2 datagrams on a punt socket.
//!
//! Every datagram starts with eight octets, both fields in little-endian order: the interface
//! index, and an action. An arriving datagram goes on with a whole Ethernet frame. One that we
//! send goes on with a whole frame if the action is to put it on the interface as it is, which
//! multicast needs because a multicast group is in no unicast table, and with an IP packet if the
//! action is to route it.
use vstd::prelude::*;

use crate::io;
use crate::io::{IoInterface, RxPacket, TxPacket, IPV4_HEADER_LEN};
use crate::packet::inet;
use crate::packet::inet::checksum_of;
use crate::wire;
use crate::wire::{
    copy_range, get_le32, get_u16, get_u32, put_bytes, put_le32, put_u16, put_u32,
};

verus! {

/// Puts a whole frame on the interface.
pub const PUNT_ACTION_L2: u32 = 0;

/// Routes an IPv4 packet.
pub const PUNT_ACTION_IP4_ROUTED: u32 = 1;

/// Octets in front of every datagram.
pub const PUNT_DESC_LEN: usize = 8;

/// Octets of an Ethernet header without tags.
pub const ETHERNET_HEADER_LEN: usize = 14;

/// The Ethernet type of IPv4.
pub const ETHERTYPE_IPV4: u16 = 0x0800;

/// The IP protocol number of OSPF.
pub const OSPF_PROTO: u8 = 89;

/// Whether an Ethernet type announces a tag.
pub open spec fn is_tag(ethertype: u16) -> bool {
    ethertype == 0x8100 || ethertype == 0x88a8
}

/// Where the network header starts if an Ethernet type stands at `off`: behind up to three tags. A
/// frame with more tags is malformed.
pub open spec fn l3_from(s: Seq<u8>, off: int) -> Option<int>
    decreases 28 - off,
{
    if off + 2 > s.len() {
        None
    } else if !is_tag(wire::u16_at(s, off)) {
        Some(off + 2)
    } else if off < 24 {
        l3_from(s, off + 4)
    } else {
        None
    }
}

/// Where the network header of the frame `s` starts.
pub open spec fn l3_offset(s: Seq<u8>) -> Option<int> {
    l3_from(s, 12)
}

/// Where the network header of a frame starts: behind the Ethernet header and its tags. Nothing if
/// the frame ends before that or has more than three tags.
pub fn eth_l3_offset(buf: &[u8]) -> (r: Option<usize>)
    ensures
        match (r, l3_offset(buf@)) {
            (Some(i), Some(j)) => i == j && 14 <= i <= buf@.len() && i <= 26,
            (None, None) => true,
            _ => false,
        },
{
    let mut off: usize = 12;
    while off < 24
        invariant
            12 <= off <= 24,
            off % 4 == 0,
            l3_offset(buf@) == l3_from(buf@, off as int),
        decreases 24 - off,
    {
        if buf.len() < off + 2 {
            return None;
        }
        let ethertype: u16 = get_u16(buf, off);
        if ethertype != 0x8100 && ethertype != 0x88a8 {
            return Some(off + 2);
        }
        off = off + 4;
    }
    if buf.len() < off + 2 {
        return None;
    }
    let ethertype: u16 = get_u16(buf, off);
    if ethertype == 0x8100 || ethertype == 0x88a8 {
        return None;
    }
    Some(off + 2)
}

/// The tag octets of a sub-interface.
pub open spec fn tag_bytes(outer: Option<u16>, inner: Option<u16>) -> Seq<u8> {
    match (outer, inner) {
        (Some(o), Some(i)) => wire::be16(0x8100) + wire::be16(o % 4096) + wire::be16(0x8100)
            + wire::be16(i % 4096),
        (Some(o), None) => wire::be16(0x8100) + wire::be16(o % 4096),
        _ => Seq::empty(),
    }
}

/// A whole frame.
pub open spec fn frame(
    dst: Seq<u8>,
    src: Seq<u8>,
    outer: Option<u16>,
    inner: Option<u16>,
    ethertype: u16,
    payload: Seq<u8>,
) -> Seq<u8> {
    dst + src + tag_bytes(outer, inner) + wire::be16(ethertype) + payload
}

/// Appends an Ethernet address.
fn put_mac(buf: &mut Vec<u8>, mac: &[u8; 6])
    ensures
        final(buf)@ == old(buf)@ + mac@,
{
    let mut i: usize = 0;
    while i < 6
        invariant
            i <= 6,
            buf@ =~= old(buf)@ + mac@.take(i as int),
        decreases 6 - i,
    {
        buf.push(mac[i]);
        i = i + 1;
    }
    assert(mac@.take(6) =~= mac@);
}

/// A whole frame. The tags of a sub-interface are put in here, because a frame that is sent as it
/// is gets none on the way out.
pub fn build_punt_l2_frame(
    dst_mac: [u8; 6],
    src_mac: [u8; 6],
    outer_vlan_id: Option<u16>,
    inner_vlan_id: Option<u16>,
    ethertype: u16,
    payload: &[u8],
) -> (r: Vec<u8>)
    ensures
        r@ == frame(dst_mac@, src_mac@, outer_vlan_id, inner_vlan_id, ethertype, payload@),
{
    let mut f: Vec<u8> = Vec::new();
    put_mac(&mut f, &dst_mac);
    put_mac(&mut f, &src_mac);
    if let Some(outer) = outer_vlan_id {
        put_u16(&mut f, 0x8100);
        put_u16(&mut f, outer % 4096);
        if let Some(inner) = inner_vlan_id {
            put_u16(&mut f, 0x8100);
            put_u16(&mut f, inner % 4096);
        }
    }
    assert(f@ =~= dst_mac@ + src_mac@ + tag_bytes(outer_vlan_id, inner_vlan_id));
    put_u16(&mut f, ethertype);
    put_bytes(&mut f, payload);
    f
}

/// Whether the address is a multicast group.
pub open spec fn multicast_v4(a: u32) -> bool {
    a / 0x10000000 == 14
}

/// Whether the address is a multicast group.
pub fn is_multicast_v4(addr: u32) -> (r: bool)
    ensures
        r == multicast_v4(addr),
{
    addr / 0x10000000 == 14
}

/// The Ethernet address of a multicast group: its low 23 bits behind a fixed prefix.
pub open spec fn group_mac_v4(a: u32) -> Seq<u8> {
    seq![
        0x01,
        0x00,
        0x5e,
        (a / 0x10000 % 0x80) as u8,
        (a / 0x100 % 0x100) as u8,
        (a % 0x100) as u8,
    ]
}

/// The Ethernet address of a multicast group.
pub fn multicast_mac_v4(addr: u32) -> (r: [u8; 6])
    ensures
        r@ == group_mac_v4(addr),
{
    let r: [u8; 6] = [
        0x01,
        0x00,
        0x5e,
        (addr / 0x10000 % 0x80) as u8,
        (addr / 0x100 % 0x100) as u8,
        (addr % 0x100) as u8,
    ];
    assert(r@ =~= group_mac_v4(addr));
    r
}

/// The Internet checksum of an IPv4 header.
pub fn ip_header_checksum(header_bytes: &[u8]) -> (r: u16)
    ensures
        r == inet::inet_checksum(header_bytes@),
{
    checksum_of(header_bytes)
}

/// The IPv4 header in front of `n` octets, with the checksum `ck`: precedence of network control,
/// a single hop, OSPF.
pub open spec fn ip_header(src: u32, dst: u32, n: nat, ck: u16) -> Seq<u8> {
    seq![0x45u8, 0xc0u8] + wire::be16((20 + n % 65536) as u16) + seq![
        0u8,
        0u8,
        0u8,
        0u8,
        1u8,
        OSPF_PROTO,
    ] + wire::be16(ck) + wire::be32(src) + wire::be32(dst)
}

/// The IPv4 packet that carries `data`.
pub open spec fn ip_packet(src: u32, dst: u32, data: Seq<u8>) -> Seq<u8> {
    ip_header(src, dst, data.len(), inet::inet_checksum(ip_header(src, dst, data.len(), 0))) + data
}

fn put_ip_header(buf: &mut Vec<u8>, src: u32, dst: u32, total: u16, ck: u16)
    requires
        total >= 20,
    ensures
        final(buf)@ == old(buf)@ + ip_header(src, dst, (total - 20) as nat, ck),
{
    let ghost start = buf@;
    buf.push(0x45);
    buf.push(0xc0);
    put_u16(buf, total);
    put_u32(buf, 0);
    buf.push(1);
    buf.push(OSPF_PROTO);
    put_u16(buf, ck);
    put_u32(buf, src);
    put_u32(buf, dst);
    assert(buf@ =~= start + ip_header(src, dst, (total - 20) as nat, ck));
}

/// The IPv4 packet that carries `data`. The total length is a 16-bit field.
pub fn build_ip_packet(src: u32, dst: u32, data: &[u8]) -> (r: Vec<u8>)
    requires
        data@.len() % 65536 <= 65515,
    ensures
        r@ == ip_packet(src, dst, data@),
{
    let total: u16 = 20 + (data.len() % 65536) as u16;
    let ghost n = data@.len();
    let mut blank: Vec<u8> = Vec::new();
    put_ip_header(&mut blank, src, dst, total, 0);
    assert(blank@ =~= ip_header(src, dst, n, 0));
    let ck: u16 = ip_header_checksum(blank.as_slice());
    let mut p: Vec<u8> = Vec::new();
    put_ip_header(&mut p, src, dst, total, ck);
    assert(p@ =~= ip_header(src, dst, n, ck));
    put_bytes(&mut p, data);
    p
}

/// The position of the interface with index `idx` at or behind `from`.
pub open spec fn io_pos(s: Seq<IoInterface>, idx: u32, from: int) -> Option<int>
    decreases s.len() - from,
{
    if from < 0 || from >= s.len() {
        None
    } else if s[from].sw_if_index == idx {
        Some(from)
    } else {
        io_pos(s, idx, from + 1)
    }
}

/// The position of the interface with index `idx`.
pub fn find_io_interface(ifs: &Vec<IoInterface>, idx: u32) -> (r: Option<usize>)
    ensures
        match (r, io_pos(ifs@, idx, 0)) {
            (Some(i), Some(j)) => i == j && i < ifs@.len() && ifs@[j].sw_if_index == idx,
            (None, None) => true,
            _ => false,
        },
{
    let mut i: usize = 0;
    while i < ifs.len()
        invariant
            i <= ifs@.len(),
            io_pos(ifs@, idx, 0) == io_pos(ifs@, idx, i as int),
        decreases ifs.len() - i,
    {
        if ifs[i].sw_if_index == idx {
            return Some(i);
        }
        i = i + 1;
    }
    None
}

/// The datagram that sends a packet out of the interface.
pub open spec fn datagram(f: IoInterface, p: io::TxPacketView) -> Seq<u8> {
    let ip = ip_packet(p.src_addr, p.dst_addr, p.data);
    if multicast_v4(p.dst_addr) {
        wire::le32(p.sw_if_index) + wire::le32(PUNT_ACTION_L2) + frame(
            group_mac_v4(p.dst_addr),
            f.mac_address@,
            f.outer_vlan_id,
            f.inner_vlan_id,
            ETHERTYPE_IPV4,
            ip,
        )
    } else {
        wire::le32(p.sw_if_index) + wire::le32(PUNT_ACTION_IP4_ROUTED) + ip
    }
}

/// The datagram that sends a packet; nothing if the interface is unknown. A multicast packet goes
/// out as a whole frame, any other is routed.
pub fn punt_datagram(ifs: &Vec<IoInterface>, packet: &TxPacket) -> (r: Option<Vec<u8>>)
    requires
        packet.data@.len() % 65536 <= 65515,
    ensures
        match (r, io_pos(ifs@, packet.sw_if_index, 0)) {
            (Some(d), Some(i)) => d@ == datagram(ifs@[i], packet@),
            (None, None) => true,
            _ => false,
        },
{
    match find_io_interface(ifs, packet.sw_if_index) {
        Some(i) => {
            let f = &ifs[i];
            let ip = build_ip_packet(packet.src_addr, packet.dst_addr, packet.data.as_slice());
            let mut d: Vec<u8> = Vec::new();
            put_le32(&mut d, packet.sw_if_index);
            if is_multicast_v4(packet.dst_addr) {
                let whole = build_punt_l2_frame(
                    multicast_mac_v4(packet.dst_addr),
                    f.mac_address,
                    f.outer_vlan_id,
                    f.inner_vlan_id,
                    ETHERTYPE_IPV4,
                    ip.as_slice(),
                );
                put_le32(&mut d, PUNT_ACTION_L2);
                put_bytes(&mut d, whole.as_slice());
            } else {
                put_le32(&mut d, PUNT_ACTION_IP4_ROUTED);
                put_bytes(&mut d, ip.as_slice());
            }
            assert(d@ =~= datagram(*f, packet@));
            Some(d)
        },
        None => None,
    }
}

/// The OSPF packet in the IPv4 packet at `at` of a datagram: nothing unless the header is whole and
/// names OSPF, and the total length covers the header and lies inside the datagram.
pub open spec fn carried(s: Seq<u8>, at: int) -> Option<io::RxPacketView> {
    let header = s[at] % 16 * 4;
    let total = wire::u16_at(s, at + 2);
    if at + IPV4_HEADER_LEN > s.len() || header < IPV4_HEADER_LEN || s[at + 9] != OSPF_PROTO
        || total < header || at + total > s.len() {
        None
    } else {
        Some(
            io::RxPacketView {
                sw_if_index: wire::le32_at(s, 0),
                src_addr: wire::u32_at(s, at + 12),
                dst_addr: wire::u32_at(s, at + 16),
                data: s.subrange(at + header, at + total),
            },
        )
    }
}

/// The OSPF packet in an arriving datagram: nothing if it is too short to hold one, if the frame
/// does not carry one, or if the interface is not among `ifs`.
pub open spec fn received(ifs: Seq<IoInterface>, s: Seq<u8>) -> Option<io::RxPacketView> {
    if s.len() < PUNT_DESC_LEN + ETHERNET_HEADER_LEN + IPV4_HEADER_LEN + 24 {
        None
    } else {
        match l3_offset(s.skip(PUNT_DESC_LEN as int)) {
            Some(off) => match carried(s, PUNT_DESC_LEN + off) {
                Some(p) => if io_pos(ifs, p.sw_if_index, 0) is Some {
                    Some(p)
                } else {
                    None
                },
                None => None,
            },
            None => None,
        }
    }
}

/// The OSPF packet in an arriving datagram.
pub fn punt_packet(ifs: &Vec<IoInterface>, buf: &[u8]) -> (r: Option<RxPacket>)
    ensures
        match (r, received(ifs@, buf@)) {
            (Some(p), Some(v)) => p@ == v,
            (None, None) => true,
            _ => false,
        },
{
    let n: usize = buf.len();
    if n < PUNT_DESC_LEN + ETHERNET_HEADER_LEN + IPV4_HEADER_LEN + 24 {
        return None;
    }
    let whole: Vec<u8> = copy_range(buf, PUNT_DESC_LEN, n);
    assert(whole@ =~= buf@.skip(PUNT_DESC_LEN as int));
    let off: usize = match eth_l3_offset(whole.as_slice()) {
        Some(o) => o,
        None => {
            return None;
        },
    };
    let at: usize = PUNT_DESC_LEN + off;
    if n - at < IPV4_HEADER_LEN {
        return None;
    }
    let header: usize = (buf[at] % 16) as usize * 4;
    if header < IPV4_HEADER_LEN || buf[at + 9] != OSPF_PROTO {
        return None;
    }
    let total: usize = get_u16(buf, at + 2) as usize;
    if total < header || n - at < total {
        return None;
    }
    let sw_if_index: u32 = get_le32(buf, 0);
    match find_io_interface(ifs, sw_if_index) {
        Some(_) => Some(
            RxPacket {
                sw_if_index,
                src_addr: get_u32(buf, at + 12),
                dst_addr: get_u32(buf, at + 16),
                data: copy_range(buf, at + header, at + total),
            },
        ),
        None => None,
    }
}

/// The network header of a frame is found behind its tags, of which there are as many as the
/// sub-interface has.
pub proof fn lemma_frame_offset(
    dst: Seq<u8>,
    src: Seq<u8>,
    outer: Option<u16>,
    inner: Option<u16>,
    ethertype: u16,
    payload: Seq<u8>,
)
    requires
        dst.len() == 6,
        src.len() == 6,
        !is_tag(ethertype),
    ensures
        tag_bytes(outer, inner).len() == (if outer is Some {
            4int
        } else {
            0
        }) + (if outer is Some && inner is Some {
            4int
        } else {
            0
        }),
        l3_offset(frame(dst, src, outer, inner, ethertype, payload)) == Some(
            14 + tag_bytes(outer, inner).len() as int,
        ),
        frame(dst, src, outer, inner, ethertype, payload).skip(
            14 + tag_bytes(outer, inner).len() as int,
        ) == payload,
{
    reveal_with_fuel(l3_from, 3);
    let s = frame(dst, src, outer, inner, ethertype, payload);
    let t = tag_bytes(outer, inner);
    let n = t.len() as int;
    assert(s.skip(14 + n) =~= payload);
    assert forall|k: int| 0 <= k < n implies s[12 + k] == t[k] by {}
    assert(s[12 + n] == wire::be16(ethertype)[0]);
    assert(s[13 + n] == wire::be16(ethertype)[1]);
    wire::lemma_be16_roundtrip(ethertype);
    assert(wire::u16_at(s, 12 + n) == ethertype);
    if n >= 4 {
        assert(s[12] == t[0] && s[13] == t[1]);
        assert(wire::u16_at(s, 12) == 0x8100);
    }
    if n == 8 {
        assert(s[16] == t[4] && s[17] == t[5]);
        assert(wire::u16_at(s, 16) == 0x8100);
    }
}

/// A header whose checksum was written over a zero checksum field has a checksum of zero.
pub proof fn lemma_checksum_written(h: Seq<u8>)
    requires
        12 <= h.len(),
        h[10] == 0,
        h[11] == 0,
    ensures
        ({
            let c = inet::inet_checksum(h);
            inet::inet_checksum(h.update(10, (c / 256) as u8).update(11, (c % 256) as u8))
        }) == 0,
        ({
            let c = inet::inet_checksum(h);
            wire::u16_at(h.update(10, (c / 256) as u8).update(11, (c % 256) as u8), 10)
        }) == inet::inet_checksum(h),
{
    inet::lemma_checksum_verifies(h, 10);
}

/// Every IPv4 header leaves with a checksum that holds.
pub proof fn lemma_header_checksum_holds(src: u32, dst: u32, n: nat)
    ensures
        inet::inet_checksum(
            ip_header(src, dst, n, inet::inet_checksum(ip_header(src, dst, n, 0))),
        ) == 0,
{
    let s = ip_header(src, dst, n, 0);
    let c = inet::inet_checksum(s);
    let t = ip_header(src, dst, n, c);
    inet::lemma_checksum_verifies(s, 10);
    assert(s.update(10, (c / 256) as u8).update(11, (c % 256) as u8) =~= t);
}

/// An IPv4 packet that we build, at the end of a datagram, carries its data.
pub proof fn lemma_carried(s: Seq<u8>, at: int, src: u32, dst: u32, data: Seq<u8>)
    requires
        0 <= at <= s.len(),
        data.len() <= 65515,
        s.skip(at) == ip_packet(src, dst, data),
    ensures
        carried(s, at) == Some(
            io::RxPacketView {
                sw_if_index: wire::le32_at(s, 0),
                src_addr: src,
                dst_addr: dst,
                data,
            },
        ),
{
    let ip = ip_packet(src, dst, data);
    let ck = inet::inet_checksum(ip_header(src, dst, data.len(), 0));
    let head = ip_header(src, dst, data.len(), ck);
    let total = (20 + data.len()) as u16;
    assert(head.len() == 20);
    assert(s.len() - at == ip.len()) by {
        assert(s.skip(at).len() == s.len() - at);
    }
    assert(s.subrange(at, at + 20) =~= head) by {
        assert(s.subrange(at, at + 20) =~= s.skip(at).take(20));
        assert(ip.take(20) =~= head);
    }
    assert forall|k: int| 0 <= k < 20 implies #[trigger] s[at + k] == head[k] by {
        assert(s.subrange(at, at + 20)[k] == head[k]);
    }
    assert(head[0] == 0x45 && head[9] == OSPF_PROTO);
    assert(head[2] == (total / 256) as u8 && head[3] == (total % 256) as u8);
    assert(s[at] == head[0] && s[at + 9] == head[9]);
    assert(s[at + 2] == head[2] && s[at + 3] == head[3]);
    assert(wire::u16_at(s, at + 2) == total);
    assert(wire::u32_at(s, at + 12) == src) by {
        assert(s.subrange(at + 12, at + 16) =~= s.subrange(at, at + 20).subrange(12, 16));
        assert(head.subrange(12, 16) =~= wire::be32(src));
        wire::lemma_be32_inside(s, at + 12, src);
    }
    assert(wire::u32_at(s, at + 16) == dst) by {
        assert(s.subrange(at + 16, at + 20) =~= s.subrange(at, at + 20).subrange(16, 20));
        assert(head.subrange(16, 20) =~= wire::be32(dst));
        wire::lemma_be32_inside(s, at + 16, dst);
    }
    assert(s.subrange(at + 20, at + total) =~= data) by {
        assert(data =~= ip.skip(20));
        assert(s.subrange(at + 20, at + total) =~= s.skip(at).skip(20));
    }
}

/// A datagram is its descriptor and what it carries.
pub proof fn lemma_descriptor(idx: u32, action: u32, body: Seq<u8>)
    ensures
        (wire::le32(idx) + wire::le32(action) + body).skip(PUNT_DESC_LEN as int) == body,
        wire::le32_at(wire::le32(idx) + wire::le32(action) + body, 0) == idx,
{
    let s = wire::le32(idx) + wire::le32(action) + body;
    assert(s.skip(PUNT_DESC_LEN as int) =~= body);
    assert(s[0] == wire::le32(idx)[0]);
    assert(s[1] == wire::le32(idx)[1]);
    assert(s[2] == wire::le32(idx)[2]);
    assert(s[3] == wire::le32(idx)[3]);
}

/// A datagram with a whole frame gives back the index and what the frame carries.
pub proof fn lemma_framed(
    idx: u32,
    dst: Seq<u8>,
    f: (Seq<u8>, Option<u16>, Option<u16>),
    ethertype: u16,
    payload: Seq<u8>,
)
    requires
        dst.len() == 6,
        f.0.len() == 6,
        !is_tag(ethertype),
    ensures
        ({
            let s = wire::le32(idx) + wire::le32(PUNT_ACTION_L2) + frame(
                dst,
                f.0,
                f.1,
                f.2,
                ethertype,
                payload,
            );
            let off = 14 + tag_bytes(f.1, f.2).len() as int;
            &&& s.len() == PUNT_DESC_LEN + off + payload.len()
            &&& l3_offset(s.skip(PUNT_DESC_LEN as int)) == Some(off)
            &&& s.skip(PUNT_DESC_LEN as int).skip(off) == payload
            &&& wire::le32_at(s, 0) == idx
        }),
{
    let fr = frame(dst, f.0, f.1, f.2, ethertype, payload);
    lemma_frame_offset(dst, f.0, f.1, f.2, ethertype, payload);
    lemma_descriptor(idx, PUNT_ACTION_L2, fr);
    assert(fr.len() == 14 + tag_bytes(f.1, f.2).len() + payload.len());
}

proof fn lemma_frame_received(
    ifs: Seq<IoInterface>,
    s: Seq<u8>,
    off: int,
    src: u32,
    dst: u32,
    data: Seq<u8>,
)
    requires
        s.len() >= PUNT_DESC_LEN,
        l3_offset(s.skip(PUNT_DESC_LEN as int)) == Some(off),
        14 <= off <= s.len() - PUNT_DESC_LEN,
        s.skip(PUNT_DESC_LEN as int).skip(off) == ip_packet(src, dst, data),
        24 <= data.len() <= 65515,
        io_pos(ifs, wire::le32_at(s, 0), 0) is Some,
    ensures
        received(ifs, s) == Some(
            io::RxPacketView {
                sw_if_index: wire::le32_at(s, 0),
                src_addr: src,
                dst_addr: dst,
                data,
            },
        ),
{
    let ip = ip_packet(src, dst, data);
    assert(s.skip(PUNT_DESC_LEN as int).skip(off) =~= s.skip(PUNT_DESC_LEN + off));
    assert(ip.len() == 20 + data.len());
    assert(s.skip(PUNT_DESC_LEN + off).len() == s.len() - PUNT_DESC_LEN - off);
    lemma_carried(s, PUNT_DESC_LEN + off, src, dst, data);
}

/// A multicast packet that we send is, to a receiver on the link that knows the interface by the
/// same index, the packet itself.
pub proof fn lemma_multicast_received(
    f: IoInterface,
    p: io::TxPacketView,
    ifs: Seq<IoInterface>,
)
    requires
        multicast_v4(p.dst_addr),
        24 <= p.data.len() <= 65515,
        io_pos(ifs, p.sw_if_index, 0) is Some,
    ensures
        received(ifs, datagram(f, p)) == Some(
            io::RxPacketView {
                sw_if_index: p.sw_if_index,
                src_addr: p.src_addr,
                dst_addr: p.dst_addr,
                data: p.data,
            },
        ),
{
    let ip = ip_packet(p.src_addr, p.dst_addr, p.data);
    let n = tag_bytes(f.outer_vlan_id, f.inner_vlan_id).len() as int;
    lemma_framed(
        p.sw_if_index,
        group_mac_v4(p.dst_addr),
        (f.mac_address@, f.outer_vlan_id, f.inner_vlan_id),
        ETHERTYPE_IPV4,
        ip,
    );
    assert(ip.len() == 20 + p.data.len());
    lemma_frame_received(ifs, datagram(f, p), 14 + n, p.src_addr, p.dst_addr, p.data);
}

} // verus!
