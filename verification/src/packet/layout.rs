//! Where the fields of OSPFv2 packets and LSAs stand.
use vstd::prelude::*;

use crate::packet;
use crate::packet::dd;
use crate::packet::lsa;
use crate::packet::lsa::{
    AsExternalLsa, LsaHeader, LsaKey, LsaType, RouterLink, RouterLinkType, SummaryLsa,
};
use crate::packet::lsr;
use crate::packet::{OspfHeader, OspfPacketType};
use crate::packet_v3;
use crate::wire;

verus! {

/// A packet starts with the version, its type, its length, the router and the area; the checksum
/// follows, then ten octets of authentication, all zero, and the body.
pub proof fn lemma_packet(h: OspfHeader, body: Seq<u8>)
    ensures
        ({
            let s = packet::packet_bytes(h, body);
            let n = ((24 + body.len()) % 65536) as u16;
            &&& s.len() == 24 + body.len()
            &&& s.skip(24) == body
            &&& forall|i: int| 14 <= i < 24 ==> #[trigger] s[i] == 0
            &&& s[0] == 2
            &&& s[1] == h.packet_type.spec_code()
            &&& wire::u16_at(s, 2) == n
            &&& wire::u32_at(s, 4) == h.router_id
            &&& wire::u32_at(s, 8) == h.area_id
        }),
{
    let s = packet::packet_bytes(h, body);
    let n = ((24 + body.len()) % 65536) as u16;
    assert(s.skip(24) =~= body);
    assert(s.subrange(2, 4) =~= wire::be16(n));
    wire::lemma_be16_inside(s, 2, n);
    assert(s.subrange(4, 8) =~= wire::be32(h.router_id));
    wire::lemma_be32_inside(s, 4, h.router_id);
    assert(s.subrange(8, 12) =~= wire::be32(h.area_id));
    wire::lemma_be32_inside(s, 8, h.area_id);
}

/// The numbers of the packet types.
pub proof fn lemma_packet_types()
    ensures
        OspfPacketType::Hello.spec_code() == 1,
        OspfPacketType::DatabaseDescription.spec_code() == 2,
        OspfPacketType::LinkStateRequest.spec_code() == 3,
        OspfPacketType::LinkStateUpdate.spec_code() == 4,
        OspfPacketType::LinkStateAck.spec_code() == 5,
        OspfPacketType::spec_from_code(1) == Some(OspfPacketType::Hello),
        OspfPacketType::spec_from_code(2) == Some(OspfPacketType::DatabaseDescription),
        OspfPacketType::spec_from_code(3) == Some(OspfPacketType::LinkStateRequest),
        OspfPacketType::spec_from_code(4) == Some(OspfPacketType::LinkStateUpdate),
        OspfPacketType::spec_from_code(5) == Some(OspfPacketType::LinkStateAck),
{
}

/// The numbers of the LSA types.
pub proof fn lemma_lsa_types()
    ensures
        LsaType::Router.spec_code() == 1,
        LsaType::Network.spec_code() == 2,
        LsaType::SummaryNetwork.spec_code() == 3,
        LsaType::SummaryAsbr.spec_code() == 4,
        LsaType::AsExternal.spec_code() == 5,
        LsaType::spec_from_code(1) == Some(LsaType::Router),
        LsaType::spec_from_code(2) == Some(LsaType::Network),
        LsaType::spec_from_code(3) == Some(LsaType::SummaryNetwork),
        LsaType::spec_from_code(4) == Some(LsaType::SummaryAsbr),
        LsaType::spec_from_code(5) == Some(LsaType::AsExternal),
{
}

/// The numbers of the kinds of links.
pub proof fn lemma_link_types()
    ensures
        RouterLinkType::PointToPoint.spec_code() == 1,
        RouterLinkType::TransitNetwork.spec_code() == 2,
        RouterLinkType::StubNetwork.spec_code() == 3,
        RouterLinkType::VirtualLink.spec_code() == 4,
        RouterLinkType::spec_from_code(1) == Some(RouterLinkType::PointToPoint),
        RouterLinkType::spec_from_code(2) == Some(RouterLinkType::TransitNetwork),
        RouterLinkType::spec_from_code(3) == Some(RouterLinkType::StubNetwork),
        RouterLinkType::spec_from_code(4) == Some(RouterLinkType::VirtualLink),
{
}

/// A database description starts with the MTU, the options, the flags and the sequence number.
pub proof fn lemma_description(d: dd::DbDescView)
    ensures
        ({
            let s = d.bytes();
            &&& s.len() >= 8
            &&& wire::u16_at(s, 0) == d.interface_mtu
            &&& s[2] == d.options.0
            &&& s[3] == d.flags
            &&& wire::u32_at(s, 4) == d.dd_sequence_number
        }),
{
    let s = d.bytes();
    assert(s.subrange(0, 2) =~= wire::be16(d.interface_mtu));
    wire::lemma_be16_inside(s, 0, d.interface_mtu);
    assert(s.subrange(4, 8) =~= wire::be32(d.dd_sequence_number));
    wire::lemma_be32_inside(s, 4, d.dd_sequence_number);
}

/// The header of an LSA: age, options, type, id, router, sequence number, checksum and length.
pub proof fn lemma_lsa_header(h: LsaHeader)
    ensures
        ({
            let s = h.bytes();
            &&& s.len() == 20
            &&& wire::u16_at(s, 0) == h.ls_age
            &&& s[2] == h.options
            &&& s[3] == h.ls_type.spec_code()
            &&& wire::u32_at(s, 4) == h.link_state_id
            &&& wire::u32_at(s, 8) == h.advertising_router
            &&& wire::u32_at(s, 12) == wire::i32_bits(h.ls_sequence_number)
            &&& wire::u16_at(s, 16) == h.ls_checksum
            &&& wire::u16_at(s, 18) == h.length
        }),
{
    let s = h.bytes();
    assert(s.subrange(0, 2) =~= wire::be16(h.ls_age));
    wire::lemma_be16_inside(s, 0, h.ls_age);
    assert(s.subrange(4, 8) =~= wire::be32(h.link_state_id));
    wire::lemma_be32_inside(s, 4, h.link_state_id);
    assert(s.subrange(8, 12) =~= wire::be32(h.advertising_router));
    wire::lemma_be32_inside(s, 8, h.advertising_router);
    assert(s.subrange(12, 16) =~= wire::be32(wire::i32_bits(h.ls_sequence_number)));
    wire::lemma_be32_inside(s, 12, wire::i32_bits(h.ls_sequence_number));
    assert(s.subrange(16, 18) =~= wire::be16(h.ls_checksum));
    wire::lemma_be16_inside(s, 16, h.ls_checksum);
    assert(s.subrange(18, 20) =~= wire::be16(h.length));
    wire::lemma_be16_inside(s, 18, h.length);
}

/// A request names type, id and router of an LSA.
pub proof fn lemma_request(k: LsaKey)
    ensures
        ({
            let s = lsr::request_bytes(k);
            &&& s.len() == 12
            &&& wire::u32_at(s, 0) == k.ls_type.spec_code() as u32
            &&& wire::u32_at(s, 4) == k.link_state_id
            &&& wire::u32_at(s, 8) == k.advertising_router
        }),
{
    let s = lsr::request_bytes(k);
    assert(s.subrange(0, 4) =~= wire::be32(k.ls_type.spec_code() as u32));
    wire::lemma_be32_inside(s, 0, k.ls_type.spec_code() as u32);
    assert(s.subrange(4, 8) =~= wire::be32(k.link_state_id));
    wire::lemma_be32_inside(s, 4, k.link_state_id);
    assert(s.subrange(8, 12) =~= wire::be32(k.advertising_router));
    wire::lemma_be32_inside(s, 8, k.advertising_router);
}

/// A link of a Router-LSA: id, data, kind, no metrics per type of service, and the metric.
pub proof fn lemma_link(l: RouterLink)
    ensures
        ({
            let s = l.bytes();
            &&& s.len() == 12
            &&& wire::u32_at(s, 0) == l.link_id
            &&& wire::u32_at(s, 4) == l.link_data
            &&& s[8] == l.link_type.spec_code()
            &&& s[9] == 0
            &&& wire::u16_at(s, 10) == l.metric
        }),
{
    let s = l.bytes();
    assert(s.subrange(0, 4) =~= wire::be32(l.link_id));
    wire::lemma_be32_inside(s, 0, l.link_id);
    assert(s.subrange(4, 8) =~= wire::be32(l.link_data));
    wire::lemma_be32_inside(s, 4, l.link_data);
    assert(s.subrange(10, 12) =~= wire::be16(l.metric));
    wire::lemma_be16_inside(s, 10, l.metric);
}

/// A Router-LSA starts with the flags and the number of links.
pub proof fn lemma_router(flags: u8, ls: Seq<RouterLink>)
    ensures
        ({
            let s = lsa::LsaBodyView::Router { flags, links: ls }.bytes();
            &&& s.len() >= 4
            &&& s[0] == flags
            &&& s[1] == 0
            &&& wire::u16_at(s, 2) == (ls.len() % 65536) as u16
        }),
{
    let s = lsa::LsaBodyView::Router { flags, links: ls }.bytes();
    assert(s.subrange(2, 4) =~= wire::be16((ls.len() % 65536) as u16));
    wire::lemma_be16_inside(s, 2, (ls.len() % 65536) as u16);
}

/// A Network-LSA starts with the mask; the attached routers follow.
pub proof fn lemma_network(mask: u32, rs: Seq<u32>)
    ensures
        ({
            let s = lsa::LsaBodyView::Network { network_mask: mask, attached_routers: rs }.bytes();
            &&& s.len() >= 4
            &&& wire::u32_at(s, 0) == mask
            &&& packet_v3::u32s_from(s, 4) == rs
        }),
{
    let s = lsa::LsaBodyView::Network { network_mask: mask, attached_routers: rs }.bytes();
    assert(s.subrange(0, 4) =~= wire::be32(mask));
    wire::lemma_be32_inside(s, 0, mask);
    packet_v3::lemma_be32s(rs);
    let n = packet_v3::be32s(rs);
    assert forall|k: int| 0 <= k < rs.len() implies #[trigger] packet_v3::u32s_from(s, 4)[k]
        == rs[k] by {
        assert(s.subrange(4 + 4 * k, 4 + 4 * k + 4) =~= n.subrange(4 * k, 4 * k + 4));
        wire::lemma_be32_inside(s, 4 + 4 * k, rs[k]);
    }
    assert(packet_v3::u32s_from(s, 4) =~= rs);
}

/// A Summary-LSA: the mask and the metric.
pub proof fn lemma_summary(b: SummaryLsa)
    requires
        b.metric < 0x1000000,
    ensures
        ({
            let s = lsa::LsaBodyView::Summary(b).bytes();
            &&& s.len() == 8
            &&& wire::u32_at(s, 0) == b.network_mask
            &&& s[4] == 0
            &&& wire::u24_at(s, 5) == b.metric
        }),
{
    let s = lsa::LsaBodyView::Summary(b).bytes();
    assert(s.subrange(0, 4) =~= wire::be32(b.network_mask));
    wire::lemma_be32_inside(s, 0, b.network_mask);
    assert(s.subrange(5, 8) =~= wire::be24(b.metric));
    wire::lemma_be24_inside(s, 5, b.metric);
}

/// An AS-external-LSA: the mask, the E bit for a metric of type 2, the metric, the forwarding address
/// and the tag.
pub proof fn lemma_external(b: AsExternalLsa)
    requires
        b.metric < 0x1000000,
    ensures
        ({
            let s = lsa::LsaBodyView::AsExternal(b).bytes();
            &&& s.len() == 16
            &&& wire::u32_at(s, 0) == b.network_mask
            &&& s[4] == (if b.metric_type_2 {
                0x80int
            } else {
                0
            })
            &&& wire::u24_at(s, 5) == b.metric
            &&& wire::u32_at(s, 8) == b.forwarding_address
            &&& wire::u32_at(s, 12) == b.external_route_tag
        }),
{
    let s = lsa::LsaBodyView::AsExternal(b).bytes();
    assert(s.subrange(0, 4) =~= wire::be32(b.network_mask));
    wire::lemma_be32_inside(s, 0, b.network_mask);
    assert(s.subrange(5, 8) =~= wire::be24(b.metric));
    wire::lemma_be24_inside(s, 5, b.metric);
    assert(s.subrange(8, 12) =~= wire::be32(b.forwarding_address));
    wire::lemma_be32_inside(s, 8, b.forwarding_address);
    assert(s.subrange(12, 16) =~= wire::be32(b.external_route_tag));
    wire::lemma_be32_inside(s, 12, b.external_route_tag);
}

/// The bits of a database description: initial 4, more 2, master 1.
pub proof fn lemma_description_flags(d: dd::DbDescView)
    ensures
        d.is_init() == (d.flags & 4 != 0),
        d.has_more() == (d.flags & 2 != 0),
        d.is_master() == (d.flags & 1 != 0),
{
}

} // verus!
