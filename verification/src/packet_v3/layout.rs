//! Where the fields of OSPFv3 packets and LSAs stand.
use vstd::prelude::*;

use crate::packet_v3::dd;
use crate::packet_v3::lsa::RouterLinkV3;
use crate::packet_v3::lsr::LsRequestV3;
use crate::packet_v3::{LsaV3Header, LsaV3Type, Ospfv3Header, Ospfv3PacketType};
use crate::wire;

verus! {

/// The header of a packet: version, type, length, router, area, checksum and instance.
pub proof fn lemma_header(h: Ospfv3Header)
    ensures
        ({
            let s = h.bytes();
            &&& s.len() == 16
            &&& s[0] == 3
            &&& s[1] == h.packet_type.spec_code()
            &&& wire::u16_at(s, 2) == h.packet_length
            &&& wire::u32_at(s, 4) == h.router_id
            &&& wire::u32_at(s, 8) == h.area_id
            &&& wire::u16_at(s, 12) == h.checksum
            &&& s[14] == h.instance_id
            &&& s[15] == 0
        }),
{
    let s = h.bytes();
    assert(s.subrange(2, 4) =~= wire::be16(h.packet_length));
    wire::lemma_be16_inside(s, 2, h.packet_length);
    assert(s.subrange(4, 8) =~= wire::be32(h.router_id));
    wire::lemma_be32_inside(s, 4, h.router_id);
    assert(s.subrange(8, 12) =~= wire::be32(h.area_id));
    wire::lemma_be32_inside(s, 8, h.area_id);
    assert(s.subrange(12, 14) =~= wire::be16(h.checksum));
    wire::lemma_be16_inside(s, 12, h.checksum);
}

/// The numbers of the packet types.
pub proof fn lemma_packet_types()
    ensures
        Ospfv3PacketType::Hello.spec_code() == 1,
        Ospfv3PacketType::DatabaseDescription.spec_code() == 2,
        Ospfv3PacketType::LinkStateRequest.spec_code() == 3,
        Ospfv3PacketType::LinkStateUpdate.spec_code() == 4,
        Ospfv3PacketType::LinkStateAck.spec_code() == 5,
        Ospfv3PacketType::spec_from_code(1) == Some(Ospfv3PacketType::Hello),
        Ospfv3PacketType::spec_from_code(2) == Some(Ospfv3PacketType::DatabaseDescription),
        Ospfv3PacketType::spec_from_code(3) == Some(Ospfv3PacketType::LinkStateRequest),
        Ospfv3PacketType::spec_from_code(4) == Some(Ospfv3PacketType::LinkStateUpdate),
        Ospfv3PacketType::spec_from_code(5) == Some(Ospfv3PacketType::LinkStateAck),
{
}

/// The numbers of the LSA types.
pub proof fn lemma_lsa_types()
    ensures
        LsaV3Type::Router.spec_code() == 0x2001,
        LsaV3Type::Network.spec_code() == 0x2002,
        LsaV3Type::InterAreaPrefix.spec_code() == 0x2003,
        LsaV3Type::InterAreaRouter.spec_code() == 0x2004,
        LsaV3Type::AsExternal.spec_code() == 0x4005,
        LsaV3Type::Nssa.spec_code() == 0x2007,
        LsaV3Type::Link.spec_code() == 0x0008,
        LsaV3Type::IntraAreaPrefix.spec_code() == 0x2009,
        LsaV3Type::spec_from_code(0x2001) == Some(LsaV3Type::Router),
        LsaV3Type::spec_from_code(0x2002) == Some(LsaV3Type::Network),
        LsaV3Type::spec_from_code(0x2003) == Some(LsaV3Type::InterAreaPrefix),
        LsaV3Type::spec_from_code(0x2004) == Some(LsaV3Type::InterAreaRouter),
        LsaV3Type::spec_from_code(0x4005) == Some(LsaV3Type::AsExternal),
        LsaV3Type::spec_from_code(0x2007) == Some(LsaV3Type::Nssa),
        LsaV3Type::spec_from_code(0x0008) == Some(LsaV3Type::Link),
        LsaV3Type::spec_from_code(0x2009) == Some(LsaV3Type::IntraAreaPrefix),
{
}

/// A database description starts with the options, the MTU, the flags and the sequence number.
pub proof fn lemma_description(d: dd::DbDescV3View)
    requires
        d.options < 0x1000000,
    ensures
        ({
            let s = d.bytes();
            &&& s.len() >= 12
            &&& s[0] == 0
            &&& wire::u24_at(s, 1) == d.options
            &&& wire::u16_at(s, 4) == d.interface_mtu
            &&& s[6] == 0
            &&& s[7] == d.flags
            &&& wire::u32_at(s, 8) == d.dd_sequence_number
        }),
{
    let s = d.bytes();
    assert(s.subrange(1, 4) =~= wire::be24(d.options));
    wire::lemma_be24_inside(s, 1, d.options);
    assert(s.subrange(4, 6) =~= wire::be16(d.interface_mtu));
    wire::lemma_be16_inside(s, 4, d.interface_mtu);
    assert(s.subrange(8, 12) =~= wire::be32(d.dd_sequence_number));
    wire::lemma_be32_inside(s, 8, d.dd_sequence_number);
}

/// The header of an LSA: age, type, id, router, sequence number, checksum and length.
pub proof fn lemma_lsa_header(h: LsaV3Header)
    ensures
        ({
            let s = h.bytes();
            &&& s.len() == 20
            &&& wire::u16_at(s, 0) == h.ls_age
            &&& wire::u16_at(s, 2) == h.ls_type.spec_code()
            &&& wire::u32_at(s, 4) == h.link_state_id
            &&& wire::u32_at(s, 8) == h.advertising_router
            &&& wire::u32_at(s, 12) == wire::i32_bits(h.ls_sequence_number)
            &&& wire::u16_at(s, 16) == h.ls_checksum
            &&& wire::u16_at(s, 18) == h.length
        }),
{
    let s = h.bytes();
    assert(s.subrange(0, 2) =~= wire::be16(h.ls_age));
    wire::lemma_be16_inside(s, 0, h.ls_age);
    assert(s.subrange(2, 4) =~= wire::be16(h.ls_type.spec_code()));
    wire::lemma_be16_inside(s, 2, h.ls_type.spec_code());
    assert(s.subrange(4, 8) =~= wire::be32(h.link_state_id));
    wire::lemma_be32_inside(s, 4, h.link_state_id);
    assert(s.subrange(8, 12) =~= wire::be32(h.advertising_router));
    wire::lemma_be32_inside(s, 8, h.advertising_router);
    assert(s.subrange(12, 16) =~= wire::be32(wire::i32_bits(h.ls_sequence_number)));
    wire::lemma_be32_inside(s, 12, wire::i32_bits(h.ls_sequence_number));
    assert(s.subrange(16, 18) =~= wire::be16(h.ls_checksum));
    wire::lemma_be16_inside(s, 16, h.ls_checksum);
    assert(s.subrange(18, 20) =~= wire::be16(h.length));
    wire::lemma_be16_inside(s, 18, h.length);
}

/// A request names type, id and router of an LSA.
pub proof fn lemma_request(k: LsRequestV3)
    ensures
        ({
            let s = k.bytes();
            &&& s.len() == 12
            &&& s[0] == 0
            &&& s[1] == 0
            &&& wire::u16_at(s, 2) == k.ls_type.spec_code()
            &&& wire::u32_at(s, 4) == k.link_state_id
            &&& wire::u32_at(s, 8) == k.advertising_router
        }),
{
    let s = k.bytes();
    assert(s.subrange(2, 4) =~= wire::be16(k.ls_type.spec_code()));
    wire::lemma_be16_inside(s, 2, k.ls_type.spec_code());
    assert(s.subrange(4, 8) =~= wire::be32(k.link_state_id));
    wire::lemma_be32_inside(s, 4, k.link_state_id);
    assert(s.subrange(8, 12) =~= wire::be32(k.advertising_router));
    wire::lemma_be32_inside(s, 8, k.advertising_router);
}

/// A link of a Router-LSA: kind, metric, our interface, the interface of the neighbor and its router.
pub proof fn lemma_link(l: RouterLinkV3)
    ensures
        ({
            let s = l.bytes();
            &&& s.len() == 16
            &&& s[0] == l.link_type
            &&& s[1] == 0
            &&& wire::u16_at(s, 2) == l.metric
            &&& wire::u32_at(s, 4) == l.interface_id
            &&& wire::u32_at(s, 8) == l.neighbor_interface_id
            &&& wire::u32_at(s, 12) == l.neighbor_router_id
        }),
{
    let s = l.bytes();
    assert(s.subrange(2, 4) =~= wire::be16(l.metric));
    wire::lemma_be16_inside(s, 2, l.metric);
    assert(s.subrange(4, 8) =~= wire::be32(l.interface_id));
    wire::lemma_be32_inside(s, 4, l.interface_id);
    assert(s.subrange(8, 12) =~= wire::be32(l.neighbor_interface_id));
    wire::lemma_be32_inside(s, 8, l.neighbor_interface_id);
    assert(s.subrange(12, 16) =~= wire::be32(l.neighbor_router_id));
    wire::lemma_be32_inside(s, 12, l.neighbor_router_id);
}

/// The bits of a database description: initial 4, more 2, master 1.
pub proof fn lemma_description_flags(d: dd::DbDescV3View)
    ensures
        d.is_init() == (d.flags & 4 != 0),
        d.has_more() == (d.flags & 2 != 0),
        d.is_master() == (d.flags & 1 != 0),
{
}

} // verus!
