//! What is written is read back: headers, LSAs and whole packets.
use vstd::prelude::*;

use crate::packet;
use crate::packet::dd;
use crate::packet::inet;
use crate::packet::lsa;
use crate::packet::lsa::{LsaHeader, LsaKey, LsaType, RouterLink, RouterLinkType};
use crate::packet::lsr;
use crate::packet::lsu;
use crate::packet::{OspfHeader, OspfPacketType, PacketError};
use crate::packet_v3;
use crate::wire;

verus! {

/// A header is read back wherever its octets stand.
pub proof fn lemma_header_roundtrip(h: LsaHeader, s: Seq<u8>, off: int)
    requires
        0 <= off,
        off + 20 <= s.len(),
        s.subrange(off, off + 20) == h.bytes(),
    ensures
        LsaHeader::spec_at(s, off) == Ok::<LsaHeader, PacketError>(h),
{
    let b = h.bytes();
    let t = s.subrange(off, off + 20);
    assert(b.subrange(0, 2) =~= wire::be16(h.ls_age));
    assert(b[2] == h.options && b[3] == h.ls_type.spec_code());
    assert(b.subrange(4, 8) =~= wire::be32(h.link_state_id));
    assert(b.subrange(8, 12) =~= wire::be32(h.advertising_router));
    assert(b.subrange(12, 16) =~= wire::be32(wire::i32_bits(h.ls_sequence_number)));
    assert(b.subrange(16, 18) =~= wire::be16(h.ls_checksum));
    assert(b.subrange(18, 20) =~= wire::be16(h.length));
    assert(s[off + 2] == t[2] && s[off + 3] == t[3]);
    assert(s.subrange(off, off + 2) =~= t.subrange(0, 2));
    assert(s.subrange(off + 4, off + 8) =~= t.subrange(4, 8));
    assert(s.subrange(off + 8, off + 12) =~= t.subrange(8, 12));
    assert(s.subrange(off + 12, off + 16) =~= t.subrange(12, 16));
    assert(s.subrange(off + 16, off + 18) =~= t.subrange(16, 18));
    assert(s.subrange(off + 18, off + 20) =~= t.subrange(18, 20));
    wire::lemma_be16_inside(s, off, h.ls_age);
    wire::lemma_be32_inside(s, off + 4, h.link_state_id);
    wire::lemma_be32_inside(s, off + 8, h.advertising_router);
    wire::lemma_be32_inside(s, off + 12, wire::i32_bits(h.ls_sequence_number));
    wire::lemma_be16_inside(s, off + 16, h.ls_checksum);
    wire::lemma_be16_inside(s, off + 18, h.length);
    wire::lemma_i32_bits_roundtrip(h.ls_sequence_number);
}

proof fn lemma_headers_front(hs: Seq<LsaHeader>)
    requires
        hs.len() > 0,
    ensures
        lsa::headers_bytes(hs) == hs[0].bytes() + lsa::headers_bytes(hs.skip(1)),
    decreases hs.len(),
{
    let front = hs.drop_last();
    if front.len() == 0 {
        assert(hs.skip(1) =~= Seq::empty());
        assert(front =~= Seq::empty());
        assert(lsa::headers_bytes(hs) =~= hs[0].bytes() + lsa::headers_bytes(hs.skip(1)));
    } else {
        lemma_headers_front(front);
        assert(front.skip(1) =~= hs.skip(1).drop_last());
        assert(hs.skip(1).last() == hs.last());
        assert((hs[0].bytes() + lsa::headers_bytes(front.skip(1))) + hs.last().bytes()
            =~= hs[0].bytes() + (lsa::headers_bytes(front.skip(1)) + hs.last().bytes()));
    }
}

/// A run of headers that ends the octets is read back whole.
pub proof fn lemma_headers_roundtrip(hs: Seq<LsaHeader>, s: Seq<u8>, off: int)
    requires
        0 <= off <= s.len(),
        s.skip(off) == lsa::headers_bytes(hs),
    ensures
        lsa::headers_from(s, off) == Ok::<Seq<LsaHeader>, PacketError>(hs),
    decreases hs.len(),
{
    let b = lsa::headers_bytes(hs);
    if hs.len() == 0 {
        assert(s.skip(off).len() == 0);
        assert(hs =~= Seq::empty());
    } else {
        lemma_headers_front(hs);
        let h = hs[0];
        let rest = hs.skip(1);
        lsa::lemma_header_len(h);
        assert(s.skip(off).len() == s.len() - off);
        assert(b.subrange(0, 20) =~= h.bytes());
        assert(b.skip(20) =~= lsa::headers_bytes(rest));
        assert(s.subrange(off, off + 20) =~= s.skip(off).subrange(0, 20));
        assert(s.skip(off + 20) =~= s.skip(off).skip(20));
        lemma_header_roundtrip(h, s, off);
        lemma_headers_roundtrip(rest, s, off + 20);
        assert(seq![h] + rest =~= hs);
    }
}

/// A link as its octets are read back.
pub open spec fn carried_link(l: RouterLink) -> RouterLink {
    RouterLink { num_tos: 0, ..l }
}

/// Links as their octets are read back.
pub open spec fn carried_links(ls: Seq<RouterLink>) -> Seq<RouterLink> {
    Seq::new(ls.len(), |i: int| carried_link(ls[i]))
}

proof fn lemma_links_front(ls: Seq<RouterLink>)
    requires
        ls.len() > 0,
    ensures
        lsa::links_bytes(ls) == ls[0].bytes() + lsa::links_bytes(ls.skip(1)),
    decreases ls.len(),
{
    let front = ls.drop_last();
    if front.len() == 0 {
        assert(ls.skip(1) =~= Seq::empty());
        assert(front =~= Seq::empty());
        assert(lsa::links_bytes(ls) =~= ls[0].bytes() + lsa::links_bytes(ls.skip(1)));
    } else {
        lemma_links_front(front);
        assert(front.skip(1) =~= ls.skip(1).drop_last());
        assert(ls.skip(1).last() == ls.last());
        assert((ls[0].bytes() + lsa::links_bytes(front.skip(1))) + ls.last().bytes()
            =~= ls[0].bytes() + (lsa::links_bytes(front.skip(1)) + ls.last().bytes()));
    }
}

proof fn lemma_link_fields(l: RouterLink, s: Seq<u8>, off: int)
    requires
        0 <= off,
        off + 12 <= s.len(),
        s.subrange(off, off + 12) == l.bytes(),
    ensures
        wire::u32_at(s, off) == l.link_id,
        wire::u32_at(s, off + 4) == l.link_data,
        RouterLinkType::spec_from_code(s[off + 8]) == Some(l.link_type),
        s[off + 9] == 0,
        wire::u16_at(s, off + 10) == l.metric,
{
    let b = l.bytes();
    let t = s.subrange(off, off + 12);
    assert(b.subrange(0, 4) =~= wire::be32(l.link_id));
    assert(b.subrange(4, 8) =~= wire::be32(l.link_data));
    assert(b[8] == l.link_type.spec_code() && b[9] == 0);
    assert(b.subrange(10, 12) =~= wire::be16(l.metric));
    assert(s[off + 8] == t[8] && s[off + 9] == t[9]);
    assert(s.subrange(off, off + 4) =~= t.subrange(0, 4));
    assert(s.subrange(off + 4, off + 8) =~= t.subrange(4, 8));
    assert(s.subrange(off + 10, off + 12) =~= t.subrange(10, 12));
    wire::lemma_be32_inside(s, off, l.link_id);
    wire::lemma_be32_inside(s, off + 4, l.link_data);
    wire::lemma_be16_inside(s, off + 10, l.metric);
}

/// A run of links is read back, without metrics per type of service.
pub proof fn lemma_links_roundtrip(ls: Seq<RouterLink>, s: Seq<u8>, off: int)
    requires
        0 <= off <= s.len(),
        s.skip(off) == lsa::links_bytes(ls),
    ensures
        lsa::links_from(s, off, ls.len()) == Ok::<Seq<RouterLink>, PacketError>(carried_links(ls)),
    decreases ls.len(),
{
    if ls.len() == 0 {
        assert(carried_links(ls) =~= Seq::empty());
    } else {
        lemma_links_front(ls);
        let l = ls[0];
        let rest = ls.skip(1);
        let b = lsa::links_bytes(ls);
        assert(l.bytes().len() == 12);
        assert(s.skip(off).len() == s.len() - off);
        assert(b.subrange(0, 12) =~= l.bytes());
        assert(b.skip(12) =~= lsa::links_bytes(rest));
        assert(s.subrange(off, off + 12) =~= s.skip(off).subrange(0, 12));
        assert(s.skip(off + 12) =~= s.skip(off).skip(12));
        lemma_link_fields(l, s, off);
        lemma_links_roundtrip(rest, s, off + 12);
        assert(seq![carried_link(l)] + carried_links(rest) =~= carried_links(ls));
    }
}

/// Whether an LSA of the type has such a body, of a length that its fields can say.
pub open spec fn fits(t: LsaType, b: lsa::LsaBodyView) -> bool {
    match b {
        lsa::LsaBodyView::Router { flags, links } => t == LsaType::Router && links.len() < 65536,
        lsa::LsaBodyView::Network { network_mask, attached_routers } => t == LsaType::Network,
        lsa::LsaBodyView::Summary(_) => t == LsaType::SummaryNetwork || t == LsaType::SummaryAsbr,
        lsa::LsaBodyView::AsExternal(_) => t == LsaType::AsExternal,
    }
}

proof fn lemma_be24_part(s: Seq<u8>, i: int, x: u32)
    requires
        0 <= i,
        i + 3 <= s.len(),
        s.subrange(i, i + 3) == wire::be24(x),
    ensures
        wire::u24_at(s, i) == x % 0x1000000,
{
    assert(s[i] == s.subrange(i, i + 3)[0]);
    assert(s[i + 1] == s.subrange(i, i + 3)[1]);
    assert(s[i + 2] == s.subrange(i, i + 3)[2]);
}

/// A body is read back with the values that its fields carry.
pub proof fn lemma_body_roundtrip(t: LsaType, b: lsa::LsaBodyView)
    requires
        fits(t, b),
    ensures
        lsa::LsaBodyView::spec_parse(t, b.bytes()) == Ok::<lsa::LsaBodyView, PacketError>(
            b.carried(),
        ),
{
    let s = b.bytes();
    match b {
        lsa::LsaBodyView::Router { flags, links } => {
            assert(s.subrange(2, 4) =~= wire::be16(links.len() as u16));
            wire::lemma_be16_inside(s, 2, links.len() as u16);
            assert(s.skip(4) =~= lsa::links_bytes(links));
            lemma_links_roundtrip(links, s, 4);
            assert(carried_links(links) =~= Seq::new(
                links.len(),
                |i: int| RouterLink { num_tos: 0, ..links[i] },
            ));
        },
        lsa::LsaBodyView::Network { network_mask, attached_routers } => {
            let n = packet_v3::be32s(attached_routers);
            packet_v3::lemma_be32s(attached_routers);
            assert(s.subrange(0, 4) =~= wire::be32(network_mask));
            wire::lemma_be32_inside(s, 0, network_mask);
            assert(packet_v3::u32s_from(s, 4) =~= attached_routers) by {
                assert forall|k: int| 0 <= k < attached_routers.len() implies wire::u32_at(
                    s,
                    4 + 4 * k,
                ) == attached_routers[k] by {
                    assert(s.subrange(4 + 4 * k, 4 + 4 * k + 4) =~= n.subrange(4 * k, 4 * k + 4));
                    wire::lemma_be32_inside(s, 4 + 4 * k, attached_routers[k]);
                }
            }
        },
        lsa::LsaBodyView::Summary(x) => {
            assert(s.subrange(0, 4) =~= wire::be32(x.network_mask));
            assert(s.subrange(5, 8) =~= wire::be24(x.metric));
            wire::lemma_be32_inside(s, 0, x.network_mask);
            lemma_be24_part(s, 5, x.metric);
        },
        lsa::LsaBodyView::AsExternal(x) => {
            assert(s.subrange(0, 4) =~= wire::be32(x.network_mask));
            assert(s.subrange(5, 8) =~= wire::be24(x.metric));
            assert(s.subrange(8, 12) =~= wire::be32(x.forwarding_address));
            assert(s.subrange(12, 16) =~= wire::be32(x.external_route_tag));
            wire::lemma_be32_inside(s, 0, x.network_mask);
            lemma_be24_part(s, 5, x.metric);
            wire::lemma_be32_inside(s, 8, x.forwarding_address);
            wire::lemma_be32_inside(s, 12, x.external_route_tag);
        },
    }
}

/// An LSA starts with its header, checksum filled in.
proof fn lemma_lsa_starts(l: lsa::LsaView)
    ensures
        l.bytes().len() == 20 + l.body.bytes().len(),
        l.bytes().subrange(0, 20) == l.sealed().header.bytes(),
        l.bytes().skip(20) == l.body.bytes(),
{
    let blank = LsaHeader { ls_checksum: 0, ..l.header };
    lsa::lemma_header_len(blank);
    lsa::lemma_header_len(l.sealed().header);
    let c = l.checksum();
    let full = l.sealed().header;
    assert(full.ls_checksum == c.0 * 256 + c.1);
    assert(wire::be16(full.ls_checksum) =~= seq![c.0, c.1]);
    assert(l.bytes().subrange(0, 20) =~= full.bytes());
    assert(l.bytes().skip(20) =~= l.body.bytes());
}

/// An LSA is read back as it was sealed.
pub proof fn lemma_lsa_roundtrip(l: lsa::LsaView)
    requires
        fits(l.header.ls_type, l.body),
    ensures
        lsa::LsaView::spec_parse(l.bytes()) == Ok::<lsa::LsaView, PacketError>(l.sealed()),
{
    lemma_lsa_starts(l);
    lemma_header_roundtrip(l.sealed().header, l.bytes(), 0);
    lemma_body_roundtrip(l.header.ls_type, l.body);
}

/// Sealing once more changes nothing.
pub proof fn lemma_seal_twice(l: lsa::LsaView)
    ensures
        l.sealed().sealed() == l.sealed(),
        l.sealed().bytes() == l.bytes(),
{
    let s = l.sealed();
    assert(s.body.bytes() == l.body.bytes()) by {
        match l.body {
            lsa::LsaBodyView::Router { flags, links } => {
                lemma_links_bytes_carried(links);
                assert(carried_links(links) =~= Seq::new(
                    links.len(),
                    |i: int| RouterLink { num_tos: 0, ..links[i] },
                ));
            },
            lsa::LsaBodyView::Network { network_mask, attached_routers } => {},
            lsa::LsaBodyView::Summary(x) => {
                lemma_be24_carried(x.metric);
            },
            lsa::LsaBodyView::AsExternal(x) => {
                lemma_be24_carried(x.metric);
            },
        }
    }
    assert(s.blank() == l.blank());
    assert(s.body.carried() == s.body) by {
        match l.body {
            lsa::LsaBodyView::Router { flags, links } => {
                let once = Seq::new(
                    links.len(),
                    |i: int| RouterLink { num_tos: 0, ..links[i] },
                );
                assert(once =~= Seq::new(
                    once.len(),
                    |i: int| RouterLink { num_tos: 0, ..once[i] },
                ));
            },
            _ => {},
        }
    }
}

proof fn lemma_links_bytes_carried(ls: Seq<RouterLink>)
    ensures
        lsa::links_bytes(carried_links(ls)) == lsa::links_bytes(ls),
    decreases ls.len(),
{
    if ls.len() > 0 {
        lemma_links_bytes_carried(ls.drop_last());
        assert(carried_links(ls).drop_last() =~= carried_links(ls.drop_last()));
    }
}

proof fn lemma_be24_carried(x: u32)
    ensures
        wire::be24(x % 0x1000000) == wire::be24(x),
{
    let y = (x % 0x1000000) as u32;
    let q = x / 0x1000000;
    assert(x == q * 0x1000000 + y);
    assert(x / 0x10000 == q * 0x100 + y / 0x10000);
    assert(x / 0x100 == q * 0x10000 + y / 0x100);
    assert(wire::be24(y) =~= wire::be24(x));
}

/// Whether the LSA's header says its type and its length.
pub open spec fn framed(l: lsa::LsaView) -> bool {
    fits(l.header.ls_type, l.body) && l.header.length == 20 + l.body.bytes().len()
}

/// The LSAs as their octets are read back.
pub open spec fn sealed_all(ls: Seq<lsa::LsaView>) -> Seq<lsa::LsaView> {
    Seq::new(ls.len(), |i: int| ls[i].sealed())
}

proof fn lemma_lsas_front(ls: Seq<lsa::LsaView>)
    requires
        ls.len() > 0,
    ensures
        lsu::lsas_bytes(ls) == ls[0].bytes() + lsu::lsas_bytes(ls.skip(1)),
    decreases ls.len(),
{
    let front = ls.drop_last();
    if front.len() == 0 {
        assert(ls.skip(1) =~= Seq::empty());
        assert(front =~= Seq::empty());
        assert(lsu::lsas_bytes(ls) =~= ls[0].bytes() + lsu::lsas_bytes(ls.skip(1)));
    } else {
        lemma_lsas_front(front);
        assert(front.skip(1) =~= ls.skip(1).drop_last());
        assert(ls.skip(1).last() == ls.last());
        assert((ls[0].bytes() + lsu::lsas_bytes(front.skip(1))) + ls.last().bytes()
            =~= ls[0].bytes() + (lsu::lsas_bytes(front.skip(1)) + ls.last().bytes()));
    }
}

proof fn lemma_lsa_in_front(
    s: Seq<u8>,
    off: int,
    h: LsaHeader,
    l: lsa::LsaView,
    rest: Seq<lsa::LsaView>,
    n: nat,
)
    requires
        0 <= off,
        off + 20 <= s.len(),
        20 <= h.length,
        off + h.length <= s.len(),
        LsaHeader::spec_at(s, off) == Ok::<LsaHeader, PacketError>(h),
        lsa::LsaView::spec_parse(s.subrange(off, off + h.length)) == Ok::<lsa::LsaView, PacketError>(
            l,
        ),
        lsu::lsas_from(s, off + h.length, n) == Ok::<Seq<lsa::LsaView>, PacketError>(rest),
    ensures
        lsu::lsas_from(s, off, n + 1) == Ok::<Seq<lsa::LsaView>, PacketError>(seq![l] + rest),
{
}

/// Where two runs of octets stand that follow each other.
proof fn lemma_parts(s: Seq<u8>, off: int, a: Seq<u8>, b: Seq<u8>)
    requires
        0 <= off <= s.len(),
        s.skip(off) == a + b,
        a.len() >= 20,
    ensures
        off + a.len() <= s.len(),
        s.subrange(off, off + a.len()) == a,
        s.subrange(off, off + 20) == a.subrange(0, 20),
        s.skip(off + a.len()) == b,
{
    let t = s.skip(off);
    assert(t.len() == s.len() - off);
    assert(t.subrange(0, a.len() as int) =~= a);
    assert(t.skip(a.len() as int) =~= b);
    assert(s.subrange(off, off + a.len()) =~= t.subrange(0, a.len() as int));
    assert(s.subrange(off, off + 20) =~= t.subrange(0, 20));
    assert(t.subrange(0, 20) =~= a.subrange(0, 20));
    assert(s.skip(off + a.len()) =~= t.skip(a.len() as int));
}

/// An LSA in front of others is read first.
#[verifier::spinoff_prover]
proof fn lemma_lsa_read(s: Seq<u8>, off: int, l: lsa::LsaView, rest: Seq<lsa::LsaView>, n: nat)
    requires
        0 <= off,
        framed(l),
        off + l.bytes().len() <= s.len(),
        s.subrange(off, off + l.bytes().len()) == l.bytes(),
        s.subrange(off, off + 20) == l.bytes().subrange(0, 20),
        lsu::lsas_from(s, off + l.bytes().len(), n) == Ok::<Seq<lsa::LsaView>, PacketError>(rest),
    ensures
        lsu::lsas_from(s, off, n + 1) == Ok::<Seq<lsa::LsaView>, PacketError>(
            seq![l.sealed()] + rest,
        ),
{
    let h = l.sealed().header;
    lemma_lsa_starts(l);
    lemma_header_roundtrip(h, s, off);
    lemma_lsa_roundtrip(l);
    lemma_lsa_in_front(s, off, h, l.sealed(), rest, n);
}

#[verifier::spinoff_prover]
proof fn lemma_lsas_roundtrip(ls: Seq<lsa::LsaView>, s: Seq<u8>, off: int)
    requires
        0 <= off <= s.len(),
        s.skip(off) == lsu::lsas_bytes(ls),
        forall|k: int| 0 <= k < ls.len() ==> framed(#[trigger] ls[k]),
    ensures
        lsu::lsas_from(s, off, ls.len()) == Ok::<Seq<lsa::LsaView>, PacketError>(sealed_all(ls)),
    decreases ls.len(),
{
    if ls.len() == 0 {
        assert(sealed_all(ls) =~= Seq::empty());
    } else {
        let l = ls[0];
        let rest = ls.skip(1);
        let a = l.bytes();
        lemma_lsas_front(ls);
        lemma_lsa_starts(l);
        lemma_parts(s, off, a, lsu::lsas_bytes(rest));
        assert(framed(l));
        assert forall|k: int| 0 <= k < rest.len() implies framed(#[trigger] rest[k]) by {
            assert(rest[k] == ls[k + 1]);
        }
        lemma_lsas_roundtrip(rest, s, off + a.len());
        lemma_lsa_read(s, off, l, sealed_all(rest), rest.len());
        assert(seq![l.sealed()] + sealed_all(rest) =~= sealed_all(ls));
    }
}

proof fn lemma_update_parts(ls: Seq<lsa::LsaView>)
    requires
        ls.len() < 0x100000000,
    ensures
        lsu::update_bytes(ls).len() >= 4,
        wire::u32_at(lsu::update_bytes(ls), 0) == ls.len(),
        lsu::update_bytes(ls).skip(4) == lsu::lsas_bytes(ls),
{
    let s = lsu::update_bytes(ls);
    let n = (ls.len() % 0x100000000) as u32;
    assert(n == ls.len());
    assert(s.subrange(0, 4) =~= wire::be32(n));
    wire::lemma_be32_inside(s, 0, n);
    assert(s.skip(4) =~= lsu::lsas_bytes(ls));
}

/// An update is read back LSA by LSA.
pub proof fn lemma_update_roundtrip(ls: Seq<lsa::LsaView>)
    requires
        ls.len() < 0x100000000,
        forall|k: int| 0 <= k < ls.len() ==> framed(#[trigger] ls[k]),
    ensures
        lsu::update_parse(lsu::update_bytes(ls)) == Ok::<Seq<lsa::LsaView>, PacketError>(
            sealed_all(ls),
        ),
{
    let s = lsu::update_bytes(ls);
    lemma_update_parts(ls);
    lemma_lsas_roundtrip(ls, s, 4);
}

proof fn lemma_requests_front(rs: Seq<LsaKey>)
    requires
        rs.len() > 0,
    ensures
        lsr::requests_bytes(rs) == lsr::request_bytes(rs[0]) + lsr::requests_bytes(rs.skip(1)),
    decreases rs.len(),
{
    let front = rs.drop_last();
    if front.len() == 0 {
        assert(rs.skip(1) =~= Seq::empty());
        assert(front =~= Seq::empty());
        assert(lsr::requests_bytes(rs) =~= lsr::request_bytes(rs[0]) + lsr::requests_bytes(
            rs.skip(1),
        ));
    } else {
        lemma_requests_front(front);
        assert(front.skip(1) =~= rs.skip(1).drop_last());
        assert(rs.skip(1).last() == rs.last());
        assert((lsr::request_bytes(rs[0]) + lsr::requests_bytes(front.skip(1)))
            + lsr::request_bytes(rs.last()) =~= lsr::request_bytes(rs[0]) + (lsr::requests_bytes(
            front.skip(1),
        ) + lsr::request_bytes(rs.last())));
    }
}

proof fn lemma_requests_tail(rs: Seq<LsaKey>, s: Seq<u8>, off: int)
    requires
        0 <= off <= s.len(),
        s.skip(off) == lsr::requests_bytes(rs),
    ensures
        lsr::requests_from(s, off) == Ok::<Seq<LsaKey>, PacketError>(rs),
    decreases rs.len(),
{
    if rs.len() == 0 {
        assert(s.skip(off).len() == 0);
        assert(rs =~= Seq::empty());
    } else {
        lemma_requests_front(rs);
        let k = rs[0];
        let rest = rs.skip(1);
        let b = lsr::requests_bytes(rs);
        let one = lsr::request_bytes(k);
        let t = k.ls_type.spec_code() as u32;
        assert(one.len() == 12);
        assert(s.skip(off).len() == s.len() - off);
        assert(b.subrange(0, 12) =~= one);
        assert(b.skip(12) =~= lsr::requests_bytes(rest));
        assert(s.subrange(off, off + 12) =~= s.skip(off).subrange(0, 12));
        assert(s.skip(off + 12) =~= s.skip(off).skip(12));
        assert(one.subrange(0, 4) =~= wire::be32(t));
        assert(one.subrange(4, 8) =~= wire::be32(k.link_state_id));
        assert(one.subrange(8, 12) =~= wire::be32(k.advertising_router));
        assert(s.subrange(off, off + 4) =~= s.subrange(off, off + 12).subrange(0, 4));
        assert(s.subrange(off + 4, off + 8) =~= s.subrange(off, off + 12).subrange(4, 8));
        assert(s.subrange(off + 8, off + 12) =~= s.subrange(off, off + 12).subrange(8, 12));
        wire::lemma_be32_inside(s, off, t);
        wire::lemma_be32_inside(s, off + 4, k.link_state_id);
        wire::lemma_be32_inside(s, off + 8, k.advertising_router);
        lemma_requests_tail(rest, s, off + 12);
        assert(seq![k] + rest =~= rs);
    }
}

/// Requests are read back.
pub proof fn lemma_requests_roundtrip(rs: Seq<LsaKey>)
    ensures
        lsr::requests_from(lsr::requests_bytes(rs), 0) == Ok::<Seq<LsaKey>, PacketError>(rs),
{
    let s = lsr::requests_bytes(rs);
    assert(s.skip(0) =~= s);
    lemma_requests_tail(rs, s, 0);
}

/// A Database Description is read back.
pub proof fn lemma_dd_roundtrip(d: dd::DbDescView)
    ensures
        dd::DbDescView::spec_parse(d.bytes()) == Ok::<dd::DbDescView, PacketError>(d),
{
    let s = d.bytes();
    assert(s.subrange(0, 2) =~= wire::be16(d.interface_mtu));
    assert(s.subrange(4, 8) =~= wire::be32(d.dd_sequence_number));
    assert(s.skip(8) =~= lsa::headers_bytes(d.lsa_headers));
    wire::lemma_be16_inside(s, 0, d.interface_mtu);
    wire::lemma_be32_inside(s, 4, d.dd_sequence_number);
    lemma_headers_roundtrip(d.lsa_headers, s, 8);
}

/// Whether the packet can be written: its header says its kind, its length fits the field for it,
/// and LSAs are whole.
pub open spec fn writable(p: packet::OspfPacketView) -> bool {
    &&& 24 + p.body_bytes().len() < 65536
    &&& match p {
        packet::OspfPacketView::Hello(h, _) => h.packet_type == OspfPacketType::Hello,
        packet::OspfPacketView::DatabaseDescription(h, _) => h.packet_type
            == OspfPacketType::DatabaseDescription,
        packet::OspfPacketView::LinkStateRequest(h, _) => h.packet_type
            == OspfPacketType::LinkStateRequest,
        packet::OspfPacketView::LinkStateUpdate(h, ls) => h.packet_type
            == OspfPacketType::LinkStateUpdate && forall|k: int|
            0 <= k < ls.len() ==> framed(#[trigger] ls[k]),
        packet::OspfPacketView::LinkStateAck(h, _) => h.packet_type == OspfPacketType::LinkStateAck,
    }
}

/// The packet as its receiver reads it: length and checksum are filled in, LSAs are sealed.
pub open spec fn received(p: packet::OspfPacketView) -> packet::OspfPacketView {
    let h = OspfHeader {
        packet_length: (24 + p.body_bytes().len()) as u16,
        checksum: inet::inet_checksum(packet::summed_bytes(p.header(), p.body_bytes())),
        au_type: 0,
        ..p.header()
    };
    match p {
        packet::OspfPacketView::Hello(_, b) => packet::OspfPacketView::Hello(h, b),
        packet::OspfPacketView::DatabaseDescription(_, b) => {
            packet::OspfPacketView::DatabaseDescription(h, b)
        },
        packet::OspfPacketView::LinkStateRequest(_, b) => {
            packet::OspfPacketView::LinkStateRequest(h, b)
        },
        packet::OspfPacketView::LinkStateUpdate(_, b) => packet::OspfPacketView::LinkStateUpdate(
            h,
            sealed_all(b),
        ),
        packet::OspfPacketView::LinkStateAck(_, b) => packet::OspfPacketView::LinkStateAck(h, b),
    }
}

proof fn lemma_packet_header(h: OspfHeader, body: Seq<u8>)
    requires
        24 + body.len() < 65536,
    ensures
        OspfHeader::spec_parse(packet::packet_bytes(h, body)) == Ok::<OspfHeader, PacketError>(
            OspfHeader {
                packet_length: (24 + body.len()) as u16,
                checksum: inet::inet_checksum(packet::summed_bytes(h, body)),
                au_type: 0,
                ..h
            },
        ),
        packet::packet_bytes(h, body).subrange(24, 24 + body.len() as int) == body,
{
    let s = packet::packet_bytes(h, body);
    let n = (24 + body.len()) as u16;
    let c = inet::inet_checksum(packet::summed_bytes(h, body));
    assert(s.len() == 24 + body.len());
    assert(s[0] == packet::OSPF_VERSION && s[1] == h.packet_type.spec_code());
    assert(s.subrange(2, 4) =~= wire::be16(n));
    assert(s.subrange(4, 8) =~= wire::be32(h.router_id));
    assert(s.subrange(8, 12) =~= wire::be32(h.area_id));
    assert(s.subrange(12, 14) =~= wire::be16(c));
    assert(s.subrange(14, 16) =~= wire::be16(0));
    assert(s.subrange(24, 24 + body.len() as int) =~= body);
    wire::lemma_be16_inside(s, 2, n);
    wire::lemma_be32_inside(s, 4, h.router_id);
    wire::lemma_be32_inside(s, 8, h.area_id);
    wire::lemma_be16_inside(s, 12, c);
    wire::lemma_be16_inside(s, 14, 0);
}

/// A packet is read back as it was written.
pub proof fn lemma_packet_roundtrip(p: packet::OspfPacketView)
    requires
        writable(p),
    ensures
        packet::OspfPacketView::spec_parse(p.bytes()) == Ok::<packet::OspfPacketView, PacketError>(
            received(p),
        ),
{
    lemma_packet_header(p.header(), p.body_bytes());
    match p {
        packet::OspfPacketView::Hello(_, b) => {
            b.lemma_roundtrip();
        },
        packet::OspfPacketView::DatabaseDescription(_, b) => {
            lemma_dd_roundtrip(b);
        },
        packet::OspfPacketView::LinkStateRequest(_, b) => {
            lemma_requests_roundtrip(b);
        },
        packet::OspfPacketView::LinkStateUpdate(_, b) => {
            lemma_update_len(b);
            lemma_update_roundtrip(b);
        },
        packet::OspfPacketView::LinkStateAck(_, b) => {
            let s = lsa::headers_bytes(b);
            assert(s.skip(0) =~= s);
            lemma_headers_roundtrip(b, s, 0);
        },
    }
}

proof fn lemma_update_len(ls: Seq<lsa::LsaView>)
    ensures
        lsu::lsas_bytes(ls).len() >= ls.len(),
    decreases ls.len(),
{
    if ls.len() > 0 {
        lemma_update_len(ls.drop_last());
        lemma_lsa_starts(ls.last());
    }
}

} // verus!
