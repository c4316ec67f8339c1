//! What is written is read back: requests, updates, acknowledgments and LSA bodies.
use vstd::prelude::*;

use crate::packet_v3;
use crate::packet_v3::lsa;
use crate::packet_v3::lsa::{InterAreaPrefixLsaV3, RouterLinkV3};
use crate::packet_v3::lsr;
use crate::packet_v3::lsr::LsRequestV3;
use crate::packet_v3::lsu;
use crate::packet_v3::prefix;
use crate::packet_v3::prefix::Ospfv3Prefix;
use crate::packet_v3::{LsaV3Header, PacketV3Error};
use crate::wire;

verus! {

proof fn lemma_requests_front(rs: Seq<LsRequestV3>)
    requires
        rs.len() > 0,
    ensures
        lsr::requests_bytes(rs) == rs[0].bytes() + lsr::requests_bytes(rs.skip(1)),
    decreases rs.len(),
{
    let front = rs.drop_last();
    if front.len() == 0 {
        assert(rs.skip(1) =~= Seq::empty());
        assert(front =~= Seq::empty());
        assert(lsr::requests_bytes(rs) =~= rs[0].bytes() + lsr::requests_bytes(rs.skip(1)));
    } else {
        lemma_requests_front(front);
        assert(front.skip(1) =~= rs.skip(1).drop_last());
        assert(rs.skip(1).last() == rs.last());
        assert((rs[0].bytes() + lsr::requests_bytes(front.skip(1))) + rs.last().bytes()
            =~= rs[0].bytes() + (lsr::requests_bytes(front.skip(1)) + rs.last().bytes()));
    }
}

proof fn lemma_request_at(r: LsRequestV3, s: Seq<u8>, off: int)
    requires
        0 <= off,
        off + 12 <= s.len(),
        s.subrange(off, off + 12) == r.bytes(),
    ensures
        LsRequestV3::spec_at(s, off) == Ok::<LsRequestV3, PacketV3Error>(r),
{
    let b = r.bytes();
    let t = s.subrange(off, off + 12);
    assert(b.subrange(2, 4) =~= wire::be16(r.ls_type.spec_code()));
    assert(b.subrange(4, 8) =~= wire::be32(r.link_state_id));
    assert(b.subrange(8, 12) =~= wire::be32(r.advertising_router));
    assert(s.subrange(off + 2, off + 4) =~= t.subrange(2, 4));
    assert(s.subrange(off + 4, off + 8) =~= t.subrange(4, 8));
    assert(s.subrange(off + 8, off + 12) =~= t.subrange(8, 12));
    wire::lemma_be16_inside(s, off + 2, r.ls_type.spec_code());
    wire::lemma_be32_inside(s, off + 4, r.link_state_id);
    wire::lemma_be32_inside(s, off + 8, r.advertising_router);
}

proof fn lemma_requests_tail(rs: Seq<LsRequestV3>, s: Seq<u8>, off: int)
    requires
        0 <= off <= s.len(),
        s.skip(off) == lsr::requests_bytes(rs),
    ensures
        lsr::requests_from(s, off) == Ok::<Seq<LsRequestV3>, PacketV3Error>(rs),
    decreases rs.len(),
{
    if rs.len() == 0 {
        assert(s.skip(off).len() == 0);
        assert(rs =~= Seq::empty());
    } else {
        lemma_requests_front(rs);
        let b = lsr::requests_bytes(rs);
        let rest = rs.skip(1);
        assert(rs[0].bytes().len() == 12);
        assert(s.skip(off).len() == s.len() - off);
        assert(b.subrange(0, 12) =~= rs[0].bytes());
        assert(b.skip(12) =~= lsr::requests_bytes(rest));
        assert(s.subrange(off, off + 12) =~= s.skip(off).subrange(0, 12));
        assert(s.skip(off + 12) =~= s.skip(off).skip(12));
        lemma_request_at(rs[0], s, off);
        lemma_requests_tail(rest, s, off + 12);
        assert(seq![rs[0]] + rest =~= rs);
    }
}

/// Requests are read back.
pub proof fn lemma_requests_roundtrip(rs: Seq<LsRequestV3>)
    ensures
        lsr::requests_from(lsr::requests_bytes(rs), 0) == Ok::<Seq<LsRequestV3>, PacketV3Error>(rs),
{
    let s = lsr::requests_bytes(rs);
    assert(s.skip(0) =~= s);
    lemma_requests_tail(rs, s, 0);
}

/// Acknowledged headers are read back.
pub proof fn lemma_acks_roundtrip(hs: Seq<LsaV3Header>)
    ensures
        packet_v3::headers_from(packet_v3::headers_bytes(hs), 0) == Ok::<
            Seq<LsaV3Header>,
            PacketV3Error,
        >(hs),
{
    let s = packet_v3::headers_bytes(hs);
    assert(s.subrange(0, s.len() as int) =~= s);
    packet_v3::lemma_headers_roundtrip(hs, s, 0);
}

/// Whether the octets of an LSA start with its header, which says their number.
pub open spec fn whole(l: lsu::LsaV3RawView) -> bool {
    &&& l.header.length >= 20
    &&& l.raw.len() == l.header.length
    &&& l.raw.subrange(0, 20) == l.header.bytes()
}

proof fn lemma_lsas_front(ls: Seq<lsu::LsaV3RawView>)
    requires
        ls.len() > 0,
    ensures
        lsu::lsas_bytes(ls) == ls[0].raw + lsu::lsas_bytes(ls.skip(1)),
    decreases ls.len(),
{
    let front = ls.drop_last();
    if front.len() == 0 {
        assert(ls.skip(1) =~= Seq::empty());
        assert(front =~= Seq::empty());
        assert(lsu::lsas_bytes(ls) =~= ls[0].raw + lsu::lsas_bytes(ls.skip(1)));
    } else {
        lemma_lsas_front(front);
        assert(front.skip(1) =~= ls.skip(1).drop_last());
        assert(ls.skip(1).last() == ls.last());
        assert((ls[0].raw + lsu::lsas_bytes(front.skip(1))) + ls.last().raw =~= ls[0].raw + (
        lsu::lsas_bytes(front.skip(1)) + ls.last().raw));
    }
}

proof fn lemma_lsas_tail(ls: Seq<lsu::LsaV3RawView>, s: Seq<u8>, off: int)
    requires
        0 <= off <= s.len(),
        s.skip(off) == lsu::lsas_bytes(ls),
        forall|k: int| 0 <= k < ls.len() ==> whole(#[trigger] ls[k]),
    ensures
        lsu::lsas_from(s, off, ls.len()) == Ok::<Seq<lsu::LsaV3RawView>, PacketV3Error>(ls),
    decreases ls.len(),
{
    if ls.len() == 0 {
        assert(ls =~= Seq::empty());
    } else {
        lemma_lsas_front(ls);
        let l = ls[0];
        let rest = ls.skip(1);
        let b = lsu::lsas_bytes(ls);
        let n = l.header.length as int;
        assert(whole(l));
        assert(s.skip(off).len() == s.len() - off);
        assert(b.subrange(0, n) =~= l.raw);
        assert(b.skip(n) =~= lsu::lsas_bytes(rest));
        assert(s.subrange(off, off + n) =~= s.skip(off).subrange(0, n));
        assert(s.skip(off + n) =~= s.skip(off).skip(n));
        assert(s.subrange(off, off + 20) =~= l.raw.subrange(0, 20));
        l.header.lemma_roundtrip(s, off);
        assert forall|k: int| 0 <= k < rest.len() implies whole(#[trigger] rest[k]) by {
            assert(rest[k] == ls[k + 1]);
        }
        lemma_lsas_tail(rest, s, off + n);
        assert(seq![l] + rest =~= ls);
    }
}

/// An update is read back LSA by LSA.
pub proof fn lemma_update_roundtrip(ls: Seq<lsu::LsaV3RawView>)
    requires
        ls.len() < 0x100000000,
        forall|k: int| 0 <= k < ls.len() ==> whole(#[trigger] ls[k]),
    ensures
        lsu::update_parse(lsu::update_bytes(ls)) == Ok::<Seq<lsu::LsaV3RawView>, PacketV3Error>(ls),
{
    let s = lsu::update_bytes(ls);
    let n = (ls.len() % 0x100000000) as u32;
    assert(n == ls.len());
    assert(s.subrange(0, 4) =~= wire::be32(n));
    wire::lemma_be32_inside(s, 0, n);
    assert(s.skip(4) =~= lsu::lsas_bytes(ls));
    lemma_lsas_tail(ls, s, 4);
}

proof fn lemma_links_bytes(ls: Seq<RouterLinkV3>)
    ensures
        lsa::links_bytes(ls).len() == 16 * ls.len(),
        forall|k: int|
            0 <= k < ls.len() ==> #[trigger] lsa::links_bytes(ls).subrange(16 * k, 16 * k + 16)
                == ls[k].bytes(),
    decreases ls.len(),
{
    if ls.len() > 0 {
        lemma_links_bytes(ls.drop_last());
        let front = lsa::links_bytes(ls.drop_last());
        let all = lsa::links_bytes(ls);
        assert(ls.last().bytes().len() == 16);
        assert forall|k: int| 0 <= k < ls.len() implies #[trigger] all.subrange(16 * k, 16 * k + 16)
            == ls[k].bytes() by {
            if k < ls.len() - 1 {
                assert(all.subrange(16 * k, 16 * k + 16) =~= front.subrange(16 * k, 16 * k + 16));
                assert(ls.drop_last()[k] == ls[k]);
            } else {
                assert(all.subrange(16 * k, 16 * k + 16) =~= ls.last().bytes());
            }
        }
    }
}

proof fn lemma_link_at(l: RouterLinkV3, s: Seq<u8>, at: int)
    requires
        0 <= at,
        at + 16 <= s.len(),
        s.subrange(at, at + 16) == l.bytes(),
    ensures
        s[at] == l.link_type,
        wire::u16_at(s, at + 2) == l.metric,
        wire::u32_at(s, at + 4) == l.interface_id,
        wire::u32_at(s, at + 8) == l.neighbor_interface_id,
        wire::u32_at(s, at + 12) == l.neighbor_router_id,
{
    let b = l.bytes();
    let t = s.subrange(at, at + 16);
    assert(b[0] == l.link_type);
    assert(b.subrange(2, 4) =~= wire::be16(l.metric));
    assert(b.subrange(4, 8) =~= wire::be32(l.interface_id));
    assert(b.subrange(8, 12) =~= wire::be32(l.neighbor_interface_id));
    assert(b.subrange(12, 16) =~= wire::be32(l.neighbor_router_id));
    assert(s[at] == t[0]);
    assert(s.subrange(at + 2, at + 4) =~= t.subrange(2, 4));
    assert(s.subrange(at + 4, at + 8) =~= t.subrange(4, 8));
    assert(s.subrange(at + 8, at + 12) =~= t.subrange(8, 12));
    assert(s.subrange(at + 12, at + 16) =~= t.subrange(12, 16));
    wire::lemma_be16_inside(s, at + 2, l.metric);
    wire::lemma_be32_inside(s, at + 4, l.interface_id);
    wire::lemma_be32_inside(s, at + 8, l.neighbor_interface_id);
    wire::lemma_be32_inside(s, at + 12, l.neighbor_router_id);
}

/// The body of a Router-LSA is read back: flags, options and links.
pub proof fn lemma_router_roundtrip(flags: u8, options: u32, ls: Seq<RouterLinkV3>)
    requires
        options < 0x1000000,
    ensures
        lsa::router_lsa_bytes(flags, options, ls).len() >= 4,
        lsa::router_lsa_bytes(flags, options, ls)[0] == flags,
        wire::u24_at(lsa::router_lsa_bytes(flags, options, ls), 1) == options,
        lsa::links_from(lsa::router_lsa_bytes(flags, options, ls)) == ls,
{
    let s = lsa::router_lsa_bytes(flags, options, ls);
    let b = lsa::links_bytes(ls);
    lemma_links_bytes(ls);
    assert(s.subrange(1, 4) =~= wire::be24(options));
    wire::lemma_be24_inside(s, 1, options);
    assert forall|k: int| 0 <= k < ls.len() implies #[trigger] lsa::links_from(s)[k] == ls[k] by {
        assert(s.subrange(4 + 16 * k, 4 + 16 * k + 16) =~= b.subrange(16 * k, 16 * k + 16));
        lemma_link_at(ls[k], s, 4 + 16 * k);
    }
    assert(lsa::links_from(s) =~= ls);
}

/// The body of a Network-LSA is read back.
pub proof fn lemma_network_roundtrip(options: u32, attached: Seq<u32>)
    requires
        options < 0x1000000,
    ensures
        lsa::network_lsa_bytes(options, attached).len() >= 4,
        wire::u24_at(lsa::network_lsa_bytes(options, attached), 1) == options,
        packet_v3::u32s_from(lsa::network_lsa_bytes(options, attached), 4) == attached,
{
    let s = lsa::network_lsa_bytes(options, attached);
    let n = packet_v3::be32s(attached);
    packet_v3::lemma_be32s(attached);
    assert(s.subrange(1, 4) =~= wire::be24(options));
    wire::lemma_be24_inside(s, 1, options);
    assert forall|k: int| 0 <= k < attached.len() implies #[trigger] packet_v3::u32s_from(s, 4)[k]
        == attached[k] by {
        assert(s.subrange(4 + 4 * k, 4 + 4 * k + 4) =~= n.subrange(4 * k, 4 * k + 4));
        wire::lemma_be32_inside(s, 4 + 4 * k, attached[k]);
    }
    assert(packet_v3::u32s_from(s, 4) =~= attached);
}

/// Whether the octets that the prefix leaves out of its address are zero.
pub open spec fn trimmed(p: Ospfv3Prefix) -> bool {
    &&& p.prefix_length <= 128
    &&& forall|i: int|
        prefix::address_octets(p.prefix_length) <= i < 16 ==> #[trigger] wire::be128(p.address)[i]
            == 0
}

/// A prefix is read back wherever its octets stand.
pub proof fn lemma_prefix_roundtrip(p: Ospfv3Prefix, s: Seq<u8>, off: int)
    requires
        trimmed(p),
        0 <= off,
        off + p.bytes().len() <= s.len(),
        s.subrange(off, off + p.bytes().len() as int) == p.bytes(),
    ensures
        Ospfv3Prefix::spec_at(s, off) == Ok::<(Ospfv3Prefix, int), PacketV3Error>(
            (p, off + p.bytes().len() as int),
        ),
{
    let b = p.bytes();
    let n = prefix::address_octets(p.prefix_length);
    let full = wire::be128(p.address);
    let t = s.subrange(off, off + b.len() as int);
    assert(full.len() == 16);
    assert(b.len() == 4 + n);
    assert(b[0] == p.prefix_length && b[1] == p.prefix_options);
    assert(b.subrange(2, 4) =~= wire::be16(p.prefix_or_metric));
    assert(b.subrange(4, 4 + n) =~= full.take(n));
    assert(s[off] == t[0] && s[off + 1] == t[1]);
    assert(s.subrange(off + 2, off + 4) =~= t.subrange(2, 4));
    assert(s.subrange(off + 4, off + 4 + n) =~= t.subrange(4, 4 + n));
    wire::lemma_be16_inside(s, off + 2, p.prefix_or_metric);
    let padded = s.subrange(off + 4, off + 4 + n) + Seq::new((16 - n) as nat, |i: int| 0u8);
    assert(padded =~= full);
    wire::lemma_be128_roundtrip(p.address);
}

proof fn lemma_prefixes_front(ps: Seq<Ospfv3Prefix>)
    requires
        ps.len() > 0,
    ensures
        prefix::prefixes_bytes(ps) == ps[0].bytes() + prefix::prefixes_bytes(ps.skip(1)),
    decreases ps.len(),
{
    let front = ps.drop_last();
    if front.len() == 0 {
        assert(ps.skip(1) =~= Seq::empty());
        assert(front =~= Seq::empty());
        assert(prefix::prefixes_bytes(ps) =~= ps[0].bytes() + prefix::prefixes_bytes(ps.skip(1)));
    } else {
        lemma_prefixes_front(front);
        assert(front.skip(1) =~= ps.skip(1).drop_last());
        assert(ps.skip(1).last() == ps.last());
        assert((ps[0].bytes() + prefix::prefixes_bytes(front.skip(1))) + ps.last().bytes()
            =~= ps[0].bytes() + (prefix::prefixes_bytes(front.skip(1)) + ps.last().bytes()));
    }
}

/// A run of prefixes is read back.
pub proof fn lemma_prefixes_roundtrip(ps: Seq<Ospfv3Prefix>, s: Seq<u8>, off: int)
    requires
        0 <= off <= s.len(),
        s.skip(off) == prefix::prefixes_bytes(ps),
        forall|k: int| 0 <= k < ps.len() ==> trimmed(#[trigger] ps[k]),
    ensures
        prefix::prefixes_from(s, off, ps.len()) == Ok::<Seq<Ospfv3Prefix>, PacketV3Error>(ps),
    decreases ps.len(),
{
    if ps.len() == 0 {
        assert(ps =~= Seq::empty());
    } else {
        lemma_prefixes_front(ps);
        let p = ps[0];
        let rest = ps.skip(1);
        let b = prefix::prefixes_bytes(ps);
        let n = p.bytes().len() as int;
        assert(trimmed(p));
        assert(s.skip(off).len() == s.len() - off);
        assert(b.subrange(0, n) =~= p.bytes());
        assert(b.skip(n) =~= prefix::prefixes_bytes(rest));
        assert(s.subrange(off, off + n) =~= s.skip(off).subrange(0, n));
        assert(s.skip(off + n) =~= s.skip(off).skip(n));
        lemma_prefix_roundtrip(p, s, off);
        assert forall|k: int| 0 <= k < rest.len() implies trimmed(#[trigger] rest[k]) by {
            assert(rest[k] == ps[k + 1]);
        }
        lemma_prefixes_roundtrip(rest, s, off + n);
        assert(seq![p] + rest =~= ps);
    }
}

/// The body of an Intra-Area-Prefix-LSA is read back.
pub proof fn lemma_intra_area_prefix_roundtrip(
    ls_type: u16,
    link_state_id: u32,
    advertising_router: u32,
    ps: Seq<Ospfv3Prefix>,
)
    requires
        ps.len() < 65536,
        forall|k: int| 0 <= k < ps.len() ==> trimmed(#[trigger] ps[k]),
    ensures
        ({
            let s = lsa::intra_area_prefix_bytes(ls_type, link_state_id, advertising_router, ps);
            &&& lsa::intra_area_prefix_parse(s) == Ok::<Seq<Ospfv3Prefix>, PacketV3Error>(ps)
            &&& wire::u16_at(s, 2) == ls_type
            &&& wire::u32_at(s, 4) == link_state_id
            &&& wire::u32_at(s, 8) == advertising_router
        }),
{
    let s = lsa::intra_area_prefix_bytes(ls_type, link_state_id, advertising_router, ps);
    let n = (ps.len() % 65536) as u16;
    assert(n == ps.len());
    assert(s.subrange(0, 2) =~= wire::be16(n));
    assert(s.subrange(2, 4) =~= wire::be16(ls_type));
    assert(s.subrange(4, 8) =~= wire::be32(link_state_id));
    assert(s.subrange(8, 12) =~= wire::be32(advertising_router));
    assert(s.skip(12) =~= prefix::prefixes_bytes(ps));
    wire::lemma_be16_inside(s, 0, n);
    wire::lemma_be16_inside(s, 2, ls_type);
    wire::lemma_be32_inside(s, 4, link_state_id);
    wire::lemma_be32_inside(s, 8, advertising_router);
    lemma_prefixes_roundtrip(ps, s, 12);
}

/// The body of an Inter-Area-Prefix-LSA is read back.
pub proof fn lemma_inter_area_prefix_roundtrip(b: InterAreaPrefixLsaV3)
    requires
        b.metric < 0x1000000,
        trimmed(b.prefix),
    ensures
        InterAreaPrefixLsaV3::spec_parse(b.bytes()) == Ok::<InterAreaPrefixLsaV3, PacketV3Error>(b),
{
    let s = b.bytes();
    let n = b.prefix.bytes().len() as int;
    assert(s.subrange(1, 4) =~= wire::be24(b.metric));
    assert(s.subrange(4, 4 + n) =~= b.prefix.bytes());
    wire::lemma_be24_inside(s, 1, b.metric);
    lemma_prefix_roundtrip(b.prefix, s, 4);
}

} // verus!
