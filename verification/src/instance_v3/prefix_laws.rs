//! Laws of the LSAs with which we describe our networks, our links and our prefixes.
use vstd::prelude::*;

use crate::instance_v3;
use crate::instance_v3::externals;
use crate::instance_v3::link_laws;
use crate::instance_v3::originate;
use crate::instance_v3::{
    InstanceV3View, InterfaceStateV3, InterfaceV3View, NeighborStateV3, NeighborV3View,
};
use crate::lsdb_v3::LsaKeyV3;
use crate::packet_v3;
use crate::packet_v3::lsa;
use crate::packet_v3::prefix;
use crate::packet_v3::prefix::Ospfv3Prefix;
use crate::packet_v3::roundtrip;
use crate::packet_v3::{LsaV3Type, Options};
use crate::wire;

verus! {

/// Whether a neighbor among `ns` with this router id is Full.
pub open spec fn has_full(ns: Seq<NeighborV3View>, id: u32) -> bool {
    exists|j: int|
        0 <= j < ns.len() && (#[trigger] ns[j]).state == NeighborStateV3::Full && ns[j].router_id
            == id
}

/// Whether we speak for the network of `f`: we are the designated router that it elected, and some
/// neighbor is Full.
pub open spec fn speaks_for(f: InterfaceV3View) -> bool {
    &&& link_laws::is_shared(f)
    &&& f.state == InterfaceStateV3::DR
    &&& exists|j: int|
        0 <= j < f.neighbors.len() && (#[trigger] f.neighbors[j]).state == NeighborStateV3::Full
}

proof fn lemma_full_ids(ns: Seq<NeighborV3View>, id: u32)
    ensures
        originate::full_ids(ns).contains(id) <==> has_full(ns, id),
    decreases ns.len(),
{
    if ns.len() > 0 {
        let front = ns.drop_last();
        lemma_full_ids(front, id);
        let before = originate::full_ids(front);
        let all = originate::full_ids(ns);
        if has_full(front, id) {
            let j = choose|j: int|
                0 <= j < front.len() && (#[trigger] front[j]).state == NeighborStateV3::Full
                    && front[j].router_id == id;
            assert(ns[j] == front[j]);
        }
        if has_full(ns, id) {
            let j = choose|j: int|
                0 <= j < ns.len() && (#[trigger] ns[j]).state == NeighborStateV3::Full
                    && ns[j].router_id == id;
            if j < front.len() {
                assert(front[j] == ns[j]);
            } else {
                assert(all[before.len() as int] == id);
            }
        }
        if before.contains(id) {
            assert(all[before.index_of(id)] == id);
        }
        if all.contains(id) {
            let k = all.index_of(id);
            if k < before.len() {
                assert(before[k] == id);
            } else {
                assert(ns[ns.len() - 1] == ns.last());
            }
        }
    }
}

proof fn lemma_speaks(f: InterfaceV3View)
    ensures
        originate::describes_network(f) == speaks_for(f),
{
    let ids = originate::full_ids(f.neighbors);
    if ids.len() > 0 {
        assert(ids.contains(ids[0]));
        lemma_full_ids(f.neighbors, ids[0]);
    }
    if exists|j: int|
        0 <= j < f.neighbors.len() && (#[trigger] f.neighbors[j]).state == NeighborStateV3::Full {
        let j = choose|j: int|
            0 <= j < f.neighbors.len() && (#[trigger] f.neighbors[j]).state == NeighborStateV3::Full;
        assert(has_full(f.neighbors, f.neighbors[j].router_id));
        lemma_full_ids(f.neighbors, f.neighbors[j].router_id);
    }
}

/// Whether no other of the interfaces `ifs` has the area and the id of the one at `k`.
pub open spec fn stands_alone(ifs: Seq<InterfaceV3View>, k: int) -> bool {
    forall|j: int|
        0 <= j < ifs.len() && j != k ==> (#[trigger] ifs[j]).area_id != ifs[k].area_id
            || ifs[j].interface_id != ifs[k].interface_id
}

/// Whether `body` is that of a Network-LSA which attaches `me` and the Full neighbors of `f`.
pub open spec fn is_network_body(me: u32, f: InterfaceV3View, body: Seq<u8>) -> bool {
    &&& body.len() >= 4
    &&& wire::u24_at(body, 1) == 0x13
    &&& forall|id: u32| #[trigger]
        packet_v3::u32s_from(body, 4).contains(id) <==> id == me || has_full(f.neighbors, id)
}

proof fn lemma_network_body(me: u32, f: InterfaceV3View)
    ensures
        is_network_body(
            me,
            f,
            lsa::network_lsa_bytes(
                Options::spec_standard().0,
                seq![me] + originate::full_ids(f.neighbors),
            ),
        ),
{
    let ids = originate::full_ids(f.neighbors);
    let all = seq![me] + ids;
    roundtrip::lemma_network_roundtrip(Options::spec_standard().0, all);
    assert forall|id: u32| #[trigger] all.contains(id) <==> id == me || has_full(
        f.neighbors,
        id,
    ) by {
        lemma_full_ids(f.neighbors, id);
        assert(all[0] == me);
        if ids.contains(id) {
            assert(all[1 + ids.index_of(id)] == id);
        }
        if all.contains(id) {
            let k = all.index_of(id);
            if k > 0 {
                assert(ids[k - 1] == id);
            }
        }
    }
}

/// The key of the Network-LSA of `me` for the network of `f`.
pub open spec fn network_key(me: InstanceV3View, f: InterfaceV3View) -> LsaKeyV3 {
    link_laws::own_key(me, LsaV3Type::Network, f.interface_id, f.area_id)
}

proof fn lemma_network_step(me: InstanceV3View, ifs: Seq<InterfaceV3View>, k: LsaKeyV3)
    requires
        ifs.len() > 0,
    ensures
        ({
            let before = me.network_lsas(ifs.drop_last());
            let r = me.network_lsas(ifs);
            let f = ifs.last();
            &&& r.router_id == me.router_id
            &&& if speaks_for(f) {
                let e = r.lsdb.lookup(network_key(me, f));
                &&& e is Some
                &&& e->0.header.ls_age == 0
                &&& is_network_body(me.router_id, f, e->0.body())
                &&& k != network_key(me, f) ==> r.lsdb.lookup(k) == before.lsdb.lookup(k)
            } else {
                r.lsdb.lookup(k) == before.lsdb.lookup(k)
            }
        }),
    decreases ifs.len(),
{
    let before = me.network_lsas(ifs.drop_last());
    let f = ifs.last();
    if ifs.drop_last().len() > 0 {
        lemma_network_step(me, ifs.drop_last(), k);
    }
    lemma_speaks(f);
    lemma_network_body(me.router_id, f);
    externals::lemma_originated(
        before,
        LsaV3Type::Network,
        f.interface_id,
        lsa::network_lsa_bytes(
            Options::spec_standard().0,
            seq![me.router_id] + originate::full_ids(f.neighbors),
        ),
        Some(f.area_id),
        k,
    );
}

proof fn lemma_network_lsa(me: InstanceV3View, ifs: Seq<InterfaceV3View>, f: InterfaceV3View, k: int)
    requires
        forall|j: int|
            0 <= j < ifs.len() && j != k ==> (#[trigger] ifs[j]).area_id != f.area_id
                || ifs[j].interface_id != f.interface_id,
        0 <= k < ifs.len() ==> ifs[k] == f,
    ensures
        ({
            let e = me.network_lsas(ifs).lsdb.lookup(network_key(me, f));
            if 0 <= k < ifs.len() && speaks_for(f) {
                &&& e is Some
                &&& e->0.header.ls_age == 0
                &&& is_network_body(me.router_id, f, e->0.body())
            } else {
                e == me.lsdb.lookup(network_key(me, f))
            }
        }),
    decreases ifs.len(),
{
    if ifs.len() > 0 {
        let front = ifs.drop_last();
        assert(ifs[ifs.len() - 1] == ifs.last());
        assert forall|j: int| 0 <= j < front.len() && j != k implies (#[trigger] front[j]).area_id
            != f.area_id || front[j].interface_id != f.interface_id by {
            assert(front[j] == ifs[j]);
        }
        lemma_network_lsa(me, front, f, k);
        lemma_network_step(me, ifs, network_key(me, f));
    }
}

/// After an origination the database holds a new Network-LSA for each network that we speak for,
/// under the id of our interface there, and it attaches exactly us and the Full neighbors. For
/// another network nothing changes.
pub proof fn lemma_network_lsas(me: InstanceV3View, k: int)
    requires
        0 <= k < me.interfaces.len(),
        stands_alone(me.interfaces, k),
    ensures
        ({
            let f = me.interfaces[k];
            let e = me.with_network_lsas().lsdb.lookup(network_key(me, f));
            if speaks_for(f) {
                &&& e is Some
                &&& e->0.header.ls_age == 0
                &&& is_network_body(me.router_id, f, e->0.body())
            } else {
                e == me.lsdb.lookup(network_key(me, f))
            }
        }),
{
    lemma_network_lsa(me, me.interfaces, me.interfaces[k], k);
}

/// Whether each of the prefixes fits its length.
pub open spec fn are_trimmed(ps: Seq<(u128, u8)>) -> bool {
    forall|i: int|
        0 <= i < ps.len() ==> roundtrip::trimmed(
            Ospfv3Prefix {
                prefix_length: (#[trigger] ps[i]).1,
                prefix_options: 0,
                prefix_or_metric: 0,
                address: ps[i].0,
            },
        )
}

/// Whether `qs` lists the prefixes `ps`, without options and at no cost.
pub open spec fn are_plain(qs: Seq<Ospfv3Prefix>, ps: Seq<(u128, u8)>) -> bool {
    &&& qs.len() == ps.len()
    &&& forall|i: int|
        0 <= i < qs.len() ==> (#[trigger] qs[i]).address == ps[i].0 && qs[i].prefix_length == ps[i].1
            && qs[i].prefix_options == 0 && qs[i].prefix_or_metric == 0
}

/// Whether `body` is that of a Link-LSA with the priority, the link-local address and the prefixes
/// of `f`.
pub open spec fn is_link_body(f: InterfaceV3View, body: Seq<u8>) -> bool {
    &&& body.len() >= 24
    &&& body[0] == f.priority
    &&& wire::u24_at(body, 1) == 0x13
    &&& body.subrange(4, 20) == wire::be128(f.io.link_local)
    &&& wire::u32_at(body, 20) == f.global_prefixes.len() % 0x100000000
    &&& are_trimmed(f.global_prefixes) ==> {
        let qs = prefix::prefixes_from(body, 24, f.global_prefixes.len());
        qs is Ok && are_plain(qs->Ok_0, f.global_prefixes)
    }
}

proof fn lemma_link_body(f: InterfaceV3View)
    ensures
        is_link_body(
            f,
            lsa::link_lsa_bytes(
                f.priority,
                Options::spec_standard().0,
                f.io.link_local,
                originate::plain_prefixes(f.global_prefixes),
            ),
        ),
{
    let ps = originate::plain_prefixes(f.global_prefixes);
    let s = lsa::link_lsa_bytes(f.priority, Options::spec_standard().0, f.io.link_local, ps);
    let n = (ps.len() % 0x100000000) as u32;
    assert(s.subrange(1, 4) =~= wire::be24(Options::spec_standard().0));
    wire::lemma_be24_inside(s, 1, Options::spec_standard().0);
    assert(s.subrange(4, 20) =~= wire::be128(f.io.link_local));
    assert(s.subrange(20, 24) =~= wire::be32(n));
    wire::lemma_be32_inside(s, 20, n);
    assert(s.skip(24) =~= prefix::prefixes_bytes(ps));
    if are_trimmed(f.global_prefixes) {
        assert forall|k: int| 0 <= k < ps.len() implies roundtrip::trimmed(#[trigger] ps[k]) by {
            assert(ps[k].prefix_length == f.global_prefixes[k].1);
        }
        roundtrip::lemma_prefixes_roundtrip(ps, s, 24);
    }
}

/// Whether a Link-LSA is due on `f`: it is up and has a link-local address.
pub open spec fn has_link_lsa(f: InterfaceV3View) -> bool {
    f.state != InterfaceStateV3::Down && f.io.link_local != 0
}

/// The key of the Link-LSA of `me` for the link of `f`.
pub open spec fn link_key(me: InstanceV3View, f: InterfaceV3View) -> LsaKeyV3 {
    link_laws::own_key(me, LsaV3Type::Link, f.interface_id, f.area_id)
}

proof fn lemma_link_step(me: InstanceV3View, ifs: Seq<InterfaceV3View>, k: LsaKeyV3)
    requires
        ifs.len() > 0,
    ensures
        ({
            let before = me.link_lsas(ifs.drop_last());
            let r = me.link_lsas(ifs);
            let f = ifs.last();
            &&& r.router_id == me.router_id
            &&& if has_link_lsa(f) {
                let e = r.lsdb.lookup(link_key(me, f));
                &&& e is Some
                &&& e->0.header.ls_age == 0
                &&& is_link_body(f, e->0.body())
                &&& k != link_key(me, f) ==> r.lsdb.lookup(k) == before.lsdb.lookup(k)
            } else {
                r.lsdb.lookup(k) == before.lsdb.lookup(k)
            }
        }),
    decreases ifs.len(),
{
    let before = me.link_lsas(ifs.drop_last());
    let f = ifs.last();
    if ifs.drop_last().len() > 0 {
        lemma_link_step(me, ifs.drop_last(), k);
    }
    lemma_link_body(f);
    let body = lsa::link_lsa_bytes(
        f.priority,
        Options::spec_standard().0,
        f.io.link_local,
        originate::plain_prefixes(f.global_prefixes),
    );
    let e = before.self_lsa(LsaV3Type::Link, f.interface_id, body, Some(f.area_id));
    externals::lemma_originated(before, LsaV3Type::Link, f.interface_id, body, Some(f.area_id), k);
    before.lsdb.lemma_get_after_insert(e, k);
    instance_v3::lemma_iface_pos(before.interfaces, f.io.sw_if_index, 0);
}

proof fn lemma_link_lsa(me: InstanceV3View, ifs: Seq<InterfaceV3View>, f: InterfaceV3View, k: int)
    requires
        forall|j: int|
            0 <= j < ifs.len() && j != k ==> (#[trigger] ifs[j]).area_id != f.area_id
                || ifs[j].interface_id != f.interface_id,
        0 <= k < ifs.len() ==> ifs[k] == f,
    ensures
        ({
            let e = me.link_lsas(ifs).lsdb.lookup(link_key(me, f));
            if 0 <= k < ifs.len() && has_link_lsa(f) {
                &&& e is Some
                &&& e->0.header.ls_age == 0
                &&& is_link_body(f, e->0.body())
            } else {
                e == me.lsdb.lookup(link_key(me, f))
            }
        }),
    decreases ifs.len(),
{
    if ifs.len() > 0 {
        let front = ifs.drop_last();
        assert(ifs[ifs.len() - 1] == ifs.last());
        assert forall|j: int| 0 <= j < front.len() && j != k implies (#[trigger] front[j]).area_id
            != f.area_id || front[j].interface_id != f.interface_id by {
            assert(front[j] == ifs[j]);
        }
        lemma_link_lsa(me, front, f, k);
        lemma_link_step(me, ifs, link_key(me, f));
    }
}

/// After an origination the database holds a new Link-LSA for each interface that is up and has a
/// link-local address; it tells that address, the priority and the prefixes. For another interface
/// nothing changes.
pub proof fn lemma_link_lsas(me: InstanceV3View, k: int)
    requires
        0 <= k < me.interfaces.len(),
        stands_alone(me.interfaces, k),
    ensures
        ({
            let f = me.interfaces[k];
            let e = me.with_link_lsas().lsdb.lookup(link_key(me, f));
            if has_link_lsa(f) {
                &&& e is Some
                &&& e->0.header.ls_age == 0
                &&& is_link_body(f, e->0.body())
            } else {
                e == me.lsdb.lookup(link_key(me, f))
            }
        }),
{
    lemma_link_lsa(me, me.interfaces, me.interfaces[k], k);
}

/// Whether `body` is that of an Intra-Area-Prefix-LSA that hangs prefixes on the LSA of `me` with
/// the given type and id.
pub open spec fn hangs_on(body: Seq<u8>, code: u16, id: u32, me: u32) -> bool {
    &&& body.len() >= 12
    &&& wire::u16_at(body, 2) == code
    &&& wire::u32_at(body, 4) == id
    &&& wire::u32_at(body, 8) == me
}

/// Whether `body` is that of the Intra-Area-Prefix-LSA for the network of `f`.
pub open spec fn is_network_prefix_body(me: u32, f: InterfaceV3View, body: Seq<u8>) -> bool {
    &&& hangs_on(body, 0x2002, f.interface_id, me)
    &&& are_trimmed(f.global_prefixes) && f.global_prefixes.len() < 65536 ==> {
        let qs = lsa::intra_area_prefix_parse(body);
        qs is Ok && are_plain(qs->Ok_0, f.global_prefixes)
    }
}

proof fn lemma_hangs(code: u16, id: u32, me: u32, ps: Seq<Ospfv3Prefix>)
    ensures
        hangs_on(lsa::intra_area_prefix_bytes(code, id, me, ps), code, id, me),
{
    let s = lsa::intra_area_prefix_bytes(code, id, me, ps);
    assert(s.subrange(2, 4) =~= wire::be16(code));
    assert(s.subrange(4, 8) =~= wire::be32(id));
    assert(s.subrange(8, 12) =~= wire::be32(me));
    wire::lemma_be16_inside(s, 2, code);
    wire::lemma_be32_inside(s, 4, id);
    wire::lemma_be32_inside(s, 8, me);
}

proof fn lemma_network_prefix_body(me: u32, f: InterfaceV3View)
    ensures
        is_network_prefix_body(
            me,
            f,
            lsa::intra_area_prefix_bytes(
                LsaV3Type::Network.spec_code(),
                f.interface_id,
                me,
                originate::plain_prefixes(f.global_prefixes),
            ),
        ),
{
    let ps = originate::plain_prefixes(f.global_prefixes);
    let code = LsaV3Type::Network.spec_code();
    assert(code == 0x2002);
    lemma_hangs(code, f.interface_id, me, ps);
    if are_trimmed(f.global_prefixes) && f.global_prefixes.len() < 65536 {
        assert forall|k: int| 0 <= k < ps.len() implies roundtrip::trimmed(#[trigger] ps[k]) by {
            assert(ps[k].prefix_length == f.global_prefixes[k].1);
        }
        roundtrip::lemma_intra_area_prefix_roundtrip(code, f.interface_id, me, ps);
    }
}

/// The key of the Intra-Area-Prefix-LSA of `me` with the given id in an area.
pub open spec fn prefix_key(me: InstanceV3View, id: u32, area: u32) -> LsaKeyV3 {
    link_laws::own_key(me, LsaV3Type::IntraAreaPrefix, id, area)
}

proof fn lemma_network_prefix_step(me: InstanceV3View, ifs: Seq<InterfaceV3View>, k: LsaKeyV3)
    requires
        ifs.len() > 0,
    ensures
        ({
            let before = me.network_prefix_lsas(ifs.drop_last());
            let r = me.network_prefix_lsas(ifs);
            let f = ifs.last();
            let key = prefix_key(me, f.interface_id, f.area_id);
            &&& r.router_id == me.router_id
            &&& if speaks_for(f) && f.global_prefixes.len() > 0 {
                let e = r.lsdb.lookup(key);
                &&& e is Some
                &&& e->0.header.ls_age == 0
                &&& is_network_prefix_body(me.router_id, f, e->0.body())
                &&& k != key ==> r.lsdb.lookup(k) == before.lsdb.lookup(k)
            } else {
                r.lsdb.lookup(k) == before.lsdb.lookup(k)
            }
        }),
    decreases ifs.len(),
{
    let before = me.network_prefix_lsas(ifs.drop_last());
    let f = ifs.last();
    if ifs.drop_last().len() > 0 {
        lemma_network_prefix_step(me, ifs.drop_last(), k);
    }
    lemma_speaks(f);
    lemma_network_prefix_body(me.router_id, f);
    externals::lemma_originated(
        before,
        LsaV3Type::IntraAreaPrefix,
        f.interface_id,
        lsa::intra_area_prefix_bytes(
            LsaV3Type::Network.spec_code(),
            f.interface_id,
            me.router_id,
            originate::plain_prefixes(f.global_prefixes),
        ),
        Some(f.area_id),
        k,
    );
}

proof fn lemma_network_prefix_lsa(
    me: InstanceV3View,
    ifs: Seq<InterfaceV3View>,
    f: InterfaceV3View,
    k: int,
)
    requires
        forall|j: int|
            0 <= j < ifs.len() && j != k ==> (#[trigger] ifs[j]).area_id != f.area_id
                || ifs[j].interface_id != f.interface_id,
        0 <= k < ifs.len() ==> ifs[k] == f,
    ensures
        ({
            let key = prefix_key(me, f.interface_id, f.area_id);
            let e = me.network_prefix_lsas(ifs).lsdb.lookup(key);
            &&& me.network_prefix_lsas(ifs).router_id == me.router_id
            &&& if 0 <= k < ifs.len() && speaks_for(f) && f.global_prefixes.len() > 0 {
                &&& e is Some
                &&& e->0.header.ls_age == 0
                &&& is_network_prefix_body(me.router_id, f, e->0.body())
            } else {
                e == me.lsdb.lookup(key)
            }
        }),
    decreases ifs.len(),
{
    if ifs.len() > 0 {
        let front = ifs.drop_last();
        assert(ifs[ifs.len() - 1] == ifs.last());
        assert forall|j: int| 0 <= j < front.len() && j != k implies (#[trigger] front[j]).area_id
            != f.area_id || front[j].interface_id != f.interface_id by {
            assert(front[j] == ifs[j]);
        }
        lemma_network_prefix_lsa(me, front, f, k);
        lemma_network_prefix_step(me, ifs, prefix_key(me, f.interface_id, f.area_id));
    }
}

/// Whether `p` is a prefix of an interface in `area` for whose network we do not speak.
pub open spec fn is_own_prefix(ifs: Seq<InterfaceV3View>, area: u32, p: (u128, u8)) -> bool {
    exists|i: int|
        0 <= i < ifs.len() && (#[trigger] ifs[i]).area_id == area && !speaks_for(ifs[i])
            && ifs[i].global_prefixes.contains(p)
}

proof fn lemma_router_prefixes(ifs: Seq<InterfaceV3View>, area: u32, q: Ospfv3Prefix)
    ensures
        originate::router_prefixes(ifs, area).contains(q) <==> q.prefix_options == 0
            && q.prefix_or_metric == 0 && is_own_prefix(ifs, area, (q.address, q.prefix_length)),
    decreases ifs.len(),
{
    if ifs.len() > 0 {
        let front = ifs.drop_last();
        let f = ifs.last();
        let p = (q.address, q.prefix_length);
        assert(ifs[ifs.len() - 1] == f);
        lemma_router_prefixes(front, area, q);
        lemma_speaks(f);
        let before = originate::router_prefixes(front, area);
        let more = originate::plain_prefixes(f.global_prefixes);
        let all = originate::router_prefixes(ifs, area);
        if more.contains(q) {
            let k = more.index_of(q);
            assert(f.global_prefixes[k] == p);
        }
        if f.global_prefixes.contains(p) && q.prefix_options == 0 && q.prefix_or_metric == 0 {
            let k = f.global_prefixes.index_of(p);
            assert(more[k] == q);
        }
        if is_own_prefix(front, area, p) {
            let i = choose|i: int|
                0 <= i < front.len() && (#[trigger] front[i]).area_id == area && !speaks_for(
                    front[i],
                ) && front[i].global_prefixes.contains(p);
            assert(ifs[i] == front[i]);
        }
        if is_own_prefix(ifs, area, p) {
            let i = choose|i: int|
                0 <= i < ifs.len() && (#[trigger] ifs[i]).area_id == area && !speaks_for(ifs[i])
                    && ifs[i].global_prefixes.contains(p);
            if i < front.len() {
                assert(front[i] == ifs[i]);
            }
        }
        if before.contains(q) {
            assert(all[before.index_of(q)] == q);
        }
        if f.area_id == area && !speaks_for(f) {
            if more.contains(q) {
                assert(all[before.len() + more.index_of(q)] == q);
            }
            if all.contains(q) {
                let k = all.index_of(q);
                if k < before.len() {
                    assert(before[k] == q);
                } else {
                    assert(more[k - before.len()] == q);
                }
            }
        }
    }
}

/// Whether `body` is that of the Intra-Area-Prefix-LSA for our Router-LSA in `area`: it lists the
/// prefixes of the interfaces there for whose networks we do not speak, without options and at no
/// cost.
pub open spec fn is_router_prefix_body(
    me: u32,
    ifs: Seq<InterfaceV3View>,
    area: u32,
    body: Seq<u8>,
) -> bool {
    &&& hangs_on(body, 0x2001, 0, me)
    &&& exists|qs: Seq<Ospfv3Prefix>|
        {
            &&& wire::u16_at(body, 0) == qs.len() % 65536
            &&& body.skip(12) == #[trigger] prefix::prefixes_bytes(qs)
            &&& forall|q: Ospfv3Prefix| #[trigger]
                qs.contains(q) <==> q.prefix_options == 0 && q.prefix_or_metric == 0
                    && is_own_prefix(ifs, area, (q.address, q.prefix_length))
        }
}

proof fn lemma_router_prefix_body(me: u32, ifs: Seq<InterfaceV3View>, area: u32)
    ensures
        is_router_prefix_body(
            me,
            ifs,
            area,
            lsa::intra_area_prefix_bytes(
                LsaV3Type::Router.spec_code(),
                0,
                me,
                originate::router_prefixes(ifs, area),
            ),
        ),
{
    let qs = originate::router_prefixes(ifs, area);
    let code = LsaV3Type::Router.spec_code();
    let body = lsa::intra_area_prefix_bytes(code, 0, me, qs);
    let n = (qs.len() % 65536) as u16;
    lemma_hangs(code, 0, me, qs);
    assert(body.subrange(0, 2) =~= wire::be16(n));
    wire::lemma_be16_inside(body, 0, n);
    assert(body.skip(12) =~= prefix::prefixes_bytes(qs));
    assert forall|q: Ospfv3Prefix| #[trigger]
        qs.contains(q) <==> q.prefix_options == 0 && q.prefix_or_metric == 0 && is_own_prefix(
            ifs,
            area,
            (q.address, q.prefix_length),
        ) by {
        lemma_router_prefixes(ifs, area, q);
    }
}

proof fn lemma_router_prefix_frame(
    me: InstanceV3View,
    areas: Seq<u32>,
    ifs: Seq<InterfaceV3View>,
    k: LsaKeyV3,
)
    ensures
        me.router_prefix_lsas(areas, ifs).router_id == me.router_id,
        k.link_state_id != 0 ==> me.router_prefix_lsas(areas, ifs).lsdb.lookup(k)
            == me.lsdb.lookup(k),
    decreases areas.len(),
{
    if areas.len() > 0 {
        lemma_router_prefix_frame(me, areas.drop_last(), ifs, k);
        let body = lsa::intra_area_prefix_bytes(
            LsaV3Type::Router.spec_code(),
            0,
            me.router_id,
            originate::router_prefixes(ifs, areas.last()),
        );
        externals::lemma_originated(
            me.router_prefix_lsas(areas.drop_last(), ifs),
            LsaV3Type::IntraAreaPrefix,
            0,
            body,
            Some(areas.last()),
            k,
        );
    }
}

proof fn lemma_router_prefix_lsa(
    me: InstanceV3View,
    areas: Seq<u32>,
    ifs: Seq<InterfaceV3View>,
    area: u32,
)
    requires
        areas.contains(area),
    ensures
        ({
            let e = me.router_prefix_lsas(areas, ifs).lsdb.lookup(prefix_key(me, 0, area));
            &&& e is Some
            &&& e->0.header.ls_age == 0
            &&& e->0.body() == lsa::intra_area_prefix_bytes(
                LsaV3Type::Router.spec_code(),
                0,
                me.router_id,
                originate::router_prefixes(ifs, area),
            )
        }),
    decreases areas.len(),
{
    let front = areas.drop_last();
    let last = areas.last();
    let body = lsa::intra_area_prefix_bytes(
        LsaV3Type::Router.spec_code(),
        0,
        me.router_id,
        originate::router_prefixes(ifs, last),
    );
    let k = prefix_key(me, 0, area);
    lemma_router_prefix_frame(me, front, ifs, k);
    externals::lemma_originated(
        me.router_prefix_lsas(front, ifs),
        LsaV3Type::IntraAreaPrefix,
        0,
        body,
        Some(last),
        k,
    );
    if last != area {
        let i = areas.index_of(area);
        assert(front[i] == area);
        lemma_router_prefix_lsa(me, front, ifs, area);
    }
}

/// After an origination the database holds, for the area of each interface, a new
/// Intra-Area-Prefix-LSA that hangs on our Router-LSA every prefix of the area that hangs on no
/// network of ours. Where we speak for the network of the interface, another one hangs the
/// prefixes of the interface on our Network-LSA.
pub proof fn lemma_prefix_lsas(me: InstanceV3View, k: int)
    requires
        0 <= k < me.interfaces.len(),
        stands_alone(me.interfaces, k),
    ensures
        ({
            let f = me.interfaces[k];
            let r = me.with_prefix_lsas();
            let e = r.lsdb.lookup(prefix_key(me, 0, f.area_id));
            let d = r.lsdb.lookup(prefix_key(me, f.interface_id, f.area_id));
            &&& e is Some
            &&& e->0.header.ls_age == 0
            &&& is_router_prefix_body(me.router_id, me.interfaces, f.area_id, e->0.body())
            &&& f.interface_id != 0 && speaks_for(f) && f.global_prefixes.len() > 0 ==> {
                &&& d is Some
                &&& d->0.header.ls_age == 0
                &&& is_network_prefix_body(me.router_id, f, d->0.body())
            }
            &&& f.interface_id != 0 && !(speaks_for(f) && f.global_prefixes.len() > 0) ==> d
                == me.lsdb.lookup(prefix_key(me, f.interface_id, f.area_id))
        }),
{
    let f = me.interfaces[k];
    let mid = me.network_prefix_lsas(me.interfaces);
    lemma_network_prefix_lsa(me, me.interfaces, f, k);
    link_laws::lemma_area_listed(me.interfaces, k);
    let areas = instance_v3::areas_of(me.interfaces);
    lemma_router_prefix_lsa(mid, areas, me.interfaces, f.area_id);
    lemma_router_prefix_frame(
        mid,
        areas,
        me.interfaces,
        prefix_key(me, f.interface_id, f.area_id),
    );
    lemma_router_prefix_body(me.router_id, me.interfaces, f.area_id);
}

} // verus!
