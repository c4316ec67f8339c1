//! What every operation keeps: no area and no neighbor is listed twice, and no database holds a key
//! twice.
use vstd::prelude::*;

use crate::area;
use crate::config::{AreaConfig, OspfDaemonConfig, OspfInterfaceConfig, ParsedSummaryAddress};
use crate::instance;
use crate::instance::daemon::Snapshot;
use crate::instance::flooding;
use crate::instance::originate;
use crate::instance::reload;
use crate::instance::setup;
use crate::instance::OspfInstanceView;
use crate::lsdb;
use crate::packet;
use crate::packet::dd;
use crate::packet::hello;
use crate::packet::lsa;
use crate::packet::lsa::{AsExternalLsa, LsaHeader, LsaKey, LsaType};
use crate::proto::interface;
use crate::proto::interface::InterfaceEvent;
use crate::proto::neighbor;
use crate::proto::neighbor::NeighborEvent;
use crate::proto::spf::SpfRoute;

verus! {

/// Two lists of neighbors with the same ids in the same places.
spec fn same_ids(a: Seq<neighbor::NeighborView>, b: Seq<neighbor::NeighborView>) -> bool {
    &&& a.len() == b.len()
    &&& forall|k: int|
        0 <= k < a.len() ==> (#[trigger] a[k]).router_id == (#[trigger] b[k]).router_id
}

proof fn lemma_same_ids(a: interface::OspfInterfaceView, b: interface::OspfInterfaceView)
    requires
        a.wf(),
        same_ids(a.neighbors, b.neighbors),
    ensures
        b.wf(),
{
    assert forall|i: int, j: int| 0 <= i < j < b.neighbors.len() implies (
    #[trigger] b.neighbors[i]).router_id != (#[trigger] b.neighbors[j]).router_id by {
        assert(a.neighbors[i].router_id == b.neighbors[i].router_id);
        assert(a.neighbors[j].router_id == b.neighbors[j].router_id);
    }
}

/// A Hello makes no neighbor be listed twice.
pub proof fn lemma_hello_wf(
    f: interface::OspfInterfaceView,
    me: u32,
    src: u32,
    id: u32,
    h: hello::HelloView,
    now: u64,
)
    requires
        f.wf(),
    ensures
        f.after_hello(me, src, id, h, now).wf(),
{
    if h.hello_interval == f.hello_interval && h.router_dead_interval == f.dead_interval {
        let base = f.knowing(id, src, now);
        interface::lemma_neighbor_pos(f.neighbors, id, 0);
        interface::lemma_neighbor_pos(base.neighbors, id, 0);
        if interface::neighbor_pos(f.neighbors, id, 0) is None {
            assert(base.neighbors[f.neighbors.len() as int].router_id == id);
        }
        let p = interface::neighbor_pos(base.neighbors, id, 0)->0;
        let after = base.neighbors[p].greeted(base.adjacent_to_all(), me, src, h, now);
        let t = interface::OspfInterfaceView {
            neighbors: base.neighbors.update(p, after),
            ..base
        };
        lemma_same_ids(base, t);
        t.lemma_after_wf(InterfaceEvent::BackupSeen, now);
        t.lemma_after_wf(InterfaceEvent::NeighborChange, now);
        t.after(InterfaceEvent::BackupSeen, now).lemma_after_wf(
            InterfaceEvent::NeighborChange,
            now,
        );
    }
}

proof fn lemma_lost_wf(f: interface::OspfInterfaceView, id: u32, now: u64)
    requires
        f.wf(),
    ensures
        f.lost(id, now).wf(),
{
    interface::lemma_neighbor_pos(f.neighbors, id, 0);
    match interface::neighbor_pos(f.neighbors, id, 0) {
        Some(j) => {
            let t = interface::OspfInterfaceView {
                neighbors: f.neighbors.update(
                    j,
                    f.neighbors[j].after(NeighborEvent::InactivityTimer, false, now),
                ),
                ..f
            };
            lemma_same_ids(f, t);
            t.lemma_after_wf(InterfaceEvent::NeighborChange, now);
        },
        None => {},
    }
}

proof fn lemma_lost_all_wf(f: interface::OspfInterfaceView, ids: Seq<u32>, now: u64)
    requires
        f.wf(),
    ensures
        f.lost_all(ids, now).wf(),
    decreases ids.len(),
{
    if ids.len() > 0 {
        lemma_lost_all_wf(f, ids.drop_last(), now);
        lemma_lost_wf(f.lost_all(ids.drop_last(), now), ids.last(), now);
    }
}

proof fn lemma_refreshed_wf(
    f: interface::OspfInterfaceView,
    address: u32,
    mask: u32,
    up: bool,
    now: u64,
)
    requires
        f.wf(),
    ensures
        f.refreshed(address, mask, up, now).0.wf(),
{
    let t = interface::OspfInterfaceView { address, mask, ..f };
    assert(t.wf());
    t.lemma_after_wf(InterfaceEvent::InterfaceUp, now);
    t.lemma_after_wf(InterfaceEvent::InterfaceDown, now);
}

proof fn lemma_iface_pos(s: Seq<interface::OspfInterfaceView>, idx: u32, from: int)
    requires
        0 <= from,
    ensures
        instance::iface_pos(s, idx, from) matches Some(i) ==> from <= i < s.len()
            && s[i].sw_if_index == idx,
    decreases s.len() - from,
{
    if from < s.len() && s[from].sw_if_index != idx {
        lemma_iface_pos(s, idx, from + 1);
    }
}

proof fn lemma_with_iface(me: OspfInstanceView, i: int, t: interface::OspfInterfaceView)
    requires
        me.wf(),
        0 <= i < me.interfaces.len(),
        t.wf(),
    ensures
        me.with_iface(i, t).wf(),
{
}

/// An area of the list with another database, whose keys are distinct.
proof fn lemma_with_db(me: OspfInstanceView, a: int, db: lsdb::LsdbView)
    requires
        me.wf(),
        0 <= a < me.areas.len(),
        db.wf(),
    ensures
        (OspfInstanceView {
            areas: me.areas.update(a, area::AreaView { lsdb: db, ..me.areas[a] }),
            ..me
        }).wf(),
{
    let r = me.areas.update(a, area::AreaView { lsdb: db, ..me.areas[a] });
    assert forall|i: int, j: int| 0 <= i < j < r.len() implies (#[trigger] r[i]).area_id != (
    #[trigger] r[j]).area_id by {
        assert(r[i].area_id == me.areas[i].area_id);
        assert(r[j].area_id == me.areas[j].area_id);
    }
}

/// Issuing our Router-LSAs keeps everything distinct.
pub proof fn lemma_router_lsas_wf(me: OspfInstanceView, now: u64)
    requires
        me.wf(),
    ensures
        me.with_router_lsas(now).wf(),
{
    let r = me.with_router_lsas(now);
    assert forall|k: int| 0 <= k < r.areas.len() implies (#[trigger] r.areas[k]).lsdb.wf()
        && r.areas[k].area_id == me.areas[k].area_id by {
        let a = me.areas[k];
        a.lsdb.lemma_wf_kept(me.next_router_lsa(a), lsdb::router_key(0), 0, now);
    }
    assert forall|i: int, j: int| 0 <= i < j < r.areas.len() implies (#[trigger] r.areas[i]).area_id
        != (#[trigger] r.areas[j]).area_id by {
        assert(me.areas[i].area_id != me.areas[j].area_id);
    }
}

proof fn lemma_issued_in_wf(
    me: OspfInstanceView,
    a: int,
    k: LsaKey,
    body: lsa::LsaBodyView,
    now: u64,
)
    requires
        me.wf(),
        0 <= a < me.areas.len(),
    ensures
        me.issued_in(a, k, body, now).0.wf(),
        me.issued_in(a, k, body, now).0.areas.len() == me.areas.len(),
        forall|j: int|
            0 <= j < me.areas.len() ==> (#[trigger] me.issued_in(a, k, body, now).0.areas[j]).area_id
                == me.areas[j].area_id,
{
    let d = me.areas[a].lsdb;
    let l = d.next_instance(k, originate::our_options(), body);
    d.lemma_wf_kept(l, k, 0, now);
    lemma_with_db(me, a, d.install(l, now));
}

proof fn lemma_network_lsas_wf(
    me: OspfInstanceView,
    is: Seq<interface::OspfInterfaceView>,
    now: u64,
)
    requires
        me.wf(),
    ensures
        me.network_lsas(is, now).0.wf(),
    decreases is.len(),
{
    if is.len() > 0 {
        lemma_network_lsas_wf(me, is.drop_last(), now);
        let front = me.network_lsas(is.drop_last(), now).0;
        let f = is.last();
        flooding::lemma_area_pos(front.areas, f.area_id, 0);
        match instance::area_pos(front.areas, f.area_id, 0) {
            Some(a) if f.serves_network() => {
                lemma_issued_in_wf(
                    front,
                    a,
                    originate::own_key(LsaType::Network, f.address, me.router_id),
                    lsa::LsaBodyView::Network {
                        network_mask: f.mask,
                        attached_routers: me.attached(f),
                    },
                    now,
                );
            },
            _ => {},
        }
    }
}

proof fn lemma_stub_defaults_wf(me: OspfInstanceView, ids: Seq<u32>, now: u64)
    requires
        me.wf(),
    ensures
        me.stub_defaults(ids, now).0.wf(),
    decreases ids.len(),
{
    if ids.len() > 0 {
        lemma_stub_defaults_wf(me, ids.drop_last(), now);
        let front = me.stub_defaults(ids.drop_last(), now).0;
        flooding::lemma_area_pos(front.areas, ids.last(), 0);
        match instance::area_pos(front.areas, ids.last(), 0) {
            Some(a) => {
                lemma_issued_in_wf(
                    front,
                    a,
                    originate::own_key(LsaType::SummaryNetwork, 0, me.router_id),
                    lsa::LsaBodyView::Summary(
                        lsa::SummaryLsa { network_mask: 0, metric: front.areas[a].default_cost },
                    ),
                    now,
                );
            },
            _ => {},
        }
    }
}

proof fn lemma_route_summaries_wf(me: OspfInstanceView, a: int, rs: Seq<SpfRoute>, now: u64)
    requires
        me.wf(),
        0 <= a < me.areas.len(),
    ensures
        me.route_summaries(a, rs, now).0.wf(),
        me.route_summaries(a, rs, now).0.areas.len() == me.areas.len(),
    decreases rs.len(),
{
    if rs.len() > 0 {
        lemma_route_summaries_wf(me, a, rs.drop_last(), now);
        let front = me.route_summaries(a, rs.drop_last(), now).0;
        let r = rs.last();
        lemma_issued_in_wf(
            front,
            a,
            originate::own_key(LsaType::SummaryNetwork, r.prefix, me.router_id),
            lsa::LsaBodyView::Summary(
                lsa::SummaryLsa {
                    network_mask: crate::prefix::mask_v4(r.prefix_len as int),
                    metric: r.cost,
                },
            ),
            now,
        );
    }
}

proof fn lemma_dest_summaries_wf(
    me: OspfInstanceView,
    src: u32,
    ids: Seq<u32>,
    rs: Seq<SpfRoute>,
    now: u64,
)
    requires
        me.wf(),
    ensures
        me.dest_summaries(src, ids, rs, now).0.wf(),
    decreases ids.len(),
{
    if ids.len() > 0 {
        lemma_dest_summaries_wf(me, src, ids.drop_last(), rs, now);
        let front = me.dest_summaries(src, ids.drop_last(), rs, now).0;
        flooding::lemma_area_pos(front.areas, ids.last(), 0);
        match instance::area_pos(front.areas, ids.last(), 0) {
            Some(a) => {
                lemma_route_summaries_wf(front, a, rs, now);
            },
            None => {},
        }
    }
}

proof fn lemma_source_summaries_wf(
    me: OspfInstanceView,
    srcs: Seq<u32>,
    ids: Seq<u32>,
    ts: Seq<originate::AreaRoutesView>,
    now: u64,
)
    requires
        me.wf(),
    ensures
        me.source_summaries(srcs, ids, ts, now).0.wf(),
    decreases srcs.len(),
{
    if srcs.len() > 0 {
        lemma_source_summaries_wf(me, srcs.drop_last(), ids, ts, now);
        let front = me.source_summaries(srcs.drop_last(), ids, ts, now).0;
        lemma_dest_summaries_wf(
            front,
            srcs.last(),
            ids,
            originate::routes_of(ts, srcs.last(), 0),
            now,
        );
    }
}

/// Announcing routes between areas keeps everything distinct.
pub proof fn lemma_summaries_wf(
    me: OspfInstanceView,
    ts: Seq<originate::AreaRoutesView>,
    now: u64,
)
    requires
        me.wf(),
    ensures
        me.summaries(ts, now).0.wf(),
{
    let ids = originate::area_ids(me.areas);
    lemma_stub_defaults_wf(me, ids, now);
    lemma_source_summaries_wf(me.stub_defaults(ids, now).0, ids, ids, ts, now);
}

proof fn lemma_issued_external_wf(me: OspfInstanceView, id: u32, e: AsExternalLsa, now: u64)
    requires
        me.wf(),
    ensures
        me.issued_external(id, e, now).0.wf(),
{
    let d = me.as_external_lsdb;
    let k = originate::own_key(LsaType::AsExternal, id, me.router_id);
    d.lemma_wf_kept(
        d.next_instance(k, originate::our_options(), lsa::LsaBodyView::AsExternal(e)),
        k,
        0,
        now,
    );
}

proof fn lemma_withdrawn_wf(me: OspfInstanceView, ks: Seq<LsaKey>, now: u64)
    requires
        me.wf(),
    ensures
        me.withdrawn(ks, now).wf(),
    decreases ks.len(),
{
    if ks.len() > 0 {
        lemma_withdrawn_wf(me, ks.drop_last(), now);
        let d = me.withdrawn(ks.drop_last(), now).as_external_lsdb;
        match d.lookup(ks.last()) {
            Some(e) => {
                d.lemma_wf_kept(originate::withdrawal(e.lsa), ks.last(), 0, now);
            },
            None => {},
        }
    }
}

proof fn lemma_external_lsas_wf(
    me: OspfInstanceView,
    kept: Seq<(u32, u32)>,
    metric: u32,
    metric_type: u8,
    now: u64,
)
    requires
        me.wf(),
    ensures
        me.external_lsas(kept, metric, metric_type, now).0.wf(),
    decreases kept.len(),
{
    if kept.len() > 0 {
        lemma_external_lsas_wf(me, kept.drop_last(), metric, metric_type, now);
        lemma_issued_external_wf(
            me.external_lsas(kept.drop_last(), metric, metric_type, now).0,
            kept.last().0,
            AsExternalLsa {
                network_mask: kept.last().1,
                metric_type_2: metric_type == 2,
                metric,
                forwarding_address: 0,
                external_route_tag: 0,
            },
            now,
        );
    }
}

/// Redistribution keeps everything distinct.
pub proof fn lemma_redistributed_wf(
    me: OspfInstanceView,
    rs: Seq<crate::config::RedistributeConfigView>,
    es: Seq<originate::ExternalView>,
    ss: Seq<ParsedSummaryAddress>,
    now: u64,
)
    requires
        me.wf(),
    ensures
        me.redistributed(rs, es, ss, now).0.wf(),
{
    let hs = lsdb::live_headers(me.as_external_lsdb.entries, now);
    lemma_withdrawn_wf(me, originate::withdrawn_keys(hs, me.router_id, Seq::empty()), now);
    match originate::connected_rule(rs, 0) {
        Some(rule) => {
            let map = match rule.route_map {
                None => None,
                Some(n) => originate::map_named(me.route_maps, n, 0),
            };
            let kept = originate::announced(es, ss, map);
            let keep = originate::kept_ids(kept, ss);
            lemma_withdrawn_wf(me, originate::withdrawn_keys(hs, me.router_id, keep), now);
            lemma_external_lsas_wf(
                me.flushed_outside(keep, now),
                kept,
                rule.metric,
                rule.metric_type,
                now,
            );
        },
        None => {},
    }
}

/// Announcing summary ranges keeps everything distinct.
pub proof fn lemma_aggregates_wf(me: OspfInstanceView, ss: Seq<ParsedSummaryAddress>, now: u64)
    requires
        me.wf(),
    ensures
        me.aggregates(ss, now).0.wf(),
    decreases ss.len(),
{
    if ss.len() > 0 {
        lemma_aggregates_wf(me, ss.drop_last(), now);
        let s = ss.last();
        lemma_issued_external_wf(
            me.aggregates(ss.drop_last(), now).0,
            s.prefix,
            AsExternalLsa {
                network_mask: crate::prefix::mask_v4(s.prefix_len as int),
                metric_type_2: s.metric_type == 2,
                metric: s.metric,
                forwarding_address: 0,
                external_route_tag: s.tag,
            },
            now,
        );
    }
}

proof fn lemma_recovered_wf(me: OspfInstanceView, area_id: u32, hs: Seq<LsaHeader>)
    requires
        me.wf(),
    ensures
        me.recovered_all(area_id, hs).0.wf(),
        me.recovered_all(area_id, hs).0.interfaces == me.interfaces,
    decreases hs.len(),
{
    if hs.len() > 0 {
        lemma_recovered_wf(me, area_id, hs.drop_last());
        let front = me.recovered_all(area_id, hs.drop_last()).0;
        let h = hs.last();
        front.as_external_lsdb.lemma_wf_kept(
            arbitrary(),
            h.spec_key(),
            h.ls_sequence_number,
            0,
        );
        flooding::lemma_area_pos(front.areas, area_id, 0);
        match instance::area_pos(front.areas, area_id, 0) {
            Some(a) => {
                let d = front.areas[a].lsdb;
                d.lemma_wf_kept(arbitrary(), h.spec_key(), h.ls_sequence_number, 0);
                lemma_with_db(front, a, d.bump_seq(h.spec_key(), h.ls_sequence_number));
            },
            None => {},
        }
    }
}

proof fn lemma_dd_wf(
    me: OspfInstanceView,
    i: int,
    src: u32,
    peer: u32,
    d: dd::DbDescView,
    now: u64,
)
    requires
        me.wf(),
        0 <= i < me.interfaces.len(),
    ensures
        me.after_dd(i, src, peer, d, now).0.wf(),
{
    let area_id = me.interfaces[i].area_id;
    lemma_recovered_wf(me, area_id, d.lsa_headers);
    let t = me.compared(area_id, d.lsa_headers, now);
    assert(t.wf());
    let f = t.interfaces[i];
    interface::lemma_neighbor_pos(f.neighbors, peer, 0);
    match interface::neighbor_pos(f.neighbors, peer, 0) {
        None => {},
        Some(j) => {
            let g = me.after_dd(i, src, peer, d, now).0.interfaces[i];
            assert(same_ids(f.neighbors, g.neighbors));
            lemma_same_ids(f, g);
            lemma_with_iface(t, i, g);
        },
    }
}

proof fn lemma_lsr_wf(
    me: OspfInstanceView,
    i: int,
    src: u32,
    peer: u32,
    ks: Seq<LsaKey>,
    now: u64,
)
    requires
        me.wf(),
        0 <= i < me.interfaces.len(),
    ensures
        me.after_lsr(i, src, peer, ks, now).0.wf(),
{
    let f = me.interfaces[i];
    interface::lemma_neighbor_pos(f.neighbors, peer, 0);
    match interface::neighbor_pos(f.neighbors, peer, 0) {
        None => {},
        Some(j) => {
            let g = interface::OspfInterfaceView {
                neighbors: f.neighbors.update(
                    j,
                    f.neighbors[j].after(NeighborEvent::BadLsReq, false, now),
                ),
                ..f
            };
            lemma_same_ids(f, g);
            lemma_with_iface(me, i, g);
        },
    }
}

proof fn lemma_installed_wf(me: OspfInstanceView, area_id: u32, l: lsa::LsaView, now: u64)
    requires
        me.wf(),
    ensures
        me.installed_in(area_id, l, now).wf(),
        me.installed_in(area_id, l, now).interfaces == me.interfaces,
{
    me.as_external_lsdb.lemma_wf_kept(l, l.header.spec_key(), 0, now);
    flooding::lemma_area_pos(me.areas, area_id, 0);
    match instance::area_pos(me.areas, area_id, 0) {
        Some(a) => {
            let d = me.areas[a].lsdb;
            d.lemma_wf_kept(l, l.header.spec_key(), 0, now);
            lemma_with_db(me, a, d.install(l, now));
        },
        None => {},
    }
}

proof fn lemma_supplied_wf(me: OspfInstanceView, i: int, peer: u32, k: LsaKey, now: u64)
    requires
        me.wf(),
        0 <= i < me.interfaces.len(),
    ensures
        me.supplied(i, peer, k, now).0.wf(),
        me.supplied(i, peer, k, now).0.interfaces.len() == me.interfaces.len(),
{
    let f = me.interfaces[i];
    interface::lemma_neighbor_pos(f.neighbors, peer, 0);
    match interface::neighbor_pos(f.neighbors, peer, 0) {
        None => {},
        Some(j) => {
            let g = interface::OspfInterfaceView {
                neighbors: f.neighbors.update(j, f.neighbors[j].supplied(k, now).0),
                ..f
            };
            lemma_same_ids(f, g);
            lemma_with_iface(me, i, g);
        },
    }
}

proof fn lemma_lsu_progress_wf(
    me: OspfInstanceView,
    i: int,
    src: u32,
    peer: u32,
    ls: Seq<lsa::LsaView>,
    now: u64,
)
    requires
        me.wf(),
        0 <= i < me.interfaces.len(),
    ensures
        me.lsu_progress(i, src, peer, ls, now).inst.wf(),
        me.lsu_progress(i, src, peer, ls, now).inst.interfaces.len() == me.interfaces.len(),
    decreases ls.len(),
{
    if ls.len() > 0 {
        lemma_lsu_progress_wf(me, i, src, peer, ls.drop_last(), now);
        let p = me.lsu_progress(i, src, peer, ls.drop_last(), now);
        let id = me.interfaces[i].area_id;
        let l = ls.last();
        lemma_installed_wf(p.inst, id, l, now);
        lemma_supplied_wf(
            p.inst.installed_in(id, l, now),
            i,
            peer,
            l.header.spec_key(),
            now,
        );
    }
}

/// Whatever packet arrives, everything stays distinct.
pub proof fn lemma_packet_wf(
    me: OspfInstanceView,
    idx: u32,
    src: u32,
    p: packet::OspfPacketView,
    now: u64,
)
    requires
        me.wf(),
    ensures
        me.after_packet(idx, src, p, now).0.wf(),
{
    lemma_iface_pos(me.interfaces, idx, 0);
    match instance::iface_pos(me.interfaces, idx, 0) {
        None => {},
        Some(i) => match p {
            packet::OspfPacketView::Hello(h, b) => {
                lemma_hello_wf(me.interfaces[i], me.router_id, src, h.router_id, b, now);
                lemma_with_iface(
                    me,
                    i,
                    me.interfaces[i].after_hello(me.router_id, src, h.router_id, b, now),
                );
            },
            packet::OspfPacketView::DatabaseDescription(h, b) => {
                lemma_dd_wf(me, i, src, h.router_id, b, now);
            },
            packet::OspfPacketView::LinkStateRequest(h, b) => {
                lemma_lsr_wf(me, i, src, h.router_id, b, now);
            },
            packet::OspfPacketView::LinkStateUpdate(h, b) => {
                lemma_lsu_progress_wf(me, i, src, h.router_id, b, now);
                let q = me.lsu_progress(i, src, h.router_id, b, now).inst;
                lemma_router_lsas_wf(q, now);
                let r = q.with_router_lsas(now);
                lemma_network_lsas_wf(r, r.interfaces, now);
            },
            packet::OspfPacketView::LinkStateAck(_, _) => {},
        },
    }
}

/// Timers keep everything distinct: Hellos, the end of waiting, first and repeated packets of
/// exchanges, silent neighbors and aging LSAs.
pub proof fn lemma_timers_wf(me: OspfInstanceView, now: u64)
    requires
        me.wf(),
    ensures
        me.greeted_all(now).wf(),
        me.waited_all(now).wf(),
        me.opened_all(now).wf(),
        me.requested_all(now).wf(),
        me.after_neighbor_tick(now).wf(),
        me.after_lsdb_tick(now).wf(),
{
    assert forall|k: int| 0 <= k < me.interfaces.len() implies (
    #[trigger] me.greeted_all(now).interfaces[k]).wf() by {
        lemma_same_ids(me.interfaces[k], me.interfaces[k].greeting(now));
    }
    assert forall|k: int| 0 <= k < me.interfaces.len() implies (
    #[trigger] me.waited_all(now).interfaces[k]).wf() by {
        me.interfaces[k].lemma_after_wf(InterfaceEvent::WaitTimer, now);
    }
    assert forall|k: int| 0 <= k < me.interfaces.len() implies (
    #[trigger] me.opened_all(now).interfaces[k]).wf() by {
        lemma_same_ids(me.interfaces[k], me.interfaces[k].after_openings(now));
    }
    assert forall|k: int| 0 <= k < me.interfaces.len() implies (
    #[trigger] me.requested_all(now).interfaces[k]).wf() by {
        lemma_same_ids(me.interfaces[k], me.interfaces[k].after_requests(now));
    }
    let t = me.after_silence(now);
    assert forall|k: int| 0 <= k < me.interfaces.len() implies (#[trigger] t.interfaces[k]).wf() by {
        lemma_lost_all_wf(me.interfaces[k], me.interfaces[k].silent(now), now);
    }
    lemma_router_lsas_wf(t, now);
    lemma_router_lsas_wf(me, now);
    lemma_purged_wf(me, now);
    lemma_purged_wf(me.with_router_lsas(now), now);
}

proof fn lemma_purged_wf(me: OspfInstanceView, now: u64)
    requires
        me.wf(),
    ensures
        me.purged(now).wf(),
{
    let r = me.purged(now);
    me.as_external_lsdb.lemma_wf_kept(arbitrary(), lsdb::router_key(0), 0, now);
    assert forall|k: int| 0 <= k < r.areas.len() implies (#[trigger] r.areas[k]).lsdb.wf()
        && r.areas[k].area_id == me.areas[k].area_id by {
        me.areas[k].lsdb.lemma_wf_kept(arbitrary(), lsdb::router_key(0), 0, now);
    }
    assert forall|i: int, j: int| 0 <= i < j < r.areas.len() implies (#[trigger] r.areas[i]).area_id
        != (#[trigger] r.areas[j]).area_id by {
        assert(me.areas[i].area_id != me.areas[j].area_id);
    }
}

proof fn lemma_snapped_wf(me: OspfInstanceView, ss: Seq<Snapshot>, now: u64)
    requires
        me.wf(),
    ensures
        me.snapped_all(ss, now).0.wf(),
    decreases ss.len(),
{
    if ss.len() > 0 {
        lemma_snapped_wf(me, ss.drop_last(), now);
        let front = me.snapped_all(ss.drop_last(), now).0;
        let s = ss.last();
        lemma_iface_pos(front.interfaces, s.sw_if_index, 0);
        match instance::iface_pos(front.interfaces, s.sw_if_index, 0) {
            None => {},
            Some(i) => {
                let t = s.settings();
                lemma_refreshed_wf(front.interfaces[i], t.0, t.1, t.2, now);
                lemma_with_iface(front, i, front.interfaces[i].refreshed(t.0, t.1, t.2, now).0);
            },
        }
    }
}

/// Looking at the interfaces anew keeps everything distinct.
pub proof fn lemma_refresh_wf(me: OspfInstanceView, ss: Seq<Snapshot>, now: u64)
    requires
        me.wf(),
    ensures
        me.after_refresh(ss, now).wf(),
{
    lemma_snapped_wf(me, ss, now);
    lemma_router_lsas_wf(me.snapped_all(ss, now).0, now);
}

proof fn lemma_retuned_wf(is: Seq<interface::OspfInterfaceView>, cs: Seq<OspfInterfaceConfig>)
    requires
        forall|k: int| 0 <= k < is.len() ==> (#[trigger] is[k]).wf(),
    ensures
        reload::retuned_all(is, cs).0.len() == is.len(),
        forall|k: int| 0 <= k < is.len() ==> (#[trigger] reload::retuned_all(is, cs).0[k]).wf(),
    decreases cs.len(),
{
    if cs.len() > 0 {
        lemma_retuned_wf(is, cs.drop_last());
        let before = reload::retuned_all(is, cs.drop_last()).0;
        match reload::name_pos(before, cs.last().name@, 0) {
            Some(i) => {
                lemma_name_pos_range(before, cs.last().name@, 0);
                lemma_same_ids(before[i], before[i].retuned(cs.last()));
            },
            None => {},
        }
    }
}

proof fn lemma_name_pos_range(is: Seq<interface::OspfInterfaceView>, name: Seq<char>, from: int)
    requires
        0 <= from,
    ensures
        reload::name_pos(is, name, from) matches Some(i) ==> from <= i < is.len(),
    decreases is.len() - from,
{
    if from < is.len() && is[from].name != name {
        lemma_name_pos_range(is, name, from + 1);
    }
}

/// A new configuration keeps everything distinct.
pub proof fn lemma_reannounced_wf(
    me: OspfInstanceView,
    es: Seq<originate::ExternalView>,
    now: u64,
)
    requires
        me.wf(),
    ensures
        me.reannounced(es, now).0.wf(),
{
    let r = me.redistributed(me.redistribute, es, me.summary_addresses, now);
    lemma_redistributed_wf(me, me.redistribute, es, me.summary_addresses, now);
    lemma_aggregates_wf(r.0, me.summary_addresses, now);
    match me.own_default(now) {
        Some(b) => {
            lemma_issued_external_wf(r.0.aggregates(me.summary_addresses, now).0, 0, b, now);
        },
        None => {},
    }
}

pub proof fn lemma_reload_wf(me: OspfInstanceView, c: OspfDaemonConfig, now: u64)
    requires
        me.wf(),
    ensures
        me.reconfigured(c, now).0.wf(),
{
    lemma_retuned_wf(me.interfaces, c.interfaces@);
    let t = OspfInstanceView {
        interfaces: reload::retuned_all(me.interfaces, c.interfaces@).0,
        summary_addresses: c.summary_addresses@,
        redistribute: crate::wire::views(c.redistribute@),
        ..me
    };
    assert(t.wf());
    lemma_router_lsas_wf(t, now);
}

spec fn areas_distinct(s: Seq<area::AreaView>) -> bool {
    &&& forall|i: int, j: int|
        0 <= i < j < s.len() ==> (#[trigger] s[i]).area_id != (#[trigger] s[j]).area_id
    &&& forall|i: int| 0 <= i < s.len() ==> (#[trigger] s[i]).lsdb.wf()
}

proof fn lemma_with_area(
    s: Seq<area::AreaView>,
    id: u32,
    setting: (area::AreaType, u32),
    router_id: u32,
)
    requires
        areas_distinct(s),
    ensures
        areas_distinct(instance::with_area(s, id, setting, router_id)),
{
    flooding::lemma_area_pos(s, id, 0);
}

proof fn lemma_configured_areas(
    is: Seq<OspfInterfaceConfig>,
    cs: Seq<AreaConfig>,
    router_id: u32,
)
    ensures
        areas_distinct(instance::configured_areas(is, cs, router_id)),
    decreases is.len(),
{
    if is.len() > 0 {
        lemma_configured_areas(is.drop_last(), cs, router_id);
        lemma_with_area(
            instance::configured_areas(is.drop_last(), cs, router_id),
            is.last().area_id,
            instance::area_setting(cs, is.last().area_id),
            router_id,
        );
    }
}

proof fn lemma_configured_interfaces(is: Seq<OspfInterfaceConfig>, router_id: u32)
    ensures
        forall|k: int|
            0 <= k < instance::configured_interfaces(is, router_id).len() ==> (
            #[trigger] instance::configured_interfaces(is, router_id)[k]).wf(),
    decreases is.len(),
{
    if is.len() > 0 {
        lemma_configured_interfaces(is.drop_last(), router_id);
        let a = instance::configured_interfaces(is.drop_last(), router_id);
        let b = instance::configured_interfaces(is, router_id);
        assert(instance::configured_interface(is.last(), router_id).wf());
        assert forall|k: int| 0 <= k < b.len() implies (#[trigger] b[k]).wf() by {
            if k < a.len() {
                assert(b[k] == a[k]);
            }
        }
    }
}

/// An instance starts out with everything distinct, and the backbone among its areas.
pub proof fn lemma_configured_wf(c: OspfDaemonConfig)
    ensures
        OspfInstanceView::configured(c).wf(),
        instance::area_pos(OspfInstanceView::configured(c).areas, 0, 0) is Some,
{
    let r = OspfInstanceView::configured(c);
    lemma_configured_areas(c.interfaces@, c.areas@, c.router_id);
    let before = instance::configured_areas(c.interfaces@, c.areas@, c.router_id);
    lemma_configured_interfaces(c.interfaces@, c.router_id);
    flooding::lemma_area_pos(before, 0, 0);
    flooding::lemma_area_pos(r.areas, 0, 0);
    if instance::area_pos(before, 0, 0) is None {
        assert(r.areas[before.len() as int].area_id == 0);
    }
}

/// Resolving interfaces and issuing the first LSAs keeps everything distinct.
pub proof fn lemma_launched_wf(
    me: OspfInstanceView,
    found: Seq<setup::FoundInterfaceView>,
    c: OspfDaemonConfig,
    es: Seq<originate::ExternalView>,
    now: u64,
)
    requires
        me.wf(),
    ensures
        me.resolved(found).wf(),
        me.launched(c, es, now).wf(),
{
    assert forall|k: int| 0 <= k < me.interfaces.len() implies (
    #[trigger] me.resolved(found).interfaces[k]).wf() by {
        lemma_same_ids(me.interfaces[k], me.interfaces[k].resolved(found));
    }
    let up = me.brought_up(now);
    assert forall|k: int| 0 <= k < me.interfaces.len() implies (#[trigger] up.interfaces[k]).wf() by {
        me.interfaces[k].lemma_after_wf(InterfaceEvent::InterfaceUp, now);
    }
    lemma_router_lsas_wf(up, now);
    let a = up.with_router_lsas(now);
    lemma_redistributed_wf(a, a.redistribute, es, c.summary_addresses@, now);
    let b = a.redistributed(a.redistribute, es, c.summary_addresses@, now).0;
    lemma_aggregates_wf(b, c.summary_addresses@, now);
    lemma_issued_external_wf(
        b.aggregates(c.summary_addresses@, now).0,
        0,
        AsExternalLsa {
            network_mask: 0,
            metric_type_2: c.default_originate_metric_type == 2,
            metric: c.default_originate_metric,
            forwarding_address: 0,
            external_route_tag: 0,
        },
        now,
    );
}

} // verus!
