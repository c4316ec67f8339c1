//! What holds of the instance as a whole.
use vstd::prelude::*;

use crate::area::AreaType;
use crate::config::{Ospf6DaemonConfig, Ospf6InterfaceConfig};
use crate::instance_v3;
use crate::instance_v3::exchange;
use crate::instance_v3::flooding;
use crate::instance_v3::originate;
use crate::instance_v3::reload;
use crate::instance_v3::{
    InstanceV3View, InterfaceStateV3, InterfaceV3View, NeighborStateV3, NeighborV3View,
};
use crate::lsdb_v3::{LsaEntryV3View, LsdbV3View};
use crate::packet_v3::dd::DbDescV3View;
use crate::packet_v3::lsa;
use crate::packet_v3::lsu::LsaV3RawView;
use crate::packet_v3::{LsaV3Header, LsaV3Type, Options};
use crate::wire;

verus! {

/// Whether the interface differs in nothing but its timers and priority, and in asking for our LSAs
/// to be originated anew.
pub open spec fn only_retuned(a: InterfaceV3View, b: InterfaceV3View) -> bool {
    b == InterfaceV3View {
        priority: b.priority,
        needs_router_lsa_refresh: b.needs_router_lsa_refresh,
        hello_interval: b.hello_interval,
        dead_interval: b.dead_interval,
        retransmit_interval: b.retransmit_interval,
        transmit_delay: b.transmit_delay,
        ..a
    }
}

proof fn lemma_name_pos(ifs: Seq<InterfaceV3View>, name: Seq<char>, from: int)
    requires
        0 <= from,
    ensures
        match reload::name_pos(ifs, name, from) {
            Some(i) => from <= i < ifs.len() && ifs[i].io.name == name && forall|j: int|
                from <= j < i ==> (#[trigger] ifs[j]).io.name != name,
            None => forall|j: int| from <= j < ifs.len() ==> (#[trigger] ifs[j]).io.name != name,
        },
    decreases ifs.len() - from,
{
    if from < ifs.len() && ifs[from].io.name != name {
        lemma_name_pos(ifs, name, from + 1);
    }
}

pub(super) proof fn lemma_retuned_all(ifs: Seq<InterfaceV3View>, cs: Seq<Ospf6InterfaceConfig>)
    ensures
        reload::retuned_all(ifs, cs).0.len() == ifs.len(),
        forall|k: int|
            0 <= k < ifs.len() ==> only_retuned(
                ifs[k],
                #[trigger] reload::retuned_all(ifs, cs).0[k],
            ),
    decreases cs.len(),
{
    if cs.len() > 0 {
        lemma_retuned_all(ifs, cs.drop_last());
        lemma_name_pos(reload::retuned_all(ifs, cs.drop_last()).0, cs.last().name@, 0);
    }
}

/// A new configuration, taken over while running, touches nothing but the timers and priorities of
/// interfaces, and replaces the redistribution rules and summary ranges as a whole. Router id, area
/// types, areas, network types, neighbors, the database and the set of interfaces stay.
pub proof fn lemma_reload_scope(me: InstanceV3View, c: Ospf6DaemonConfig)
    ensures
        ({
            let r = me.reconfigured(c).0;
            &&& r.router_id == me.router_id
            &&& r.vrf_name == me.vrf_name
            &&& r.lsdb == me.lsdb
            &&& r.area_types == me.area_types
            &&& r.redistribute == wire::views(c.redistribute@)
            &&& r.summary_addresses == c.summary_addresses@
            &&& r.interfaces.len() == me.interfaces.len()
            &&& forall|k: int|
                0 <= k < me.interfaces.len() ==> only_retuned(
                    me.interfaces[k],
                    #[trigger] r.interfaces[k],
                )
        }),
{
    lemma_retuned_all(me.interfaces, c.interfaces@);
}

proof fn lemma_untouched(ifs: Seq<InterfaceV3View>, cs: Seq<Ospf6InterfaceConfig>, i: int)
    requires
        0 <= i < ifs.len(),
        forall|j: int| 0 <= j < cs.len() ==> (#[trigger] cs[j]).name@ != ifs[i].io.name,
    ensures
        reload::retuned_all(ifs, cs).0[i] == ifs[i],
    decreases cs.len(),
{
    if cs.len() > 0 {
        let front = cs.drop_last();
        assert forall|j: int| 0 <= j < front.len() implies (#[trigger] front[j]).name@
            != ifs[i].io.name by {
            assert(front[j] == cs[j]);
        }
        lemma_untouched(ifs, front, i);
        lemma_retuned_all(ifs, front);
        lemma_name_pos(reload::retuned_all(ifs, front).0, cs.last().name@, 0);
        assert(cs[cs.len() - 1].name@ != ifs[i].io.name);
    }
}

proof fn lemma_retuned_as(
    ifs: Seq<InterfaceV3View>,
    cs: Seq<Ospf6InterfaceConfig>,
    i: int,
    k: int,
)
    requires
        0 <= i < ifs.len(),
        0 <= k < cs.len(),
        ifs[i].io.name == cs[k].name@,
        forall|j: int| 0 <= j < ifs.len() && j != i ==> (#[trigger] ifs[j]).io.name != ifs[i].io.name,
        forall|j: int| 0 <= j < cs.len() && j != k ==> (#[trigger] cs[j]).name@ != cs[k].name@,
    ensures
        reload::retuned_all(ifs, cs).0[i] == ifs[i].retuned(cs[k]),
    decreases cs.len(),
{
    let front = cs.drop_last();
    let before = reload::retuned_all(ifs, front).0;
    lemma_retuned_all(ifs, front);
    assert forall|j: int| 0 <= j < ifs.len() implies (#[trigger] before[j]).io.name
        == ifs[j].io.name by {
        assert(only_retuned(ifs[j], before[j]));
    }
    lemma_name_pos(before, cs.last().name@, 0);
    if k < cs.len() - 1 {
        assert(front[k] == cs[k]);
        assert forall|j: int| 0 <= j < front.len() && j != k implies (#[trigger] front[j]).name@
            != front[k].name@ by {
            assert(front[j] == cs[j]);
        }
        lemma_retuned_as(ifs, front, i, k);
        assert(cs[cs.len() - 1].name@ != cs[k].name@);
    } else {
        lemma_untouched(ifs, front, i);
        assert(before[i].io.name == cs.last().name@);
    }
}

/// An interface that the configuration names once gets the configured timers and priority.
pub proof fn lemma_reload_applies(me: InstanceV3View, c: Ospf6DaemonConfig, i: int, k: int)
    requires
        0 <= i < me.interfaces.len(),
        0 <= k < c.interfaces@.len(),
        me.interfaces[i].io.name == c.interfaces@[k].name@,
        forall|j: int|
            0 <= j < me.interfaces.len() && j != i ==> (#[trigger] me.interfaces[j]).io.name
                != me.interfaces[i].io.name,
        forall|j: int|
            0 <= j < c.interfaces@.len() && j != k ==> (#[trigger] c.interfaces@[j]).name@
                != c.interfaces@[k].name@,
    ensures
        me.reconfigured(c).0.interfaces[i] == me.interfaces[i].retuned(c.interfaces@[k]),
{
    lemma_retuned_as(me.interfaces, c.interfaces@, i, k);
}

/// An interface that the configuration does not name stays as it is.
pub proof fn lemma_reload_spares(me: InstanceV3View, c: Ospf6DaemonConfig, i: int)
    requires
        0 <= i < me.interfaces.len(),
        forall|j: int|
            0 <= j < c.interfaces@.len() ==> (#[trigger] c.interfaces@[j]).name@
                != me.interfaces[i].io.name,
    ensures
        me.reconfigured(c).0.interfaces[i] == me.interfaces[i],
{
    lemma_untouched(me.interfaces, c.interfaces@, i);
}

proof fn lemma_same_names(
    ifs: Seq<InterfaceV3View>,
    others: Seq<InterfaceV3View>,
    name: Seq<char>,
    from: int,
)
    requires
        0 <= from,
        ifs.len() == others.len(),
        forall|j: int| 0 <= j < ifs.len() ==> (#[trigger] ifs[j]).io.name == others[j].io.name,
    ensures
        reload::name_pos(ifs, name, from) == reload::name_pos(others, name, from),
    decreases ifs.len() - from,
{
    if from < ifs.len() {
        assert(ifs[from].io.name == others[from].io.name);
        lemma_same_names(ifs, others, name, from + 1);
    }
}

/// Whether no interface is configured twice.
pub open spec fn named_once(cs: Seq<Ospf6InterfaceConfig>) -> bool {
    forall|i: int, j: int|
        0 <= i < j < cs.len() ==> (#[trigger] cs[i]).name@ != (#[trigger] cs[j]).name@
}

proof fn lemma_tuned(ifs: Seq<InterfaceV3View>, cs: Seq<Ospf6InterfaceConfig>, k: int)
    requires
        named_once(cs),
        0 <= k < cs.len(),
    ensures
        ({
            let tuned = reload::retuned_all(ifs, cs).0;
            reload::name_pos(tuned, cs[k].name@, 0) matches Some(i) ==> !tuned[i].differs_from(cs[k])
        }),
    decreases cs.len(),
{
    let front = cs.drop_last();
    let last = cs.last();
    let before = reload::retuned_all(ifs, front).0;
    let tuned = reload::retuned_all(ifs, cs).0;
    lemma_name_pos(before, last.name@, 0);
    lemma_name_pos(tuned, cs[k].name@, 0);
    assert forall|j: int| 0 <= j < before.len() implies (#[trigger] before[j]).io.name
        == tuned[j].io.name by {}
    lemma_same_names(before, tuned, cs[k].name@, 0);
    if k < cs.len() - 1 {
        assert forall|i: int, j: int| 0 <= i < j < front.len() implies (#[trigger] front[i]).name@
            != (#[trigger] front[j]).name@ by {
            assert(front[i] == cs[i] && front[j] == cs[j]);
        }
        assert(front[k] == cs[k]);
        lemma_tuned(ifs, front, k);
        assert(cs[k].name@ != cs[cs.len() - 1].name@);
    }
}

proof fn lemma_settled(ifs: Seq<InterfaceV3View>, cs: Seq<Ospf6InterfaceConfig>)
    requires
        forall|k: int|
            0 <= k < cs.len() ==> (reload::name_pos(ifs, (#[trigger] cs[k]).name@, 0) matches Some(i)
                ==> !ifs[i].differs_from(cs[k])),
    ensures
        reload::retuned_all(ifs, cs) == (ifs, false),
    decreases cs.len(),
{
    if cs.len() > 0 {
        let front = cs.drop_last();
        assert forall|k: int| 0 <= k < front.len() implies (reload::name_pos(
            ifs,
            (#[trigger] front[k]).name@,
            0,
        ) matches Some(i) ==> !ifs[i].differs_from(front[k])) by {
            assert(front[k] == cs[k]);
        }
        lemma_settled(ifs, front);
        lemma_name_pos(ifs, cs.last().name@, 0);
        assert(cs[cs.len() - 1] == cs.last());
        if let Some(i) = reload::name_pos(ifs, cs.last().name@, 0) {
            assert(ifs[i].retuned(cs.last()) == ifs[i]);
            assert(ifs.update(i, ifs[i]) =~= ifs);
        }
    }
}

/// Applying a configuration a second time changes nothing and reports no change.
pub proof fn lemma_reload_settles(me: InstanceV3View, c: Ospf6DaemonConfig)
    requires
        named_once(c.interfaces@),
    ensures
        ({
            let once = me.reconfigured(c).0;
            once.reconfigured(c) == (once, false)
        }),
{
    let once = me.reconfigured(c).0;
    assert forall|k: int| 0 <= k < c.interfaces@.len() implies (reload::name_pos(
        once.interfaces,
        (#[trigger] c.interfaces@[k]).name@,
        0,
    ) matches Some(i) ==> !once.interfaces[i].differs_from(c.interfaces@[k])) by {
        lemma_tuned(me.interfaces, c.interfaces@, k);
    }
    lemma_settled(once.interfaces, c.interfaces@);
}

/// A description packet of an exchange carries the next headers and no more than fit into it; it
/// announces more exactly if some are left, and it is marked as the master's exactly if we are.
pub proof fn lemma_page(n: NeighborV3View, mtu: u16, now: u64)
    requires
        n.state == NeighborStateV3::Exchange,
    ensures
        ({
            let d = n.next_dd(mtu);
            let after = n.after_dd(mtu, now);
            &&& d.lsa_headers + after.dd_summary_tx == n.dd_summary_tx
            &&& d.lsa_headers.len() <= exchange::headers_per_packet(mtu)
            &&& d.has_more() <==> after.dd_summary_tx.len() > 0
            &&& d.is_master() == n.dd_master
            &&& !d.is_init()
            &&& d.dd_sequence_number == n.dd_seq
        }),
{
    let d = n.next_dd(mtu);
    assert(d.lsa_headers + n.after_dd(mtu, now).dd_summary_tx =~= n.dd_summary_tx);
    let f = d.flags;
    assert(f == 0 || f == 1 || f == 2 || f == 3);
    assert(0u8 & 4 == 0 && 1u8 & 4 == 0 && 2u8 & 4 == 0 && 3u8 & 4 == 0) by (bit_vector);
    assert(0u8 & 2 == 0 && 1u8 & 2 == 0 && 2u8 & 2 != 0 && 3u8 & 2 != 0) by (bit_vector);
    assert(0u8 & 1 == 0 && 1u8 & 1 != 0 && 2u8 & 1 == 0 && 3u8 & 1 != 0) by (bit_vector);
}

/// The packet that opens an exchange has all three flags set and describes nothing, so that the
/// peer takes it for one.
pub proof fn lemma_opening(n: NeighborV3View, mtu: u16)
    requires
        n.state == NeighborStateV3::ExStart,
    ensures
        n.numbered().next_dd(mtu).is_fresh_init(),
        n.numbered().next_dd(mtu).dd_sequence_number != 0,
{
    assert(7u8 & 1 != 0 && 7u8 & 2 != 0 && 7u8 & 4 != 0) by (bit_vector);
}

/// The neighbor after `k` description packets and the headers that they carried.
pub open spec fn paged(n: NeighborV3View, mtu: u16, now: u64, k: nat) -> (
    NeighborV3View,
    Seq<LsaV3Header>,
)
    decreases k,
{
    if k == 0 {
        (n, Seq::empty())
    } else {
        let before = paged(n, mtu, now, (k - 1) as nat);
        (before.0.after_dd(mtu, now), before.1 + before.0.next_dd(mtu).lsa_headers)
    }
}

/// However many packets it takes, the headers go out once each and in order; once there were enough
/// packets, nothing is left.
pub proof fn lemma_paging(n: NeighborV3View, mtu: u16, now: u64, k: nat)
    requires
        n.state == NeighborStateV3::Exchange,
    ensures
        ({
            let per = exchange::headers_per_packet(mtu);
            let (after, sent) = paged(n, mtu, now, k);
            &&& after.state == NeighborStateV3::Exchange
            &&& sent + after.dd_summary_tx == n.dd_summary_tx
            &&& k * per >= n.dd_summary_tx.len() ==> sent == n.dd_summary_tx
            &&& after.dd_summary_tx.len() == (if k * per >= n.dd_summary_tx.len() {
                0
            } else {
                n.dd_summary_tx.len() - k * per
            })
        }),
    decreases k,
{
    let per = exchange::headers_per_packet(mtu);
    if k > 0 {
        let before = paged(n, mtu, now, (k - 1) as nat);
        let after = paged(n, mtu, now, k);
        lemma_paging(n, mtu, now, (k - 1) as nat);
        lemma_page(before.0, mtu, now);
        let d = before.0.next_dd(mtu);
        assert((before.1 + d.lsa_headers) + after.0.dd_summary_tx =~= before.1 + (d.lsa_headers
            + after.0.dd_summary_tx));
        assert(k * per == (k - 1) * per + per) by (nonlinear_arith)
            requires
                k > 0,
        ;
        assert(after.0.dd_summary_tx.len() == 0 ==> after.1 =~= n.dd_summary_tx);
    } else {
        assert(Seq::<LsaV3Header>::empty() + n.dd_summary_tx =~= n.dd_summary_tx);
        assert(k * per == 0) by (nonlinear_arith)
            requires
                k == 0,
        ;
        assert(n.dd_summary_tx.len() == 0 ==> n.dd_summary_tx =~= Seq::empty());
    }
}

/// An exchange ends exactly when a packet of ours went out that left nothing to describe and the
/// peer has described everything; until then the neighbor stays in the exchange.
pub proof fn lemma_exchange_deferred(n: NeighborV3View, ours: Seq<LsaV3Header>, now: u64)
    requires
        n.state == NeighborStateV3::Exchange,
    ensures
        ({
            let (r, done) = n.dd_step(ours, now);
            &&& done <==> n.dd_due(now) && n.dd_peer_done && n.dd_summary_tx.len()
                <= exchange::headers_per_packet(1500)
            &&& !done ==> r.state == NeighborStateV3::Exchange
            &&& done ==> r.dd_summary_tx.len() == 0
            &&& done ==> (r.state == NeighborStateV3::Full <==> r.request_list.len() == 0)
            &&& done ==> (r.state == NeighborStateV3::Loading <==> r.request_list.len() > 0)
            &&& done ==> r.request_list == exchange::requests_for(ours, n.dd_summary_recv)
        }),
{
}

/// A description packet never ends the exchange by itself: we describe our own database first.
pub proof fn lemma_described_stays(
    n: NeighborV3View,
    me: u32,
    d: DbDescV3View,
    ours: Seq<LsaV3Header>,
)
    requires
        n.state == NeighborStateV3::ExStart || n.state == NeighborStateV3::Exchange,
    ensures
        ({
            let r = n.described(me, d, ours);
            r.state == NeighborStateV3::ExStart || r.state == NeighborStateV3::Exchange
        }),
{
}

/// The router with the higher id becomes master, and only it.
pub proof fn lemma_master_has_higher_id(
    n: NeighborV3View,
    me: u32,
    d: DbDescV3View,
    ours: Seq<LsaV3Header>,
)
    requires
        n.state == NeighborStateV3::ExStart,
        n.described(me, d, ours).state == NeighborStateV3::Exchange,
    ensures
        n.described(me, d, ours).dd_master == (me > n.router_id),
        me != n.router_id,
        n.described(me, d, ours).dd_summary_tx == ours,
{
}

/// The requests are exactly the described headers that we lack or hold in an older instance.
pub proof fn lemma_requests_exact(
    ours: Seq<LsaV3Header>,
    described: Seq<LsaV3Header>,
    h: LsaV3Header,
)
    ensures
        exchange::requests_for(ours, described).contains(h) <==> described.contains(h)
            && exchange::needed(ours, h),
    decreases described.len(),
{
    let all = exchange::requests_for(ours, described);
    if described.len() > 0 {
        let rest = described.drop_last();
        let front = exchange::requests_for(ours, rest);
        lemma_requests_exact(ours, rest, h);
        if rest.contains(h) {
            let i = choose|i: int| 0 <= i < rest.len() && rest[i] == h;
            assert(described[i] == h);
        }
        if described.contains(h) {
            let i = choose|i: int| 0 <= i < described.len() && described[i] == h;
            if i < rest.len() {
                assert(rest[i] == h);
            } else if exchange::needed(ours, h) {
                assert(all[all.len() - 1] == h);
            }
        }
        if front.contains(h) {
            let i = choose|i: int| 0 <= i < front.len() && front[i] == h;
            assert(all[i] == h);
        }
        if all.contains(h) {
            let i = choose|i: int| 0 <= i < all.len() && all[i] == h;
            if i < front.len() {
                assert(front[i] == h);
            } else {
                assert(described[described.len() - 1] == h);
            }
        }
    }
}

/// What is left of the requests is exactly what no arrived LSA answers.
pub proof fn lemma_unanswered_exact(
    list: Seq<LsaV3Header>,
    answered: Seq<LsaV3Header>,
    h: LsaV3Header,
)
    ensures
        flooding::unanswered(list, answered).contains(h) <==> list.contains(h)
            && !flooding::named_in(answered, h),
    decreases list.len(),
{
    let all = flooding::unanswered(list, answered);
    if list.len() > 0 {
        let rest = list.drop_last();
        let front = flooding::unanswered(rest, answered);
        lemma_unanswered_exact(rest, answered, h);
        if rest.contains(h) {
            let i = choose|i: int| 0 <= i < rest.len() && rest[i] == h;
            assert(list[i] == h);
        }
        if list.contains(h) {
            let i = choose|i: int| 0 <= i < list.len() && list[i] == h;
            if i < rest.len() {
                assert(rest[i] == h);
            } else if !flooding::named_in(answered, h) {
                assert(all[all.len() - 1] == h);
            }
        }
        if front.contains(h) {
            let i = choose|i: int| 0 <= i < front.len() && front[i] == h;
            assert(all[i] == h);
        }
        if all.contains(h) {
            let i = choose|i: int| 0 <= i < all.len() && all[i] == h;
            if i < front.len() {
                assert(front[i] == h);
            } else {
                assert(list[list.len() - 1] == h);
            }
        }
    }
}

/// An update completes a loading adjacency exactly when it answers the last request; every LSA that
/// it installs is acknowledged to its sender.
pub proof fn lemma_loading_done(me: InstanceV3View, i: int, j: int, hs: Seq<LsaV3Header>)
    requires
        0 <= i < me.interfaces.len(),
        0 <= j < me.interfaces[i].neighbors.len(),
        me.interfaces[i].neighbors[j].state == NeighborStateV3::Loading,
    ensures
        ({
            let n = me.interfaces[i].neighbors[j];
            let r = me.update_settled(i, j, hs).interfaces[i];
            &&& r.neighbors[j].request_list == flooding::unanswered(n.request_list, hs)
            &&& r.neighbors[j].state == NeighborStateV3::Full
                <==> r.neighbors[j].request_list.len() == 0
            &&& r.neighbors[j].state == NeighborStateV3::Loading
                <==> r.neighbors[j].request_list.len() > 0
            &&& r.neighbors[j].state == NeighborStateV3::Full ==> r.needs_router_lsa_refresh
            &&& r.neighbors[j].pending_acks == n.pending_acks + hs
        }),
{
}

/// Flooding queues an LSA for a neighbor exactly if the LSA may enter the neighbor's area, the
/// adjacency is complete and the LSA did not come from there: it never goes back to its sender.
/// Nothing else changes.
pub proof fn lemma_flood_scope(
    me: InstanceV3View,
    e: LsaEntryV3View,
    exclude: Option<(u32, u32)>,
    i: int,
    j: int,
)
    requires
        0 <= i < me.interfaces.len(),
        0 <= j < me.interfaces[i].neighbors.len(),
    ensures
        ({
            let f = me.interfaces[i];
            let n = f.neighbors[j];
            let r = me.flooded(e, exclude);
            let due = e.floods_into(f.area_id, me.area_type(f.area_id)) && n.state
                == NeighborStateV3::Full && exclude != Some((f.io.sw_if_index, n.router_id));
            &&& r.lsdb == me.lsdb
            &&& r.interfaces.len() == me.interfaces.len()
            &&& r.interfaces[i].neighbors.len() == f.neighbors.len()
            &&& r.interfaces[i].neighbors[j] == (if due {
                n.queue(e)
            } else {
                n
            })
        }),
{
}

/// AS-external LSAs are flooded into normal areas only, NSSA-LSAs into NSSAs only, and LSAs of area
/// scope into their own area only.
pub proof fn lemma_area_scope(e: LsaEntryV3View, area: u32, area_type: AreaType)
    requires
        e.floods_into(area, area_type),
    ensures
        e.header.ls_type == LsaV3Type::AsExternal ==> area_type == AreaType::Normal,
        e.header.ls_type == LsaV3Type::Nssa ==> area_type == AreaType::Nssa,
        e.area is Some && e.header.ls_type != LsaV3Type::AsExternal && e.header.ls_type
            != LsaV3Type::Link ==> e.area == Some(area),
{
}

/// AS-external LSAs are installed in normal areas only; every other LSA of an update is installed.
pub proof fn lemma_stub_takes_no_externals(
    lsas: Seq<LsaV3RawView>,
    area: u32,
    area_type: AreaType,
)
    ensures
        forall|k: int|
            0 <= k < flooding::installed(lsas, area, area_type).len() && (
            #[trigger] flooding::installed(lsas, area, area_type)[k]).header.ls_type
                == LsaV3Type::AsExternal ==> area_type == AreaType::Normal,
        forall|k: int|
            0 <= k < lsas.len() && ((#[trigger] lsas[k]).header.ls_type != LsaV3Type::AsExternal
                || area_type == AreaType::Normal) ==> flooding::installed(
                lsas,
                area,
                area_type,
            ).contains(
                LsaEntryV3View {
                    header: lsas[k].header,
                    raw: lsas[k].raw,
                    area: flooding::scope_of(lsas[k].header.ls_type, area),
                },
            ),
    decreases lsas.len(),
{
    if lsas.len() > 0 {
        let rest = lsas.drop_last();
        lemma_stub_takes_no_externals(rest, area, area_type);
        let front = flooding::installed(rest, area, area_type);
        let all = flooding::installed(lsas, area, area_type);
        assert forall|k: int|
            0 <= k < lsas.len() && ((#[trigger] lsas[k]).header.ls_type != LsaV3Type::AsExternal
                || area_type == AreaType::Normal) implies all.contains(
            LsaEntryV3View {
                header: lsas[k].header,
                raw: lsas[k].raw,
                area: flooding::scope_of(lsas[k].header.ls_type, area),
            },
        ) by {
            let e = LsaEntryV3View {
                header: lsas[k].header,
                raw: lsas[k].raw,
                area: flooding::scope_of(lsas[k].header.ls_type, area),
            };
            if k < rest.len() {
                assert(rest[k] == lsas[k]);
                assert(front.contains(e));
                let i = choose|i: int| 0 <= i < front.len() && front[i] == e;
                assert(all[i] == e);
            } else {
                assert(all[all.len() - 1] == e);
            }
        }
    }
}

proof fn lemma_stored_elsewhere(db: LsdbV3View, es: Seq<LsaEntryV3View>, e: LsaEntryV3View)
    requires
        db.entries.contains(e),
        forall|k: int| 0 <= k < es.len() ==> (#[trigger] es[k]).key() != e.key(),
    ensures
        flooding::stored(db, es).entries.contains(e),
    decreases es.len(),
{
    if es.len() > 0 {
        let rest = es.drop_last();
        assert forall|k: int| 0 <= k < rest.len() implies (#[trigger] rest[k]).key() != e.key() by {
            assert(rest[k] == es[k]);
        }
        lemma_stored_elsewhere(db, rest, e);
        let mid = flooding::stored(db, rest).entries;
        let all = flooding::stored(db, es).entries;
        let i = choose|i: int| 0 <= i < mid.len() && mid[i] == e;
        crate::lsdb_v3::lemma_key_pos(mid, es.last().key(), 0);
        assert(es[es.len() - 1].key() != e.key());
        assert(all[i] == e);
    }
}

/// An update leaves every LSA that it does not name where it was.
pub proof fn lemma_update_spares(
    me: InstanceV3View,
    sw_if_index: u32,
    src: u32,
    lsas: Seq<LsaV3RawView>,
    e: LsaEntryV3View,
)
    requires
        me.lsdb.entries.contains(e),
        forall|k: int| 0 <= k < lsas.len() ==> !(#[trigger] lsas[k]).header.same_lsa(e.header),
    ensures
        me.updated(sw_if_index, src, lsas).lsdb.entries.contains(e),
{
    let area = me.area_of(sw_if_index);
    let es = flooding::installed(lsas, area, me.area_type(area));
    lemma_installed_named(lsas, area, me.area_type(area), e.header);
    lemma_stored_elsewhere(me.lsdb, es, e);
    let mid = InstanceV3View { lsdb: flooding::stored(me.lsdb, es), ..me };
    lemma_passed_on_all_db(mid, es, (sw_if_index, src));
}

proof fn lemma_installed_named(
    lsas: Seq<LsaV3RawView>,
    area: u32,
    area_type: AreaType,
    h: LsaV3Header,
)
    requires
        forall|k: int| 0 <= k < lsas.len() ==> !(#[trigger] lsas[k]).header.same_lsa(h),
    ensures
        forall|k: int|
            0 <= k < flooding::installed(lsas, area, area_type).len() ==> !(#[trigger] flooding::installed(
                lsas,
                area,
                area_type,
            )[k]).header.same_lsa(h),
    decreases lsas.len(),
{
    if lsas.len() > 0 {
        let rest = lsas.drop_last();
        assert forall|k: int| 0 <= k < rest.len() implies !(#[trigger] rest[k]).header.same_lsa(
            h,
        ) by {
            assert(rest[k] == lsas[k]);
        }
        lemma_installed_named(rest, area, area_type, h);
        assert(!lsas[lsas.len() - 1].header.same_lsa(h));
    }
}

/// Passing several LSAs on touches neither the database nor the identity of any interface.
pub(super) proof fn lemma_passed_on_all_db(
    me: InstanceV3View,
    es: Seq<LsaEntryV3View>,
    from: (u32, u32),
)
    ensures
        me.passed_on_all(es, from).lsdb == me.lsdb,
        me.passed_on_all(es, from).router_id == me.router_id,
        me.passed_on_all(es, from).interfaces.len() == me.interfaces.len(),
    decreases es.len(),
{
    if es.len() > 0 {
        lemma_passed_on_all_db(me, es.drop_last(), from);
        let before = me.passed_on_all(es.drop_last(), from);
        instance_v3::lemma_iface_pos(before.interfaces, from.0, 0);
    }
}

/// A Link-LSA never crosses to another link: passing one on queues it for the Full neighbors of the
/// interface that it came in on, except its sender, and for nobody else. Any other LSA goes wherever
/// flooding takes it, but not back.
pub proof fn lemma_link_scope(
    me: InstanceV3View,
    e: LsaEntryV3View,
    from: (u32, u32),
    i: int,
    j: int,
)
    requires
        0 <= i < me.interfaces.len(),
        0 <= j < me.interfaces[i].neighbors.len(),
        forall|k: int, l: int|
            0 <= k < l < me.interfaces.len() ==> (#[trigger] me.interfaces[k]).io.sw_if_index != (
            #[trigger] me.interfaces[l]).io.sw_if_index,
    ensures
        ({
            let f = me.interfaces[i];
            let n = f.neighbors[j];
            let r = me.passed_on(e, from);
            let due = n.state == NeighborStateV3::Full && from != (f.io.sw_if_index, n.router_id)
                && (if e.header.ls_type == LsaV3Type::Link {
                f.io.sw_if_index == from.0
            } else {
                e.floods_into(f.area_id, me.area_type(f.area_id))
            });
            &&& r.lsdb == me.lsdb
            &&& r.interfaces.len() == me.interfaces.len()
            &&& r.interfaces[i].neighbors.len() == f.neighbors.len()
            &&& r.interfaces[i].neighbors[j] == (if due {
                n.queue(e)
            } else {
                n
            })
        }),
{
    instance_v3::lemma_iface_pos(me.interfaces, from.0, 0);
    match instance_v3::iface_pos(me.interfaces, from.0, 0) {
        Some(p) => {
            assert(p != i ==> me.interfaces[p].io.sw_if_index != me.interfaces[i].io.sw_if_index);
        },
        None => {},
    }
}

/// An interface that lost its link-local address or its link has neither neighbors nor offices
/// afterwards, unless the link is reported up again at once.
pub proof fn lemma_down_is_bare(
    f: InterfaceV3View,
    link_local: Option<u128>,
    prefixes: Seq<(u128, u8)>,
    oper_up: bool,
)
    requires
        f.state == InterfaceStateV3::Down ==> f == f.torn_down(),
    ensures
        ({
            let r = f.refreshed(link_local, prefixes, oper_up).0;
            &&& r.state == InterfaceStateV3::Down ==> r.neighbors.len() == 0 && r.dr == 0 && r.bdr
                == 0
            &&& !oper_up <==> r.state == InterfaceStateV3::Down
            &&& link_local is None ==> r.neighbors.len() == 0
            &&& r.global_prefixes == prefixes
        }),
{
}

/// A snapshot that reports what is known already changes nothing and asks for nothing.
pub proof fn lemma_refresh_idle(f: InterfaceV3View)
    requires
        f.state != InterfaceStateV3::Down,
    ensures
        f.refreshed(Some(f.io.link_local), f.global_prefixes, true) == (f, false),
{
}

/// Hellos go out when the interval has passed, and not again before it has passed once more.
pub proof fn lemma_hello_interval(f: InterfaceV3View, me: u32, now: u64, later: u64)
    requires
        f.hello_due(now),
        now <= later,
    ensures
        f.hello_packets(me, now).len() == f.hello_destinations().len(),
        later - now < f.hello_interval * 1000 ==> f.after_hello(now).hello_packets(me, later).len()
            == 0,
        later - now >= f.hello_interval * 1000 ==> f.after_hello(now).hello_due(later),
{
}

/// A neighbor stays exactly as long as its last Hello is younger than the dead interval.
pub proof fn lemma_survivors(f: InterfaceV3View, ns: Seq<NeighborV3View>, now: u64, n: NeighborV3View)
    ensures
        f.survivors(ns, now).contains(n) <==> ns.contains(n) && f.alive(n, now),
    decreases ns.len(),
{
    let all = f.survivors(ns, now);
    if ns.len() > 0 {
        let rest = ns.drop_last();
        let front = f.survivors(rest, now);
        lemma_survivors(f, rest, now, n);
        if rest.contains(n) {
            let i = choose|i: int| 0 <= i < rest.len() && rest[i] == n;
            assert(ns[i] == n);
        }
        if ns.contains(n) {
            let i = choose|i: int| 0 <= i < ns.len() && ns[i] == n;
            if i < rest.len() {
                assert(rest[i] == n);
            } else if f.alive(n, now) {
                assert(all[all.len() - 1] == n);
            }
        }
        if front.contains(n) {
            let i = choose|i: int| 0 <= i < front.len() && front[i] == n;
            assert(all[i] == n);
        }
        if all.contains(n) {
            let i = choose|i: int| 0 <= i < all.len() && all[i] == n;
            if i < front.len() {
                assert(front[i] == n);
            } else {
                assert(ns[ns.len() - 1] == n);
            }
        }
    }
}

/// A peer that still holds an instance of one of our LSAs that is not older than ours makes us
/// number the next instance above it, and asks every interface to have our LSAs originated anew.
pub proof fn lemma_recovery_outranks(
    me: InstanceV3View,
    h: LsaV3Header,
    area: u32,
    body: Seq<u8>,
)
    requires
        h.advertising_router == me.router_id,
        me.lsdb.lookup(me.own_key(h, area)) is Some,
        h.ls_sequence_number < i32::MAX,
        me.lsdb.lookup(me.own_key(h, area))->0.header.ls_sequence_number < i32::MAX,
    ensures
        ({
            let r = me.outranked_by(h, area);
            let next = r.self_lsa(
                h.ls_type,
                h.link_state_id,
                body,
                flooding::scope_of(h.ls_type, area),
            );
            &&& next.header.ls_sequence_number > h.ls_sequence_number
            &&& h.ls_sequence_number
                >= me.lsdb.lookup(me.own_key(h, area))->0.header.ls_sequence_number ==> forall|
                k: int,
            |
                0 <= k < r.interfaces.len() ==> (
                #[trigger] r.interfaces[k]).needs_router_lsa_refresh
        }),
{
    let k = me.own_key(h, area);
    let e = me.lsdb.lookup(k)->0;
    crate::lsdb_v3::lemma_key_pos(me.lsdb.entries, k, 0);
    if h.ls_sequence_number >= e.header.ls_sequence_number {
        let bumped = LsaEntryV3View {
            header: LsaV3Header { ls_sequence_number: h.ls_sequence_number, ..e.header },
            ..e
        };
        assert(bumped.key() == k);
        me.lsdb.lemma_get_after_insert(bumped, k);
    }
}

proof fn lemma_originated_quiet(
    me: InstanceV3View,
    ls_type: LsaV3Type,
    id: u32,
    body: Seq<u8>,
    area: Option<u32>,
)
    requires
        !me.refresh_pending(),
    ensures
        !me.originated(ls_type, id, body, area).refresh_pending(),
{
    let t = me.originated(ls_type, id, body, area);
    originate::lemma_originated_topology(me, ls_type, id, body, area);
    assert forall|i: int| 0 <= i < t.interfaces.len() implies !(
    #[trigger] t.interfaces[i]).needs_router_lsa_refresh by {
        assert(originate::same_interface(t.interfaces[i], me.interfaces[i]));
    }
}

proof fn lemma_router_lsas_quiet(me: InstanceV3View, areas: Seq<u32>, flags: u8)
    requires
        !me.refresh_pending(),
    ensures
        !me.router_lsas(areas, flags).refresh_pending(),
    decreases areas.len(),
{
    if areas.len() > 0 {
        lemma_router_lsas_quiet(me, areas.drop_last(), flags);
        let before = me.router_lsas(areas.drop_last(), flags);
        lemma_originated_quiet(
            before,
            LsaV3Type::Router,
            0,
            lsa::router_lsa_bytes(
                flags,
                Options::spec_standard().0,
                originate::area_links(before.interfaces, areas.last(), me.router_id),
            ),
            Some(areas.last()),
        );
    }
}

proof fn lemma_network_lsas_quiet(me: InstanceV3View, ifs: Seq<InterfaceV3View>)
    requires
        !me.refresh_pending(),
    ensures
        !me.network_lsas(ifs).refresh_pending(),
    decreases ifs.len(),
{
    if ifs.len() > 0 {
        lemma_network_lsas_quiet(me, ifs.drop_last());
        let f = ifs.last();
        lemma_originated_quiet(
            me.network_lsas(ifs.drop_last()),
            LsaV3Type::Network,
            f.interface_id,
            lsa::network_lsa_bytes(
                Options::spec_standard().0,
                seq![me.router_id] + originate::full_ids(f.neighbors),
            ),
            Some(f.area_id),
        );
    }
}

proof fn lemma_link_lsas_quiet(me: InstanceV3View, ifs: Seq<InterfaceV3View>)
    requires
        !me.refresh_pending(),
    ensures
        !me.link_lsas(ifs).refresh_pending(),
    decreases ifs.len(),
{
    if ifs.len() > 0 {
        lemma_link_lsas_quiet(me, ifs.drop_last());
        let before = me.link_lsas(ifs.drop_last());
        let after = me.link_lsas(ifs);
        let idx = ifs.last().io.sw_if_index;
        instance_v3::lemma_iface_pos(before.interfaces, idx, 0);
        assert forall|i: int| 0 <= i < after.interfaces.len() implies !(
        #[trigger] after.interfaces[i]).needs_router_lsa_refresh by {
            assert(!before.interfaces[i].needs_router_lsa_refresh);
        }
    }
}

proof fn lemma_network_prefix_lsas_quiet(me: InstanceV3View, ifs: Seq<InterfaceV3View>)
    requires
        !me.refresh_pending(),
    ensures
        !me.network_prefix_lsas(ifs).refresh_pending(),
    decreases ifs.len(),
{
    if ifs.len() > 0 {
        lemma_network_prefix_lsas_quiet(me, ifs.drop_last());
        let f = ifs.last();
        lemma_originated_quiet(
            me.network_prefix_lsas(ifs.drop_last()),
            LsaV3Type::IntraAreaPrefix,
            f.interface_id,
            lsa::intra_area_prefix_bytes(
                LsaV3Type::Network.spec_code(),
                f.interface_id,
                me.router_id,
                originate::plain_prefixes(f.global_prefixes),
            ),
            Some(f.area_id),
        );
    }
}

proof fn lemma_router_prefix_lsas_quiet(
    me: InstanceV3View,
    areas: Seq<u32>,
    ifs: Seq<InterfaceV3View>,
)
    requires
        !me.refresh_pending(),
    ensures
        !me.router_prefix_lsas(areas, ifs).refresh_pending(),
    decreases areas.len(),
{
    if areas.len() > 0 {
        lemma_router_prefix_lsas_quiet(me, areas.drop_last(), ifs);
        lemma_originated_quiet(
            me.router_prefix_lsas(areas.drop_last(), ifs),
            LsaV3Type::IntraAreaPrefix,
            0,
            lsa::intra_area_prefix_bytes(
                LsaV3Type::Router.spec_code(),
                0,
                me.router_id,
                originate::router_prefixes(ifs, areas.last()),
            ),
            Some(areas.last()),
        );
    }
}

/// One refresh serves the requests of all interfaces: none is left, so a second refresh right after
/// it changes nothing.
pub proof fn lemma_refresh_once(me: InstanceV3View)
    ensures
        !me.self_refreshed().refresh_pending(),
        me.self_refreshed().self_refreshed() == me.self_refreshed(),
{
    let a = me.requests_taken();
    let b = a.with_router_lsas();
    let c = b.with_network_lsas();
    let areas = instance_v3::areas_of(c.interfaces);
    let mid = c.network_prefix_lsas(c.interfaces);
    assert(!a.refresh_pending());
    lemma_router_lsas_quiet(
        a,
        instance_v3::areas_of(a.interfaces),
        originate::router_flags(a.is_abr(), a.asbr),
    );
    lemma_network_lsas_quiet(b, b.interfaces);
    lemma_network_prefix_lsas_quiet(c, c.interfaces);
    lemma_router_prefix_lsas_quiet(mid, areas, c.interfaces);
    let d = c.with_prefix_lsas();
    lemma_link_lsas_quiet(d, d.interfaces);
}

} // verus!
