//! What holds of the instance as a whole.
use vstd::prelude::*;

use crate::area;
use crate::config::{OspfDaemonConfig, OspfInterfaceConfig};
use crate::instance::daemon;
use crate::instance::exchange::MAX_HEADERS_PER_DD;
use crate::instance::flooding;
use crate::instance::originate;
use crate::instance::reload;
use crate::instance::{OspfInstanceView, OutgoingView};
use crate::packet;
use crate::packet::dd;
use crate::packet::hello::OspfOptions;
use crate::packet::lsa;
use crate::packet::lsa::{LsaHeader, LsaKey, LsaType};
use crate::proto::interface;
use crate::proto::interface::InterfaceState;
use crate::proto::neighbor;
use crate::proto::neighbor::NeighborState;
use crate::wire;

verus! {

/// Whether the interface differs in nothing but cost, priority, timers and passive flag.
pub open spec fn only_retuned(
    a: interface::OspfInterfaceView,
    b: interface::OspfInterfaceView,
) -> bool {
    b == interface::OspfInterfaceView {
        cost: b.cost,
        priority: b.priority,
        hello_interval: b.hello_interval,
        dead_interval: b.dead_interval,
        rxmt_interval: b.rxmt_interval,
        passive: b.passive,
        ..a
    }
}

proof fn lemma_retuned_all(is: Seq<interface::OspfInterfaceView>, cs: Seq<OspfInterfaceConfig>)
    ensures
        reload::retuned_all(is, cs).0.len() == is.len(),
        forall|k: int|
            0 <= k < is.len() ==> only_retuned(
                is[k],
                #[trigger] reload::retuned_all(is, cs).0[k],
            ),
    decreases cs.len(),
{
    if cs.len() > 0 {
        lemma_retuned_all(is, cs.drop_last());
        lemma_name_pos(reload::retuned_all(is, cs.drop_last()).0, cs.last().name@, 0);
    }
}

/// A new configuration, taken over while running, touches nothing but the cost, priority, timers
/// and passive flag of interfaces, and replaces the redistribution rules and summary ranges as a
/// whole. Router id, areas and their types, network types, addresses, keys, neighbors and the set
/// of interfaces stay.
pub proof fn lemma_reload_scope(me: OspfInstanceView, c: OspfDaemonConfig, now: u64)
    ensures
        ({
            let r = me.reconfigured(c, now).0;
            &&& r.router_id == me.router_id
            &&& r.vrf_name == me.vrf_name
            &&& r.as_external_lsdb == me.as_external_lsdb
            &&& r.redistribute == wire::views(c.redistribute@)
            &&& r.summary_addresses == c.summary_addresses@
            &&& r.interfaces.len() == me.interfaces.len()
            &&& forall|k: int|
                0 <= k < me.interfaces.len() ==> only_retuned(
                    me.interfaces[k],
                    #[trigger] r.interfaces[k],
                )
            &&& r.areas.len() == me.areas.len()
            &&& forall|k: int|
                0 <= k < me.areas.len() ==> (#[trigger] r.areas[k]).area_id == me.areas[k].area_id
                    && r.areas[k].area_type == me.areas[k].area_type && r.areas[k].default_cost
                    == me.areas[k].default_cost
        }),
{
    lemma_retuned_all(me.interfaces, c.interfaces@);
}

proof fn lemma_name_pos(is: Seq<interface::OspfInterfaceView>, name: Seq<char>, from: int)
    requires
        0 <= from,
    ensures
        match reload::name_pos(is, name, from) {
            Some(i) => from <= i < is.len() && is[i].name == name && forall|j: int|
                from <= j < i ==> (#[trigger] is[j]).name != name,
            None => forall|j: int| from <= j < is.len() ==> (#[trigger] is[j]).name != name,
        },
    decreases is.len() - from,
{
    if from < is.len() && is[from].name != name {
        lemma_name_pos(is, name, from + 1);
    }
}

proof fn lemma_retuned_as(
    is: Seq<interface::OspfInterfaceView>,
    cs: Seq<OspfInterfaceConfig>,
    i: int,
    k: int,
)
    requires
        0 <= i < is.len(),
        0 <= k < cs.len(),
        is[i].name == cs[k].name@,
        forall|j: int| 0 <= j < is.len() && j != i ==> (#[trigger] is[j]).name != is[i].name,
        forall|j: int| 0 <= j < cs.len() && j != k ==> (#[trigger] cs[j]).name@ != cs[k].name@,
    ensures
        reload::retuned_all(is, cs).0[i] == is[i].retuned(cs[k]),
    decreases cs.len(),
{
    let front = cs.drop_last();
    let before = reload::retuned_all(is, front).0;
    lemma_retuned_all(is, front);
    assert forall|j: int| 0 <= j < is.len() implies (#[trigger] before[j]).name == is[j].name by {
        assert(only_retuned(is[j], before[j]));
    }
    lemma_name_pos(before, cs.last().name@, 0);
    if k < cs.len() - 1 {
        assert(front[k] == cs[k]);
        assert forall|j: int| 0 <= j < front.len() && j != k implies (#[trigger] front[j]).name@
            != front[k].name@ by {
            assert(front[j] == cs[j]);
        }
        lemma_retuned_as(is, front, i, k);
        assert(cs[cs.len() - 1].name@ != cs[k].name@);
    } else {
        lemma_untouched(is, front, i);
        assert(before[i].name == cs.last().name@);
    }
}

proof fn lemma_untouched(is: Seq<interface::OspfInterfaceView>, cs: Seq<OspfInterfaceConfig>, i: int)
    requires
        0 <= i < is.len(),
        forall|j: int| 0 <= j < cs.len() ==> (#[trigger] cs[j]).name@ != is[i].name,
    ensures
        reload::retuned_all(is, cs).0[i] == is[i],
    decreases cs.len(),
{
    if cs.len() > 0 {
        let front = cs.drop_last();
        assert forall|j: int| 0 <= j < front.len() implies (#[trigger] front[j]).name@
            != is[i].name by {
            assert(front[j] == cs[j]);
        }
        lemma_untouched(is, front, i);
        let before = reload::retuned_all(is, front).0;
        lemma_retuned_all(is, front);
        lemma_name_pos(before, cs.last().name@, 0);
        assert(cs[cs.len() - 1].name@ != is[i].name);
    }
}

/// An interface that the configuration names once gets the configured cost, priority, timers and
/// passive flag.
pub proof fn lemma_reload_applies(
    me: OspfInstanceView,
    c: OspfDaemonConfig,
    now: u64,
    i: int,
    k: int,
)
    requires
        0 <= i < me.interfaces.len(),
        0 <= k < c.interfaces@.len(),
        me.interfaces[i].name == c.interfaces@[k].name@,
        forall|j: int|
            0 <= j < me.interfaces.len() && j != i ==> (#[trigger] me.interfaces[j]).name
                != me.interfaces[i].name,
        forall|j: int|
            0 <= j < c.interfaces@.len() && j != k ==> (#[trigger] c.interfaces@[j]).name@
                != c.interfaces@[k].name@,
    ensures
        me.reconfigured(c, now).0.interfaces[i] == me.interfaces[i].retuned(c.interfaces@[k]),
{
    lemma_retuned_as(me.interfaces, c.interfaces@, i, k);
}

/// An interface that the configuration does not name stays as it is.
pub proof fn lemma_reload_spares(me: OspfInstanceView, c: OspfDaemonConfig, now: u64, i: int)
    requires
        0 <= i < me.interfaces.len(),
        forall|j: int|
            0 <= j < c.interfaces@.len() ==> (#[trigger] c.interfaces@[j]).name@
                != me.interfaces[i].name,
    ensures
        me.reconfigured(c, now).0.interfaces[i] == me.interfaces[i],
{
    lemma_untouched(me.interfaces, c.interfaces@, i);
}

proof fn lemma_same_names(
    ifs: Seq<interface::OspfInterfaceView>,
    others: Seq<interface::OspfInterfaceView>,
    name: Seq<char>,
    from: int,
)
    requires
        0 <= from,
        ifs.len() == others.len(),
        forall|j: int| 0 <= j < ifs.len() ==> (#[trigger] ifs[j]).name == others[j].name,
    ensures
        reload::name_pos(ifs, name, from) == reload::name_pos(others, name, from),
    decreases ifs.len() - from,
{
    if from < ifs.len() {
        assert(ifs[from].name == others[from].name);
        lemma_same_names(ifs, others, name, from + 1);
    }
}

/// Whether no interface is configured twice.
pub open spec fn named_once(cs: Seq<OspfInterfaceConfig>) -> bool {
    forall|i: int, j: int|
        0 <= i < j < cs.len() ==> (#[trigger] cs[i]).name@ != (#[trigger] cs[j]).name@
}

proof fn lemma_tuned(ifs: Seq<interface::OspfInterfaceView>, cs: Seq<OspfInterfaceConfig>, k: int)
    requires
        named_once(cs),
        0 <= k < cs.len(),
    ensures
        ({
            let tuned = reload::retuned_all(ifs, cs).0;
            reload::name_pos(tuned, cs[k].name@, 0) matches Some(i) ==> !tuned[i].changed_by(cs[k])
        }),
    decreases cs.len(),
{
    let front = cs.drop_last();
    let last = cs.last();
    let before = reload::retuned_all(ifs, front).0;
    let tuned = reload::retuned_all(ifs, cs).0;
    lemma_name_pos(before, last.name@, 0);
    lemma_name_pos(tuned, cs[k].name@, 0);
    assert forall|j: int| 0 <= j < before.len() implies (#[trigger] before[j]).name
        == tuned[j].name by {}
    lemma_same_names(before, tuned, cs[k].name@, 0);
    if k < cs.len() - 1 {
        assert forall|i: int, j: int| 0 <= i < j < front.len() implies (#[trigger] front[i]).name@
            != (#[trigger] front[j]).name@ by {
            assert(front[i] == cs[i] && front[j] == cs[j]);
        }
        assert(front[k] == cs[k]);
        lemma_tuned(ifs, front, k);
        assert(cs[k].name@ != cs[cs.len() - 1].name@);
    }
}

proof fn lemma_settled(ifs: Seq<interface::OspfInterfaceView>, cs: Seq<OspfInterfaceConfig>)
    requires
        forall|k: int|
            0 <= k < cs.len() ==> (reload::name_pos(ifs, (#[trigger] cs[k]).name@, 0) matches Some(i)
                ==> !ifs[i].changed_by(cs[k])),
    ensures
        reload::retuned_all(ifs, cs) == (ifs, false, false),
    decreases cs.len(),
{
    if cs.len() > 0 {
        let front = cs.drop_last();
        assert forall|k: int| 0 <= k < front.len() implies (reload::name_pos(
            ifs,
            (#[trigger] front[k]).name@,
            0,
        ) matches Some(i) ==> !ifs[i].changed_by(front[k])) by {
            assert(front[k] == cs[k]);
        }
        lemma_settled(ifs, front);
        lemma_name_pos(ifs, cs.last().name@, 0);
        assert(cs[cs.len() - 1] == cs.last());
        if let Some(i) = reload::name_pos(ifs, cs.last().name@, 0) {
            assert(ifs[i].retuned(cs.last()) == ifs[i]);
            assert(ifs.update(i, ifs[i]) =~= ifs);
        }
    }
}

/// Applying a configuration a second time changes nothing and reports no change.
pub proof fn lemma_reload_settles(me: OspfInstanceView, c: OspfDaemonConfig, now: u64, later: u64)
    requires
        named_once(c.interfaces@),
    ensures
        ({
            let once = me.reconfigured(c, now).0;
            once.reconfigured(c, later) == (once, false)
        }),
{
    let once = me.reconfigured(c, now).0;
    assert forall|k: int| 0 <= k < c.interfaces@.len() implies (reload::name_pos(
        once.interfaces,
        (#[trigger] c.interfaces@[k]).name@,
        0,
    ) matches Some(i) ==> !once.interfaces[i].changed_by(c.interfaces@[k])) by {
        lemma_tuned(me.interfaces, c.interfaces@, k);
    }
    lemma_settled(once.interfaces, c.interfaces@);
}

/// A description packet carries the next headers and no more than fit; it announces more exactly if
/// some are left, and having announced no more is remembered.
pub proof fn lemma_page(n: neighbor::NeighborView, options: OspfOptions, mtu: u16)
    ensures
        ({
            let (after, d) = n.describing(false, options, mtu);
            &&& d.lsa_headers + after.db_summary_list == n.db_summary_list
            &&& d.lsa_headers.len() <= MAX_HEADERS_PER_DD
            &&& d.has_more() <==> after.db_summary_list.len() > 0
            &&& d.is_master() == n.is_master
            &&& !d.is_init()
            &&& !d.has_more() ==> after.sent_m_clear
        }),
{
    let (after, d) = n.describing(false, options, mtu);
    assert(d.lsa_headers + after.db_summary_list =~= n.db_summary_list);
    let f = d.flags;
    assert(f == 0 || f == 1 || f == 2 || f == 3);
    assert(0u8 & 4 == 0 && 1u8 & 4 == 0 && 2u8 & 4 == 0 && 3u8 & 4 == 0) by (bit_vector);
    assert(0u8 & 2 == 0 && 1u8 & 2 == 0 && 2u8 & 2 != 0 && 3u8 & 2 != 0) by (bit_vector);
    assert(0u8 & 1 == 0 && 1u8 & 1 != 0 && 2u8 & 1 == 0 && 3u8 & 1 != 0) by (bit_vector);
}

/// The neighbor after `k` description packets and the headers that they carried.
pub open spec fn paged(n: neighbor::NeighborView, options: OspfOptions, mtu: u16, k: nat) -> (
    neighbor::NeighborView,
    Seq<LsaHeader>,
)
    decreases k,
{
    if k == 0 {
        (n, Seq::empty())
    } else {
        let before = paged(n, options, mtu, (k - 1) as nat);
        let (after, d) = before.0.describing(false, options, mtu);
        (after, before.1 + d.lsa_headers)
    }
}

/// However many packets it takes, the headers go out once each and in order; once there were enough
/// packets, nothing is left and the end was announced.
pub proof fn lemma_paging(n: neighbor::NeighborView, options: OspfOptions, mtu: u16, k: nat)
    ensures
        paged(n, options, mtu, k).1 + paged(n, options, mtu, k).0.db_summary_list
            == n.db_summary_list,
        k > 0 && k * MAX_HEADERS_PER_DD >= n.db_summary_list.len() ==> paged(
            n,
            options,
            mtu,
            k,
        ).1 == n.db_summary_list && paged(n, options, mtu, k).0.sent_m_clear,
        paged(n, options, mtu, k).0.db_summary_list.len() == (if k * MAX_HEADERS_PER_DD
            >= n.db_summary_list.len() {
            0
        } else {
            n.db_summary_list.len() - k * MAX_HEADERS_PER_DD
        }),
    decreases k,
{
    if k > 0 {
        let before = paged(n, options, mtu, (k - 1) as nat);
        let now = paged(n, options, mtu, k);
        lemma_paging(n, options, mtu, (k - 1) as nat);
        lemma_page(before.0, options, mtu);
        let d = before.0.describing(false, options, mtu).1;
        assert((before.1 + d.lsa_headers) + now.0.db_summary_list =~= before.1 + (d.lsa_headers
            + now.0.db_summary_list));
        assert(k * MAX_HEADERS_PER_DD == (k - 1) * MAX_HEADERS_PER_DD + MAX_HEADERS_PER_DD)
            by (nonlinear_arith)
            requires
                k > 0,
        ;
        assert(now.0.db_summary_list.len() == 0 ==> now.1 =~= n.db_summary_list);
    } else {
        assert(paged(n, options, mtu, k).1 + n.db_summary_list =~= n.db_summary_list);
    }
}

/// An exchange is not over before we announced its end ourselves: whatever the peer describes, the
/// neighbor stays in the exchange until we sent our last headers.
pub proof fn lemma_exchange_deferred(
    n: neighbor::NeighborView,
    me: u32,
    peer: u32,
    d: dd::DbDescView,
    wanted: Seq<LsaKey>,
    ours: Seq<LsaHeader>,
    now: u64,
)
    ensures
        n.state == NeighborState::Exchange && !n.sent_m_clear ==> n.described(
            me,
            peer,
            d,
            wanted,
            ours,
            now,
        ).state == NeighborState::Exchange,
        n.state == NeighborState::ExStart ==> {
            let r = n.described(me, peer, d, wanted, ours, now);
            r.state == NeighborState::ExStart || (r.state == NeighborState::Exchange
                && !r.sent_m_clear && r.db_summary_list == ours)
        },
{
}

/// When the exchange ends, the adjacency is complete if nothing is left to request; else it waits
/// for the LSAs.
pub proof fn lemma_exchange_done(
    n: neighbor::NeighborView,
    me: u32,
    peer: u32,
    d: dd::DbDescView,
    wanted: Seq<LsaKey>,
    ours: Seq<LsaHeader>,
    now: u64,
)
    requires
        n.state == NeighborState::Exchange,
        n.sent_m_clear,
        !d.has_more(),
    ensures
        ({
            let r = n.described(me, peer, d, wanted, ours, now);
            &&& r.ls_request_list == n.ls_request_list + wanted
            &&& r.state == NeighborState::Full <==> r.ls_request_list.len() == 0
            &&& r.state == NeighborState::Loading <==> r.ls_request_list.len() > 0
        }),
{
}

/// The router with the higher id becomes master, and only it.
pub proof fn lemma_master_has_higher_id(
    n: neighbor::NeighborView,
    me: u32,
    peer: u32,
    d: dd::DbDescView,
    wanted: Seq<LsaKey>,
    ours: Seq<LsaHeader>,
    now: u64,
)
    requires
        n.state == NeighborState::ExStart,
        n.described(me, peer, d, wanted, ours, now).state == NeighborState::Exchange,
    ensures
        n.described(me, peer, d, wanted, ours, now).is_master == (me > peer),
        me != peer,
{
}

proof fn lemma_without(ks: Seq<LsaKey>, k: LsaKey)
    ensures
        !flooding::without(ks, k).contains(k),
        forall|x: LsaKey|
            x != k ==> (#[trigger] flooding::without(ks, k).contains(x) <==> ks.contains(x)),
    decreases ks.len(),
{
    if ks.len() > 0 {
        let front = ks.drop_last();
        lemma_without(front, k);
        let a = flooding::without(front, k);
        let b = flooding::without(ks, k);
        assert forall|x: LsaKey| x != k implies (#[trigger] b.contains(x) <==> ks.contains(x)) by {
            assert(a.contains(x) <==> front.contains(x));
            if front.contains(x) {
                let i = choose|i: int| 0 <= i < front.len() && front[i] == x;
                assert(ks[i] == x);
            }
            if ks.contains(x) {
                let i = choose|i: int| 0 <= i < ks.len() && ks[i] == x;
                if i < front.len() {
                    assert(front[i] == x);
                }
            }
            if a.contains(x) {
                let i = choose|i: int| 0 <= i < a.len() && a[i] == x;
                assert(b[i] == x);
            }
            if ks.last() == x {
                assert(b[b.len() - 1] == x);
            }
            if b.contains(x) {
                let i = choose|i: int| 0 <= i < b.len() && b[i] == x;
                if i < a.len() {
                    assert(a[i] == x);
                } else {
                    assert(ks[ks.len() - 1] == x);
                }
            }
        }
        if b.contains(k) {
            let i = choose|i: int| 0 <= i < b.len() && b[i] == k;
            if i < a.len() {
                assert(a[i] == k);
            }
        }
    }
}

/// An LSA that arrives is struck off the list of requests, and no other; the last one completes a
/// loading adjacency.
pub proof fn lemma_supply(n: neighbor::NeighborView, k: LsaKey, now: u64)
    ensures
        ({
            let (r, full) = n.supplied(k, now);
            &&& !r.ls_request_list.contains(k)
            &&& forall|x: LsaKey|
                x != k ==> (#[trigger] r.ls_request_list.contains(x)
                    <==> n.ls_request_list.contains(x))
            &&& full <==> n.state == NeighborState::Loading && r.ls_request_list.len() == 0
            &&& full ==> r.state == NeighborState::Full
            &&& !full ==> r.state == n.state
        }),
{
    lemma_without(n.ls_request_list, k);
}

proof fn lemma_admitted(ls: Seq<lsa::LsaView>, external: bool)
    ensures
        forall|k: int|
            0 <= k < flooding::admitted(ls, external).len() ==> ls.contains(
                #[trigger] flooding::admitted(ls, external)[k],
            ) && (external || flooding::admitted(ls, external)[k].header.ls_type
                != LsaType::AsExternal),
    decreases ls.len(),
{
    if ls.len() > 0 {
        let front = ls.drop_last();
        lemma_admitted(front, external);
        let a = flooding::admitted(front, external);
        let b = flooding::admitted(ls, external);
        assert forall|k: int| 0 <= k < b.len() implies ls.contains(#[trigger] b[k]) && (external
            || b[k].header.ls_type != LsaType::AsExternal) by {
            if k < a.len() {
                assert(b[k] == a[k]);
                let i = choose|i: int| 0 <= i < front.len() && front[i] == a[k];
                assert(ls[i] == b[k]);
            } else {
                assert(ls[ls.len() - 1] == b[k]);
            }
        }
    }
}

/// Whether the packet is an update that may leave by the interface at position `i`: the interface is
/// up and not the one that the LSAs came in by, a neighbor other than their sender listens there,
/// and AS-external LSAs go only into areas that take them.
pub open spec fn proper_flood(
    me: OspfInstanceView,
    p: OutgoingView,
    i: int,
    skip: usize,
    from: u32,
    ls: Seq<lsa::LsaView>,
) -> bool {
    let f = me.interfaces[i];
    &&& i != skip
    &&& f.state != InterfaceState::Down
    &&& f.listens(from)
    &&& p.0 == f.sw_if_index
    &&& p.2 matches packet::OspfPacketView::LinkStateUpdate(h, sent) && h.area_id == f.area_id
        && h.router_id == me.router_id && sent.len() > 0 && forall|k: int|
        0 <= k < sent.len() ==> ls.contains(#[trigger] sent[k]) && (me.takes_externals(f.area_id)
            || sent[k].header.ls_type != LsaType::AsExternal)
}

proof fn lemma_flood_on(
    me: OspfInstanceView,
    is: Seq<interface::OspfInterfaceView>,
    skip: usize,
    from: u32,
    ls: Seq<lsa::LsaView>,
    k: int,
)
    requires
        is.len() <= me.interfaces.len(),
        forall|j: int| 0 <= j < is.len() ==> is[j] == me.interfaces[j],
        0 <= k < me.flood_on(is, skip, from, ls).len(),
    ensures
        exists|i: int|
            0 <= i < is.len() && #[trigger] proper_flood(
                me,
                me.flood_on(is, skip, from, ls)[k],
                i,
                skip,
                from,
                ls,
            ),
    decreases is.len(),
{
    let front = is.drop_last();
    let a = me.flood_on(front, skip, from, ls);
    let b = me.flood_on(is, skip, from, ls);
    let f = is.last();
    if k < a.len() {
        lemma_flood_on(me, front, skip, from, ls, k);
        let i = choose|i: int|
            0 <= i < front.len() && #[trigger] proper_flood(me, a[k], i, skip, from, ls);
        assert(proper_flood(me, b[k], i, skip, from, ls));
    } else {
        lemma_admitted(ls, me.takes_externals(f.area_id));
        assert(f == me.interfaces[is.len() - 1]);
        assert(proper_flood(me, b[k], is.len() - 1, skip, from, ls));
    }
}

/// Flooding sends nothing back by the interface that the LSAs came in by, nothing where only their
/// sender listens, nothing by interfaces that are down, and no AS-external LSA into an area that
/// takes none.
pub proof fn lemma_split_horizon(
    me: OspfInstanceView,
    skip: usize,
    from: u32,
    ls: Seq<lsa::LsaView>,
    k: int,
)
    requires
        0 <= k < me.flood(skip, from, ls).len(),
    ensures
        exists|i: int|
            0 <= i < me.interfaces.len() && #[trigger] proper_flood(
                me,
                me.flood(skip, from, ls)[k],
                i,
                skip,
                from,
                ls,
            ),
{
    lemma_flood_on(me, me.interfaces, skip, from, ls, k);
}

/// Our Router-LSAs say that we border an area exactly if we do, and that we redistribute exactly if
/// a rule says so.
pub proof fn lemma_router_flags(me: OspfInstanceView, k: int)
    requires
        0 <= k < me.router_lsas(me.areas).len(),
    ensures
        me.router_lsas(me.areas)[k].1.body matches lsa::LsaBodyView::Router { flags, links } && (
        flags & lsa::B_FLAG != 0 <==> me.border()) && (flags & lsa::E_FLAG != 0
            <==> me.redistribute.len() > 0),
{
    lemma_flags_upto(me, me.areas, k);
}

proof fn lemma_flags_upto(me: OspfInstanceView, s: Seq<area::AreaView>, k: int)
    requires
        0 <= k < me.router_lsas(s).len(),
    ensures
        me.router_lsas(s)[k].1.body matches lsa::LsaBodyView::Router { flags, links } && (flags
            & lsa::B_FLAG != 0 <==> me.border()) && (flags & lsa::E_FLAG != 0
            <==> me.redistribute.len() > 0),
    decreases s.len(),
{
    assert(0u8 & 1 == 0 && 1u8 & 1 != 0 && 2u8 & 1 == 0 && 3u8 & 1 != 0) by (bit_vector);
    assert(0u8 & 2 == 0 && 1u8 & 2 == 0 && 2u8 & 2 != 0 && 3u8 & 2 != 0) by (bit_vector);
    let front = s.drop_last();
    if originate::area_links(me.interfaces, s.last().area_id).len() == 0 {
        lemma_flags_upto(me, front, k);
    } else if k < me.router_lsas(front).len() {
        lemma_flags_upto(me, front, k);
    }
}

/// A request for route computation never postpones one that is due, is met after the configured
/// delay at the latest if it comes after a pause, and else within the longest hold time.
pub proof fn lemma_spf_bounds(me: OspfInstanceView, now: u64)
    requires
        now + me.spf_delay_ms <= u64::MAX,
        now + me.spf_max_holdtime_ms <= u64::MAX,
    ensures
        me.scheduled(now).spf_scheduled matches Some(at) && (me.spf_scheduled matches Some(e)
            ==> at <= e) && at <= now + (if me.spf_delay_ms > me.spf_max_holdtime_ms {
            me.spf_delay_ms
        } else {
            me.spf_max_holdtime_ms
        }) && (me.spf_last_run is None ==> at <= now + me.spf_delay_ms),
{
}

/// Of one peer, at most one warning of failed authentication comes up in a minute; warnings of other
/// peers do not depend on it.
pub proof fn lemma_one_warning_a_minute(
    s: Seq<(u32, u32, u64)>,
    idx: u32,
    src: u32,
    now: u64,
    later: u64,
)
    requires
        now <= later < now + 60000,
        daemon::warned(s, idx, src, now).1,
    ensures
        !daemon::warned(daemon::warned(s, idx, src, now).0, idx, src, later).1,
{
    let t = daemon::warned(s, idx, src, now).0;
    lemma_warning_pos(s, idx, src, 0);
    lemma_warning_pos(t, idx, src, 0);
    match daemon::warning_pos(s, idx, src, 0) {
        Some(i) => {
            assert(t[i] == (idx, src, now));
            assert(daemon::warning_pos(t, idx, src, 0) == Some(i)) by {
                let j = daemon::warning_pos(t, idx, src, 0)->0;
                if j < i {
                    assert(t[j] == s[j]);
                }
            }
        },
        None => {
            let n = s.len() as int;
            assert(t[n] == (idx, src, now));
            let j = daemon::warning_pos(t, idx, src, 0)->0;
            if j < n {
                assert(t[j] == s[j]);
            }
        },
    }
}

proof fn lemma_warning_pos(s: Seq<(u32, u32, u64)>, idx: u32, src: u32, from: int)
    requires
        0 <= from,
    ensures
        match daemon::warning_pos(s, idx, src, from) {
            Some(i) => from <= i < s.len() && s[i].0 == idx && s[i].1 == src && forall|j: int|
                from <= j < i ==> (#[trigger] s[j]).0 != idx || s[j].1 != src,
            None => forall|j: int| from <= j < s.len() ==> (#[trigger] s[j]).0 != idx || s[j].1 != src,
        },
    decreases s.len() - from,
{
    if from < s.len() && !(s[from].0 == idx && s[from].1 == src) {
        lemma_warning_pos(s, idx, src, from + 1);
    }
}

/// After a Hello, the next one of the interface is due when the interval is over, and not before.
pub proof fn lemma_hello_interval(f: interface::OspfInterfaceView, now: u64, later: u64)
    requires
        f.hello_due(now),
        now + f.hello_interval * 1000 <= u64::MAX,
    ensures
        f.greeting(now).hello_due(later) <==> later >= now + f.hello_interval * 1000,
{
}

} // verus!
