//! What holds of every update that arrives or is flooded.
use vstd::prelude::*;

use crate::instance;
use crate::instance::exchange;
use crate::instance::flooding;
use crate::instance::{OspfInstanceView, OutgoingView};
use crate::lsdb::InstallResult;
use crate::packet;
use crate::packet::lsa;
use crate::packet::lsa::LsaType;
use crate::packet::{OspfHeader, OspfPacketType, ALL_SPF_ROUTERS};
use crate::proto::interface::InterfaceState;

verus! {

/// Whether LSAs go out of the interface at position `k` when `ls` are flooded.
pub open spec fn carries(
    me: OspfInstanceView,
    k: int,
    skip: usize,
    from: u32,
    ls: Seq<lsa::LsaView>,
) -> bool {
    let f = me.interfaces[k];
    f.state != InterfaceState::Down && k != skip && f.listens(from) && flooding::admitted(
        ls,
        me.takes_externals(f.area_id),
    ).len() > 0
}

/// The update that goes out of the interface at position `k`.
pub open spec fn carried(me: OspfInstanceView, k: int, ls: Seq<lsa::LsaView>) -> OutgoingView {
    let f = me.interfaces[k];
    (
        f.sw_if_index,
        ALL_SPF_ROUTERS,
        exchange::lsu_packet(
            me.router_id,
            f.area_id,
            flooding::admitted(ls, me.takes_externals(f.area_id)),
        ),
    )
}

proof fn lemma_flood_on(
    me: OspfInstanceView,
    n: int,
    skip: usize,
    from: u32,
    ls: Seq<lsa::LsaView>,
    p: OutgoingView,
)
    requires
        0 <= n <= me.interfaces.len(),
    ensures
        me.flood_on(me.interfaces.take(n), skip, from, ls).contains(p) <==> exists|k: int|
            0 <= k < n && #[trigger] carries(me, k, skip, from, ls) && p == carried(me, k, ls),
    decreases n,
{
    let is = me.interfaces.take(n);
    let all = me.flood_on(is, skip, from, ls);
    if n > 0 {
        let rest = me.interfaces.take(n - 1);
        assert(is.drop_last() =~= rest);
        assert(is.last() == me.interfaces[n - 1]);
        let front = me.flood_on(rest, skip, from, ls);
        lemma_flood_on(me, n - 1, skip, from, ls, p);
        if front.contains(p) {
            let i = choose|i: int| 0 <= i < front.len() && front[i] == p;
            assert(all[i] == p);
        }
        if carries(me, n - 1, skip, from, ls) {
            assert(all[all.len() - 1] == carried(me, n - 1, ls));
        }
        if all.contains(p) {
            let i = choose|i: int| 0 <= i < all.len() && all[i] == p;
            if i < front.len() {
                assert(front[i] == p);
            } else {
                assert(carries(me, n - 1, skip, from, ls));
            }
        }
    }
}

/// Flooding sends exactly one kind of packet: to the group of all OSPF routers on every interface that
/// is up, is not the one that the LSAs came in on and has a neighbor other than their sender that
/// exchanges its database with us or has done so, unless nothing is left to send there. AS-external
/// LSAs stay out of areas that do not take them.
pub proof fn lemma_flood_exact(
    me: OspfInstanceView,
    skip: usize,
    from: u32,
    ls: Seq<lsa::LsaView>,
    p: OutgoingView,
)
    ensures
        me.flood(skip, from, ls).contains(p) <==> exists|k: int|
            0 <= k < me.interfaces.len() && #[trigger] carries(me, k, skip, from, ls) && p == carried(
                me,
                k,
                ls,
            ),
{
    assert(me.interfaces.take(me.interfaces.len() as int) =~= me.interfaces);
    lemma_flood_on(me, me.interfaces.len() as int, skip, from, ls, p);
}

/// What is let into an area: every LSA if it takes AS-external LSAs, else every other one.
pub proof fn lemma_admitted(ls: Seq<lsa::LsaView>, external: bool, l: lsa::LsaView)
    ensures
        flooding::admitted(ls, external).contains(l) <==> ls.contains(l) && (external
            || l.header.ls_type != LsaType::AsExternal),
    decreases ls.len(),
{
    if ls.len() > 0 {
        let rest = ls.drop_last();
        let front = flooding::admitted(rest, external);
        let all = flooding::admitted(ls, external);
        lemma_admitted(rest, external, l);
        if rest.contains(l) {
            let i = choose|i: int| 0 <= i < rest.len() && rest[i] == l;
            assert(ls[i] == l);
        }
        if front.contains(l) {
            let i = choose|i: int| 0 <= i < front.len() && front[i] == l;
            assert(all[i] == l);
        }
        if ls.contains(l) {
            let i = choose|i: int| 0 <= i < ls.len() && ls[i] == l;
            if i < rest.len() {
                assert(rest[i] == l);
            } else if external || l.header.ls_type != LsaType::AsExternal {
                assert(all[all.len() - 1] == l);
            }
        }
        if all.contains(l) {
            let i = choose|i: int| 0 <= i < all.len() && all[i] == l;
            if i < front.len() {
                assert(front[i] == l);
            } else {
                assert(ls[ls.len() - 1] == l);
            }
        }
    }
}

/// In an area that does not take AS-external LSAs, an update does what it does without them: they are
/// neither stored nor acknowledged nor flooded nor answered.
pub proof fn lemma_externals_dropped(
    me: OspfInstanceView,
    i: int,
    src: u32,
    peer: u32,
    ls: Seq<lsa::LsaView>,
    now: u64,
)
    requires
        0 <= i < me.interfaces.len(),
        !me.takes_externals(me.interfaces[i].area_id),
    ensures
        me.after_lsu(i, src, peer, ls, now) == me.after_lsu(
            i,
            src,
            peer,
            flooding::admitted(ls, false),
            now,
        ),
{
    lemma_progress_without(me, i, src, peer, ls, now);
}

proof fn lemma_progress_without(
    me: OspfInstanceView,
    i: int,
    src: u32,
    peer: u32,
    ls: Seq<lsa::LsaView>,
    now: u64,
)
    requires
        !me.takes_externals(me.interfaces[i].area_id),
    ensures
        me.lsu_progress(i, src, peer, ls, now) == me.lsu_progress(
            i,
            src,
            peer,
            flooding::admitted(ls, false),
            now,
        ),
    decreases ls.len(),
{
    if ls.len() > 0 {
        let rest = ls.drop_last();
        lemma_progress_without(me, i, src, peer, rest, now);
        let front = flooding::admitted(rest, false);
        if ls.last().header.ls_type != LsaType::AsExternal {
            assert(flooding::admitted(ls, false).drop_last() =~= front);
        }
    }
}

/// An LSA that is newer than ours is found under its key once it is stored.
proof fn lemma_installed_is_stored(me: OspfInstanceView, area_id: u32, l: lsa::LsaView, now: u64)
    requires
        me.verdict_in(area_id, l) matches Some(v) && v.stored(),
    ensures
        me.installed_in(area_id, l, now).stored(area_id, l.header.spec_key()) matches Some(e)
            && e.lsa == l,
{
    let key = l.header.spec_key();
    if l.header.ls_type == LsaType::AsExternal {
        me.as_external_lsdb.lemma_get_after_install(l, key, now);
    } else {
        let after = me.installed_in(area_id, l, now).areas;
        let a = instance::area_pos(me.areas, area_id, 0)->0;
        flooding::lemma_area_pos(me.areas, area_id, 0);
        flooding::lemma_area_pos(after, area_id, 0);
        me.areas[a].lsdb.lemma_get_after_install(l, key, now);
        let b = instance::area_pos(after, area_id, 0)->0;
        assert(after[a].area_id == area_id);
        if b < a {
            assert(after[b] == me.areas[b]);
        }
    }
}

/// What a single LSA of an update causes. One that is not newer than ours changes nothing; the same
/// instance is acknowledged to the sender, an older one is not acknowledged but answered with our copy,
/// out of the common database if it is an AS-external LSA. A newer one is acknowledged to the sender
/// and is what the database holds once it is worked off.
pub proof fn lemma_one_lsa_answered(
    me: OspfInstanceView,
    i: int,
    src: u32,
    peer: u32,
    l: lsa::LsaView,
    now: u64,
)
    requires
        0 <= i < me.interfaces.len(),
        l.header.ls_type == LsaType::AsExternal ==> me.takes_externals(me.interfaces[i].area_id),
    ensures
        ({
            let f = me.interfaces[i];
            let key = l.header.spec_key();
            let r = me.after_lsu(i, src, peer, seq![l], now);
            let ack: OutgoingView = (
                f.sw_if_index,
                src,
                packet::OspfPacketView::LinkStateAck(
                    OspfHeader::fresh(OspfPacketType::LinkStateAck, me.router_id, f.area_id),
                    seq![l.header],
                ),
            );
            match me.verdict_in(f.area_id, l) {
                None => r.0 == me && r.1.len() == 0,
                Some(InstallResult::Duplicate) => r.0 == me && r.1 == seq![ack],
                Some(InstallResult::Older) => r.0 == me && match me.stored(f.area_id, key) {
                    Some(ours) => r.1 == seq![
                        (
                            f.sw_if_index,
                            src,
                            exchange::lsu_packet(me.router_id, f.area_id, seq![ours.lsa]),
                        ),
                    ],
                    None => r.1.len() == 0,
                },
                Some(_) => r.1.len() > 0 && r.1[0] == ack && (me.lsu_progress(
                    i,
                    src,
                    peer,
                    seq![l],
                    now,
                ).inst.stored(f.area_id, key) matches Some(e) && e.lsa == l),
            }
        }),
{
    let f = me.interfaces[i];
    let ls = seq![l];
    assert(ls.drop_last() =~= Seq::<lsa::LsaView>::empty());
    let start = me.lsu_progress(i, src, peer, ls.drop_last(), now);
    let p = me.lsu_progress(i, src, peer, ls, now);
    assert(start.inst == me);
    assert(start.acks.push(l.header) =~= seq![l.header]);
    let r = me.after_lsu(i, src, peer, ls, now);
    match me.verdict_in(f.area_id, l) {
        None => {
            assert(r.1 =~= Seq::empty());
        },
        Some(InstallResult::Duplicate) => {
            assert(r.1.len() == 1);
            assert(r.1 =~= seq![r.1[0]]);
        },
        Some(InstallResult::Older) => {
            match me.stored(f.area_id, l.header.spec_key()) {
                Some(ours) => {
                    assert(r.1.len() == 1);
                    assert(r.1 =~= seq![r.1[0]]);
                },
                None => {
                    assert(r.1 =~= Seq::empty());
                },
            }
        },
        Some(_) => {
            assert(p.replies.len() == 0);
            lemma_installed_is_stored(me, f.area_id, l, now);
            assert(p.inst.areas == me.installed_in(f.area_id, l, now).areas);
            assert(p.inst.as_external_lsdb == me.installed_in(f.area_id, l, now).as_external_lsdb);
        },
    }
}

} // verus!
