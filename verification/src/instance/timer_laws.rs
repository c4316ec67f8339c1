//! Laws of what time brings about: who is silent, and what is sent again to whom.
use vstd::prelude::*;

use crate::instance;
use crate::instance::exchange;
use crate::instance::timers;
use crate::packet;
use crate::proto::interface;
use crate::proto::neighbor;
use crate::proto::neighbor::NeighborState;

verus! {

/// Whether at least so many milliseconds passed between `then` and `now`.
pub open spec fn passed(then: u64, now: u64, millis: int) -> bool {
    if now >= then {
        now - then >= millis
    } else {
        millis <= 0
    }
}

/// Whether a neighbor with this id is not down and was not heard for `dead` milliseconds.
pub open spec fn is_silent(ns: Seq<neighbor::NeighborView>, id: u32, dead: int, now: u64) -> bool {
    exists|j: int|
        0 <= j < ns.len() && (#[trigger] ns[j]).router_id == id && ns[j].state
            != NeighborState::Down && passed(ns[j].last_heard, now, dead)
}

proof fn lemma_silent_ids(ns: Seq<neighbor::NeighborView>, dead: int, now: u64, id: u32)
    ensures
        timers::silent_ids(ns, dead, now).contains(id) <==> is_silent(ns, id, dead, now),
    decreases ns.len(),
{
    if ns.len() > 0 {
        let rest = ns.drop_last();
        let before = timers::silent_ids(rest, dead, now);
        let all = timers::silent_ids(ns, dead, now);
        lemma_silent_ids(rest, dead, now, id);
        assert(ns[ns.len() - 1] == ns.last());
        if before.contains(id) {
            assert(all[before.index_of(id)] == id);
            let j = choose|j: int|
                0 <= j < rest.len() && (#[trigger] rest[j]).router_id == id && rest[j].state
                    != NeighborState::Down && passed(rest[j].last_heard, now, dead);
            assert(ns[j] == rest[j]);
        }
        if all.contains(id) {
            let k = all.index_of(id);
            if k < before.len() {
                assert(before[k] == id);
            }
        }
        if is_silent(ns, id, dead, now) {
            let j = choose|j: int|
                0 <= j < ns.len() && (#[trigger] ns[j]).router_id == id && ns[j].state
                    != NeighborState::Down && passed(ns[j].last_heard, now, dead);
            if j < rest.len() {
                assert(rest[j] == ns[j]);
            } else {
                assert(all[before.len() as int] == id);
            }
        }
    }
}

/// The neighbors that an interface gives up are exactly those that it did not hear for the dead
/// interval.
pub proof fn lemma_silent(f: interface::OspfInterfaceView, now: u64, id: u32)
    ensures
        f.silent(now).contains(id) <==> is_silent(f.neighbors, id, f.dead_interval * 1000, now),
{
    lemma_silent_ids(f.neighbors, f.dead_interval * 1000, now, id);
}

/// Whether an exchange has to be opened with the neighbor: its state is ExStart and the last
/// description is a second old.
pub open spec fn opens(n: neighbor::NeighborView, now: u64) -> bool {
    n.state == NeighborState::ExStart && passed(n.last_dd_sent, now, 1000)
}

/// Whether the packet opens an exchange with `n` on `f`: an empty description from us with all three
/// bits, to the address of the neighbor.
pub open spec fn is_opening(
    p: instance::OutgoingView,
    f: interface::OspfInterfaceView,
    n: neighbor::NeighborView,
    me: u32,
) -> bool {
    &&& p.0 == f.sw_if_index
    &&& p.1 == n.address
    &&& p.2 matches packet::OspfPacketView::DatabaseDescription(h, d) && h.router_id == me
        && h.area_id == f.area_id && d.interface_mtu == f.dd_mtu && d.options == f.options
        && d.flags == 7 && d.lsa_headers.len() == 0 && d.dd_sequence_number != 0 && (
    n.dd_seq_number != 0 ==> d.dd_sequence_number == n.dd_seq_number)
}

/// An interface opens an exchange with each neighbor for which one is due, and with no other.
pub proof fn lemma_openings(
    f: interface::OspfInterfaceView,
    ns: Seq<neighbor::NeighborView>,
    me: u32,
    now: u64,
)
    ensures
        forall|j: int|
            0 <= j < ns.len() && opens(#[trigger] ns[j], now) ==> has_opening(
                exchange::opening_packets(f, ns, me, now),
                f,
                ns[j],
                me,
            ),
        forall|q: int|
            0 <= q < exchange::opening_packets(f, ns, me, now).len() ==> opens_one(
                #[trigger] exchange::opening_packets(f, ns, me, now)[q],
                f,
                ns,
                me,
                now,
            ),
    decreases ns.len(),
{
    if ns.len() > 0 {
        let rest = ns.drop_last();
        let last = ns.len() - 1;
        let before = exchange::opening_packets(f, rest, me, now);
        let all = exchange::opening_packets(f, ns, me, now);
        lemma_openings(f, rest, me, now);
        assert(ns[last].dd_due(now) == opens(ns[last], now));
        if opens(ns[last], now) {
            assert(is_opening(all[before.len() as int], f, ns[last], me));
        }
        assert forall|j: int| 0 <= j < ns.len() && opens(#[trigger] ns[j], now) implies has_opening(
            all,
            f,
            ns[j],
            me,
        ) by {
            if j < last {
                assert(rest[j] == ns[j]);
                let q = choose|q: int| 0 <= q < before.len() && is_opening(#[trigger] before[q], f, ns[j], me);
                assert(is_opening(all[q], f, ns[j], me));
            }
        }
        assert forall|q: int| 0 <= q < all.len() implies opens_one(#[trigger] all[q], f, ns, me, now) by {
            if q < before.len() {
                assert(before[q] == all[q]);
                let j = choose|j: int|
                    0 <= j < rest.len() && opens(rest[j], now) && is_opening(
                        before[q],
                        f,
                        #[trigger] rest[j],
                        me,
                    );
                assert(is_opening(all[q], f, ns[j], me));
            } else {
                assert(is_opening(all[q], f, ns[last], me));
            }
        }
    }
}

/// Whether one of the packets opens an exchange with `n`.
pub open spec fn has_opening(
    ps: Seq<instance::OutgoingView>,
    f: interface::OspfInterfaceView,
    n: neighbor::NeighborView,
    me: u32,
) -> bool {
    exists|q: int| 0 <= q < ps.len() && is_opening(#[trigger] ps[q], f, n, me)
}

/// Whether the packet opens an exchange that is due.
pub open spec fn opens_one(
    p: instance::OutgoingView,
    f: interface::OspfInterfaceView,
    ns: Seq<neighbor::NeighborView>,
    me: u32,
    now: u64,
) -> bool {
    exists|j: int| 0 <= j < ns.len() && opens(ns[j], now) && is_opening(p, f, #[trigger] ns[j], me)
}

/// Whether requests have to be repeated to the neighbor: some are outstanding during an exchange or
/// while loading, and the last ones are older than the retransmission interval, or than a second if
/// that is 0.
pub open spec fn repeats(n: neighbor::NeighborView, rxmt: u16, now: u64) -> bool {
    &&& n.state == NeighborState::Exchange || n.state == NeighborState::Loading
    &&& n.ls_request_list.len() > 0
    &&& passed(
        n.last_lsr_sent,
        now,
        if rxmt == 0 {
            1000
        } else {
            rxmt * 1000
        },
    )
}

/// Whether the packet repeats requests to `n` on `f`: the first that are outstanding, as many as a
/// packet holds, to the address of the neighbor.
pub open spec fn is_repeat(
    p: instance::OutgoingView,
    f: interface::OspfInterfaceView,
    n: neighbor::NeighborView,
    me: u32,
) -> bool {
    &&& p.0 == f.sw_if_index
    &&& p.1 == n.address
    &&& p.2 matches packet::OspfPacketView::LinkStateRequest(h, ks) && h.router_id == me
        && h.area_id == f.area_id && ks.len() > 0 && ks.len() <= n.ls_request_list.len() && ks
        == n.ls_request_list.take(ks.len() as int)
}

/// Whether one of the packets repeats requests to `n`.
pub open spec fn has_repeat(
    ps: Seq<instance::OutgoingView>,
    f: interface::OspfInterfaceView,
    n: neighbor::NeighborView,
    me: u32,
) -> bool {
    exists|q: int| 0 <= q < ps.len() && is_repeat(#[trigger] ps[q], f, n, me)
}

/// Whether the packet repeats requests that are due.
pub open spec fn repeats_one(
    p: instance::OutgoingView,
    f: interface::OspfInterfaceView,
    ns: Seq<neighbor::NeighborView>,
    me: u32,
    now: u64,
) -> bool {
    exists|j: int|
        0 <= j < ns.len() && repeats(ns[j], f.rxmt_interval, now) && is_repeat(
            p,
            f,
            #[trigger] ns[j],
            me,
        )
}

/// An interface repeats requests to each neighbor for which they are due, and to no other.
pub proof fn lemma_repeats(
    f: interface::OspfInterfaceView,
    ns: Seq<neighbor::NeighborView>,
    me: u32,
    now: u64,
)
    ensures
        forall|j: int|
            0 <= j < ns.len() && repeats(#[trigger] ns[j], f.rxmt_interval, now) ==> has_repeat(
                exchange::repeated_requests(f, ns, me, now),
                f,
                ns[j],
                me,
            ),
        forall|q: int|
            0 <= q < exchange::repeated_requests(f, ns, me, now).len() ==> repeats_one(
                #[trigger] exchange::repeated_requests(f, ns, me, now)[q],
                f,
                ns,
                me,
                now,
            ),
    decreases ns.len(),
{
    if ns.len() > 0 {
        let rest = ns.drop_last();
        let last = ns.len() - 1;
        let n = ns[last];
        let before = exchange::repeated_requests(f, rest, me, now);
        let all = exchange::repeated_requests(f, ns, me, now);
        lemma_repeats(f, rest, me, now);
        assert(n.lsr_due(f.rxmt_interval, now) == repeats(n, f.rxmt_interval, now));
        if repeats(n, f.rxmt_interval, now) {
            let ks = n.next_requests();
            assert(ks =~= n.ls_request_list.take(ks.len() as int));
            assert(is_repeat(all[before.len() as int], f, ns[last], me));
        }
        assert forall|j: int|
            0 <= j < ns.len() && repeats(#[trigger] ns[j], f.rxmt_interval, now) implies has_repeat(
            all,
            f,
            ns[j],
            me,
        ) by {
            if j < last {
                assert(rest[j] == ns[j]);
                let q = choose|q: int| 0 <= q < before.len() && is_repeat(#[trigger] before[q], f, ns[j], me);
                assert(is_repeat(all[q], f, ns[j], me));
            }
        }
        assert forall|q: int| 0 <= q < all.len() implies repeats_one(#[trigger] all[q], f, ns, me, now) by {
            if q < before.len() {
                assert(before[q] == all[q]);
                let j = choose|j: int|
                    0 <= j < rest.len() && repeats(rest[j], f.rxmt_interval, now) && is_repeat(
                        before[q],
                        f,
                        #[trigger] rest[j],
                        me,
                    );
                assert(is_repeat(all[q], f, ns[j], me));
            } else {
                assert(is_repeat(all[q], f, ns[last], me));
            }
        }
    }
}

} // verus!
