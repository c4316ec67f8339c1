//! Laws of how an OSPFv3 instance is set up from its configuration.
use vstd::prelude::*;

use crate::config;
use crate::daemon_v3;
use crate::daemon_v3::V3InterfaceConfigView;
use crate::instance::setup;
use crate::instance::setup_laws;
use crate::instance_v3;
use crate::instance_v3::{
    InstanceV3View, InterfaceStateV3, InterfaceV3View, NetworkTypeV3, StaticNeighborV3,
};

verus! {

/// Whether the text names the kind of network; any text that names no other kind names a broadcast
/// network.
pub open spec fn names_kind(text: Seq<char>, kind: NetworkTypeV3) -> bool {
    match kind {
        NetworkTypeV3::PointToPoint => text == "point-to-point"@,
        NetworkTypeV3::NonBroadcast => text == "non-broadcast"@,
        NetworkTypeV3::PointToMultipoint => text == "point-to-multipoint"@,
        NetworkTypeV3::Broadcast => text != "point-to-point"@ && text != "non-broadcast"@ && text
            != "point-to-multipoint"@,
    }
}

/// Whether `x` enrols the configured interface, which the forwarder knows as `s`; its addresses are
/// not known yet.
pub open spec fn enrols(
    c: config::Ospf6InterfaceConfigView,
    s: setup::FoundInterfaceView,
    x: V3InterfaceConfigView,
) -> bool {
    &&& x.name == c.name && s.name == c.name
    &&& x.sw_if_index == s.sw_if_index
    &&& x.mac_address == s.mac_address
    &&& x.outer_vlan_id == s.outer_vlan_id
    &&& x.inner_vlan_id == s.inner_vlan_id
    &&& match s.kernel_ifindex {
        Some(k) => x.kernel_ifindex == k,
        None => x.kernel_ifindex == 0,
    }
    &&& x.link_local == 0 && x.global_prefixes.len() == 0
    &&& x.area_id == c.area_id
    &&& names_kind(c.network_type, x.network_type)
    &&& x.hello_interval == c.hello_interval
    &&& x.dead_interval == c.dead_interval % 65536
    &&& x.retransmit_interval == c.retransmit_interval
    &&& x.transmit_delay == c.transmit_delay
    &&& x.priority == c.priority
    &&& x.static_neighbors == c.static_neighbors
}

proof fn lemma_found(s: Seq<setup::FoundInterfaceView>, name: Seq<char>, from: int)
    requires
        0 <= from,
    ensures
        match setup::found_pos(s, name, from) {
            Some(i) => from <= i < s.len() && s[i].name == name,
            None => forall|i: int| from <= i < s.len() ==> (#[trigger] s[i]).name != name,
        },
    decreases s.len() - from,
{
    if from < s.len() && s[from].name != name {
        lemma_found(s, name, from + 1);
    }
}

/// A configured interface is enrolled with its own settings if and only if the forwarder knows one of
/// its name and, with raw sockets, the kernel does too.
pub proof fn lemma_enrolled(
    c: config::Ospf6InterfaceConfigView,
    s: Seq<setup::FoundInterfaceView>,
    raw: bool,
)
    ensures
        match daemon_v3::enrolled_interface(c, s, raw) {
            Some(x) => exists|i: int|
                0 <= i < s.len() && #[trigger] enrols(c, s[i], x) && (raw
                    ==> s[i].kernel_ifindex is Some),
            None => !setup_laws::is_found(s, c.name) || (raw && exists|i: int|
                0 <= i < s.len() && (#[trigger] s[i]).name == c.name && s[i].kernel_ifindex is None),
        },
{
    lemma_found(s, c.name, 0);
    if let Some(i) = setup::found_pos(s, c.name, 0) {
        if let Some(x) = daemon_v3::enrolled_interface(c, s, raw) {
            assert(enrols(c, s[i], x));
        } else {
            assert(s[i].name == c.name);
        }
    }
}

/// Whether an enrolled interface stands for the configured one.
pub open spec fn stands_for(
    xs: Seq<V3InterfaceConfigView>,
    c: config::Ospf6InterfaceConfigView,
    s: Seq<setup::FoundInterfaceView>,
    raw: bool,
) -> bool {
    daemon_v3::enrolled_interface(c, s, raw) matches Some(x) ==> xs.contains(x)
}

/// The enrolled interfaces are those of the configured ones that can be enrolled, and no others.
pub proof fn lemma_all_enrolled(
    cs: Seq<config::Ospf6InterfaceConfigView>,
    s: Seq<setup::FoundInterfaceView>,
    raw: bool,
)
    ensures
        forall|i: int|
            0 <= i < cs.len() ==> stands_for(
                daemon_v3::enrolled_interfaces(cs, s, raw),
                #[trigger] cs[i],
                s,
                raw,
            ),
        forall|q: int|
            0 <= q < daemon_v3::enrolled_interfaces(cs, s, raw).len() ==> exists|i: int|
                0 <= i < cs.len() && daemon_v3::enrolled_interface(#[trigger] cs[i], s, raw) == Some(
                    #[trigger] daemon_v3::enrolled_interfaces(cs, s, raw)[q],
                ),
    decreases cs.len(),
{
    if cs.len() > 0 {
        let rest = cs.drop_last();
        let last = cs.len() - 1;
        let before = daemon_v3::enrolled_interfaces(rest, s, raw);
        let all = daemon_v3::enrolled_interfaces(cs, s, raw);
        lemma_all_enrolled(rest, s, raw);
        assert forall|i: int| 0 <= i < cs.len() implies stands_for(all, #[trigger] cs[i], s, raw) by {
            if let Some(x) = daemon_v3::enrolled_interface(cs[i], s, raw) {
                if i < last {
                    assert(stands_for(before, rest[i], s, raw));
                    assert(all[before.index_of(x)] == x);
                } else {
                    assert(all[before.len() as int] == x);
                }
            }
        }
        assert forall|q: int| 0 <= q < all.len() implies exists|i: int|
            0 <= i < cs.len() && daemon_v3::enrolled_interface(#[trigger] cs[i], s, raw) == Some(
                #[trigger] all[q],
            ) by {
            if q < before.len() {
                assert(before[q] == all[q]);
                let i = choose|i: int|
                    0 <= i < rest.len() && daemon_v3::enrolled_interface(#[trigger] rest[i], s, raw)
                        == Some(before[q]);
                assert(daemon_v3::enrolled_interface(cs[i], s, raw) == Some(all[q]));
            } else {
                assert(daemon_v3::enrolled_interface(cs[last], s, raw) == Some(all[q]));
            }
        }
    }
}

/// Whether `f` is the interface that is added for `x`: up, without neighbors, with a refresh of our
/// LSAs due.
pub open spec fn is_of(x: V3InterfaceConfigView, f: InterfaceV3View) -> bool {
    &&& f.io.name == x.name
    &&& f.io.sw_if_index == x.sw_if_index
    &&& f.io.kernel_ifindex == x.kernel_ifindex
    &&& f.io.link_local == x.link_local
    &&& f.io.mac_address == x.mac_address
    &&& f.io.outer_vlan_id == x.outer_vlan_id
    &&& f.io.inner_vlan_id == x.inner_vlan_id
    &&& f.interface_id == x.kernel_ifindex
    &&& f.area_id == x.area_id
    &&& f.network_type == x.network_type
    &&& f.hello_interval == x.hello_interval
    &&& f.dead_interval == x.dead_interval
    &&& f.retransmit_interval == x.retransmit_interval
    &&& f.transmit_delay == x.transmit_delay
    &&& f.priority == x.priority
    &&& f.instance_id == 0
    &&& f.global_prefixes == x.global_prefixes
    &&& if x.network_type == NetworkTypeV3::Broadcast || x.network_type
        == NetworkTypeV3::NonBroadcast {
        f.state == InterfaceStateV3::Waiting
    } else {
        f.state == InterfaceStateV3::PointToPoint
    }
    &&& f.dr == 0 && f.bdr == 0
    &&& f.neighbors.len() == 0
    &&& f.needs_router_lsa_refresh
    &&& if x.network_type == NetworkTypeV3::NonBroadcast {
        are_static(x.static_neighbors, f.static_neighbors)
    } else {
        f.static_neighbors.len() == 0
    }
}

/// Whether the neighbors are the configured ones: address and priority, one for one.
pub open spec fn are_static(ps: Seq<(u128, u8)>, ns: Seq<StaticNeighborV3>) -> bool {
    &&& ns.len() == ps.len()
    &&& forall|k: int|
        0 <= k < ns.len() ==> (#[trigger] ns[k]).link_local == ps[k].0 && ns[k].priority == ps[k].1
}

/// Whether one of the interfaces is that of `x`.
pub open spec fn has_interface(fs: Seq<InterfaceV3View>, x: V3InterfaceConfigView) -> bool {
    exists|q: int| 0 <= q < fs.len() && is_of(x, #[trigger] fs[q])
}

/// An interface that is added stands among the interfaces with its own settings; every interface
/// with another index stays as it is.
pub proof fn lemma_added(me: InstanceV3View, x: V3InterfaceConfigView, now: u64, y: V3InterfaceConfigView)
    ensures
        has_interface(me.with_config(x, now).interfaces, x),
        y.sw_if_index != x.sw_if_index && has_interface(me.interfaces, y) ==> has_interface(
            me.with_config(x, now).interfaces,
            y,
        ),
{
    let r = me.with_config(x, now);
    let idx = x.sw_if_index;
    instance_v3::lemma_iface_pos(me.interfaces, idx, 0);
    let f = InstanceV3View::fresh_interface(
        x.io(),
        x.area_id,
        x.network_type,
        x.hello_interval,
        x.dead_interval,
        x.priority,
        x.global_prefixes,
        x.retransmit_interval,
        x.transmit_delay,
        now,
    );
    let a = me.with_interface(f);
    instance_v3::lemma_iface_pos(a.interfaces, idx, 0);
    let at = match instance_v3::iface_pos(me.interfaces, idx, 0) {
        Some(i) => i,
        None => me.interfaces.len() as int,
    };
    assert(a.interfaces[at] == f);
    if at > 0 && instance_v3::iface_pos(me.interfaces, idx, 0) is Some {
        assert forall|j: int| 0 <= j < at implies (#[trigger] a.interfaces[j]).io.sw_if_index
            != idx by {
            assert(a.interfaces[j] == me.interfaces[j]);
        }
    }
    assert(instance_v3::iface_pos(a.interfaces, idx, 0) == Some(at));
    assert(is_of(x, r.interfaces[at]));
    if y.sw_if_index != idx && has_interface(me.interfaces, y) {
        let q = choose|q: int| 0 <= q < me.interfaces.len() && is_of(y, #[trigger] me.interfaces[q]);
        assert(r.interfaces[q] == me.interfaces[q]);
    }
}

/// A populated instance has an interface for each enrolled one whose index no later one has.
pub proof fn lemma_populated(me: InstanceV3View, xs: Seq<V3InterfaceConfigView>, now: u64, k: int)
    requires
        0 <= k < xs.len(),
        forall|j: int| k < j < xs.len() ==> (#[trigger] xs[j]).sw_if_index != xs[k].sw_if_index,
    ensures
        has_interface(me.with_configs(xs, now).interfaces, xs[k]),
    decreases xs.len(),
{
    let rest = xs.drop_last();
    let before = me.with_configs(rest, now);
    lemma_added(before, xs.last(), now, xs[k]);
    if k < rest.len() {
        assert forall|j: int| k < j < rest.len() implies (#[trigger] rest[j]).sw_if_index
            != rest[k].sw_if_index by {
            assert(rest[j] == xs[j]);
        }
        lemma_populated(me, rest, now, k);
        assert(xs[xs.len() - 1].sw_if_index != xs[k].sw_if_index);
    }
}

} // verus!
