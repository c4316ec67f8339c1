//! Laws of how an instance is set up: what it takes from its configuration and from what the
//! forwarder knows.
use vstd::prelude::*;

use crate::area;
use crate::area::AreaType;
use crate::config;
use crate::config::{AreaConfig, OspfDaemonConfig, OspfInterfaceConfig};
use crate::instance;
use crate::instance::flooding;
use crate::instance::setup;
use crate::instance::OspfInstanceView;
use crate::io;
use crate::prefix;
use crate::proto::interface;
use crate::proto::interface::{InterfaceState, NetworkType};

verus! {

/// Whether the text names the kind of network; any text that names no other kind names a broadcast
/// network.
pub open spec fn names_kind(text: Seq<char>, kind: NetworkType) -> bool {
    match kind {
        NetworkType::PointToPoint => text == "point-to-point"@,
        NetworkType::NonBroadcast => text == "non-broadcast"@,
        NetworkType::PointToMultipoint => text == "point-to-multipoint"@,
        NetworkType::Broadcast => text != "point-to-point"@ && text != "non-broadcast"@ && text
            != "point-to-multipoint"@,
    }
}

/// Whether `f` is the interface of the configuration entry on the router `me`, still down.
pub open spec fn is_of(c: OspfInterfaceConfig, me: u32, f: interface::OspfInterfaceView) -> bool {
    &&& f.name == c.name@
    &&& f.address == c.address
    &&& f.mask == prefix::mask_v4(c.prefix_len as int)
    &&& f.area_id == c.area_id
    &&& names_kind(c.network_type@, f.network_type)
    &&& f.hello_interval == c.hello_interval
    &&& f.dead_interval == c.dead_interval
    &&& f.rxmt_interval == c.retransmit_interval
    &&& f.cost == c.cost
    &&& f.priority == c.priority
    &&& f.auth_key == c.auth_key@
    &&& f.router_id == me
    &&& f.state == InterfaceState::Down
    &&& f.dr == 0 && f.bdr == 0
    &&& f.neighbors.len() == 0
    &&& f.static_neighbors.len() == c.static_neighbors@.len()
    &&& forall|k: int|
        0 <= k < f.static_neighbors.len() ==> (#[trigger] f.static_neighbors[k]).address
            == c.static_neighbors@[k].0 && f.static_neighbors[k].priority == c.static_neighbors@[k].1
}

/// Whether one of the interfaces is that of the entry.
pub open spec fn has_interface(
    fs: Seq<interface::OspfInterfaceView>,
    c: OspfInterfaceConfig,
    me: u32,
) -> bool {
    exists|q: int| 0 <= q < fs.len() && is_of(c, me, #[trigger] fs[q])
}

/// Whether `f` is the interface of one of the entries, one that is not passive.
pub open spec fn is_configured(
    cs: Seq<OspfInterfaceConfig>,
    me: u32,
    f: interface::OspfInterfaceView,
) -> bool {
    exists|i: int| 0 <= i < cs.len() && !cs[i].passive && is_of(#[trigger] cs[i], me, f)
}

proof fn lemma_interfaces(cs: Seq<OspfInterfaceConfig>, me: u32)
    ensures
        forall|i: int|
            0 <= i < cs.len() && !(#[trigger] cs[i]).passive ==> has_interface(
                instance::configured_interfaces(cs, me),
                cs[i],
                me,
            ),
        forall|q: int|
            0 <= q < instance::configured_interfaces(cs, me).len() ==> is_configured(
                cs,
                me,
                #[trigger] instance::configured_interfaces(cs, me)[q],
            ),
    decreases cs.len(),
{
    let all = instance::configured_interfaces(cs, me);
    if cs.len() > 0 {
        let rest = cs.drop_last();
        let last = cs.len() - 1;
        let before = instance::configured_interfaces(rest, me);
        lemma_interfaces(rest, me);
        if !cs[last].passive {
            assert(is_of(cs[last], me, all[before.len() as int]));
        }
        assert forall|i: int| 0 <= i < cs.len() && !(#[trigger] cs[i]).passive implies has_interface(
            all,
            cs[i],
            me,
        ) by {
            if i < last {
                assert(rest[i] == cs[i]);
                let q = choose|q: int| 0 <= q < before.len() && is_of(cs[i], me, #[trigger] before[q]);
                assert(is_of(cs[i], me, all[q]));
            }
        }
        assert forall|q: int| 0 <= q < all.len() implies is_configured(cs, me, #[trigger] all[q]) by {
            if q < before.len() {
                assert(before[q] == all[q]);
                let i = choose|i: int|
                    0 <= i < rest.len() && !rest[i].passive && is_of(#[trigger] rest[i], me, before[q]);
                assert(is_of(cs[i], me, all[q]));
            }
        }
    }
}

/// Whether `id` is the area of one of the entries.
pub open spec fn is_area_of(cs: Seq<OspfInterfaceConfig>, id: u32) -> bool {
    exists|i: int| 0 <= i < cs.len() && (#[trigger] cs[i]).area_id == id
}

/// Whether the area has the type and the cost that are configured for it: those of the last entry
/// with its id, or normal and 1 if there is none.
pub open spec fn is_set(cs: Seq<AreaConfig>, a: area::AreaView) -> bool {
    if exists|k: int| 0 <= k < cs.len() && (#[trigger] cs[k]).area_id == a.area_id {
        exists|k: int|
            {
                &&& 0 <= k < cs.len()
                &&& (#[trigger] cs[k]).area_id == a.area_id
                &&& forall|j: int| k < j < cs.len() ==> (#[trigger] cs[j]).area_id != a.area_id
                &&& a.default_cost == cs[k].default_cost
                &&& a.area_type == AreaType::Stub <==> cs[k].area_type == config::AreaType::Stub
                &&& a.area_type == AreaType::Nssa <==> cs[k].area_type == config::AreaType::Nssa
            }
    } else {
        a.default_cost == 1 && a.area_type == AreaType::Normal
    }
}

proof fn lemma_setting(cs: Seq<AreaConfig>, a: area::AreaView)
    requires
        a.area_type == instance::area_setting(cs, a.area_id).0,
        a.default_cost == instance::area_setting(cs, a.area_id).1,
    ensures
        is_set(cs, a),
    decreases cs.len(),
{
    if cs.len() > 0 {
        let last = cs.len() - 1;
        let rest = cs.drop_last();
        if cs[last].area_id != a.area_id {
            lemma_setting(rest, a);
            if exists|k: int| 0 <= k < cs.len() && (#[trigger] cs[k]).area_id == a.area_id {
                let k = choose|k: int| 0 <= k < cs.len() && (#[trigger] cs[k]).area_id == a.area_id;
                assert(rest[k].area_id == a.area_id);
                let m = choose|m: int|
                    {
                        &&& 0 <= m < rest.len()
                        &&& (#[trigger] rest[m]).area_id == a.area_id
                        &&& forall|j: int|
                            m < j < rest.len() ==> (#[trigger] rest[j]).area_id != a.area_id
                        &&& a.default_cost == rest[m].default_cost
                        &&& a.area_type == AreaType::Stub <==> rest[m].area_type
                            == config::AreaType::Stub
                        &&& a.area_type == AreaType::Nssa <==> rest[m].area_type
                            == config::AreaType::Nssa
                    };
                assert(cs[m] == rest[m]);
                assert forall|j: int| m < j < cs.len() implies (#[trigger] cs[j]).area_id
                    != a.area_id by {
                    if j < last {
                        assert(rest[j] == cs[j]);
                    }
                }
            } else {
                assert forall|k: int| 0 <= k < rest.len() implies (#[trigger] rest[k]).area_id
                    != a.area_id by {
                    assert(cs[k] == rest[k]);
                }
            }
        } else {
            assert(cs[last].area_id == a.area_id);
        }
    }
}

/// Whether one of the areas has this id.
pub open spec fn has_area(s: Seq<area::AreaView>, id: u32) -> bool {
    exists|k: int| 0 <= k < s.len() && (#[trigger] s[k]).area_id == id
}

proof fn lemma_areas(cs: Seq<OspfInterfaceConfig>, ts: Seq<AreaConfig>, me: u32)
    ensures
        forall|k: int|
            0 <= k < instance::configured_areas(cs, ts, me).len() ==> is_set(
                ts,
                #[trigger] instance::configured_areas(cs, ts, me)[k],
            ) && is_area_of(cs, instance::configured_areas(cs, ts, me)[k].area_id),
        forall|i: int|
            0 <= i < cs.len() ==> has_area(
                instance::configured_areas(cs, ts, me),
                (#[trigger] cs[i]).area_id,
            ),
    decreases cs.len(),
{
    let all = instance::configured_areas(cs, ts, me);
    if cs.len() > 0 {
        let rest = cs.drop_last();
        let last = cs.len() - 1;
        let before = instance::configured_areas(rest, ts, me);
        let id = cs[last].area_id;
        lemma_areas(rest, ts, me);
        flooding::lemma_area_pos(before, id, 0);
        if instance::area_pos(before, id, 0) is None {
            lemma_setting(ts, all[before.len() as int]);
            assert(all[before.len() as int].area_id == id);
        }
        assert forall|k: int| 0 <= k < all.len() implies is_set(ts, #[trigger] all[k])
            && is_area_of(cs, all[k].area_id) by {
            if k < before.len() {
                assert(before[k] == all[k]);
                let i = choose|i: int| 0 <= i < rest.len() && (#[trigger] rest[i]).area_id == all[k].area_id;
                assert(cs[i] == rest[i]);
            } else {
                assert(cs[last].area_id == all[k].area_id);
            }
        }
        assert forall|i: int| 0 <= i < cs.len() implies has_area(all, (#[trigger] cs[i]).area_id) by {
            if i < last {
                assert(rest[i] == cs[i]);
                let k = choose|k: int| 0 <= k < before.len() && (#[trigger] before[k]).area_id == cs[i].area_id;
                assert(all[k] == before[k]);
            } else if let Some(k) = instance::area_pos(before, id, 0) {
                assert(all[k].area_id == id);
            }
        }
    }
}

/// An instance has an interface for each configured one that is not passive, with its settings, and
/// no other; it has the backbone and the areas of all configured interfaces, each as configured, and
/// no other; and it takes the times of route computation and its rules from the configuration.
pub proof fn lemma_configured(c: OspfDaemonConfig)
    ensures
        ({
            let me = OspfInstanceView::configured(c);
            &&& me.router_id == c.router_id
            &&& me.spf_delay_ms == c.spf_delay_ms
            &&& me.spf_holdtime_ms == c.spf_holdtime_ms
            &&& me.spf_max_holdtime_ms == c.spf_max_holdtime_ms
            &&& me.summary_addresses == c.summary_addresses@
            &&& me.redistribute.len() == c.redistribute@.len()
            &&& me.route_maps.len() == c.route_maps@.len()
            &&& forall|i: int|
                0 <= i < c.interfaces@.len() && !(#[trigger] c.interfaces@[i]).passive
                    ==> has_interface(me.interfaces, c.interfaces@[i], c.router_id)
            &&& forall|q: int|
                0 <= q < me.interfaces.len() ==> is_configured(
                    c.interfaces@,
                    c.router_id,
                    #[trigger] me.interfaces[q],
                )
            &&& has_area(me.areas, 0)
            &&& forall|i: int|
                0 <= i < c.interfaces@.len() ==> has_area(
                    me.areas,
                    (#[trigger] c.interfaces@[i]).area_id,
                )
            &&& forall|k: int|
                0 <= k < me.areas.len() && is_area_of(
                    c.interfaces@,
                    (#[trigger] me.areas[k]).area_id,
                ) ==> is_set(c.areas@, me.areas[k])
            &&& forall|k: int|
                0 <= k < me.areas.len() ==> (#[trigger] me.areas[k]).area_id == 0 || is_area_of(
                    c.interfaces@,
                    me.areas[k].area_id,
                )
        }),
{
    let me = OspfInstanceView::configured(c);
    let s = instance::configured_areas(c.interfaces@, c.areas@, c.router_id);
    lemma_interfaces(c.interfaces@, c.router_id);
    lemma_areas(c.interfaces@, c.areas@, c.router_id);
    flooding::lemma_area_pos(s, 0, 0);
    match instance::area_pos(s, 0, 0) {
        Some(k) => {
            assert(me.areas[k].area_id == 0);
        },
        None => {
            assert(me.areas[s.len() as int].area_id == 0);
            if is_area_of(c.interfaces@, 0) {
                let i = choose|i: int|
                    0 <= i < c.interfaces@.len() && (#[trigger] c.interfaces@[i]).area_id == 0;
                assert(has_area(s, c.interfaces@[i].area_id));
            }
        },
    }
    assert forall|i: int| 0 <= i < c.interfaces@.len() implies has_area(
        me.areas,
        (#[trigger] c.interfaces@[i]).area_id,
    ) by {
        let k = choose|k: int| 0 <= k < s.len() && (#[trigger] s[k]).area_id == c.interfaces@[i].area_id;
        assert(me.areas[k] == s[k]);
    }
    assert forall|k: int| 0 <= k < me.areas.len() implies ((#[trigger] me.areas[k]).area_id == 0
        || is_area_of(c.interfaces@, me.areas[k].area_id)) && (is_area_of(
        c.interfaces@,
        me.areas[k].area_id,
    ) ==> is_set(c.areas@, me.areas[k])) by {
        if k < s.len() {
            assert(s[k] == me.areas[k]);
        }
    }
}

proof fn lemma_found(s: Seq<setup::FoundInterfaceView>, name: Seq<char>, from: int)
    requires
        0 <= from,
    ensures
        match setup::found_pos(s, name, from) {
            Some(i) => from <= i < s.len() && s[i].name == name,
            None => forall|i: int| from <= i < s.len() ==> (#[trigger] s[i]).name != name,
        },
    decreases s.len() - from,
{
    if from < s.len() && s[from].name != name {
        lemma_found(s, name, from + 1);
    }
}

/// Whether one of those found has the name.
pub open spec fn is_found(s: Seq<setup::FoundInterfaceView>, name: Seq<char>) -> bool {
    exists|i: int| 0 <= i < s.len() && (#[trigger] s[i]).name == name
}

/// An interface takes the index and, if there is one, the address from the one of its name that the
/// forwarder knows, and keeps everything else; packets go through that one. If there is none,
/// nothing changes, and no packets go through it.
pub proof fn lemma_resolved(
    f: interface::OspfInterfaceView,
    s: Seq<setup::FoundInterfaceView>,
    raw: bool,
)
    ensures
        ({
            let r = f.resolved(s);
            &&& r == (interface::OspfInterfaceView {
                sw_if_index: r.sw_if_index,
                address: r.address,
                mask: r.mask,
                ..f
            })
            &&& !is_found(s, f.name) ==> r == f && f.io_of(s, raw) is None
            &&& is_found(s, f.name) ==> exists|i: int|
                {
                    &&& 0 <= i < s.len()
                    &&& (#[trigger] s[i]).name == f.name
                    &&& r.sw_if_index == s[i].sw_if_index
                    &&& match s[i].address {
                        Some(a) => r.address == a.0 && r.mask == prefix::mask_v4(a.1 as int),
                        None => r.address == f.address && r.mask == f.mask,
                    }
                    &&& match f.io_of(s, raw) {
                        Some(p) => goes_through(p, r, s[i]) && (raw ==> s[i].kernel_ifindex is Some),
                        None => raw && s[i].kernel_ifindex is None,
                    }
                }
        }),
{
    lemma_found(s, f.name, 0);
    if let Some(i) = setup::found_pos(s, f.name, 0) {
        assert(s[i].name == f.name);
    }
}

/// Whether `p` is the way of packets through the interface `r`, which the forwarder knows as `x`.
pub open spec fn goes_through(
    p: io::IoInterfaceView,
    r: interface::OspfInterfaceView,
    x: setup::FoundInterfaceView,
) -> bool {
    &&& p.name == r.name
    &&& p.sw_if_index == x.sw_if_index
    &&& p.address == r.address
    &&& p.mac_address == x.mac_address
    &&& p.outer_vlan_id == x.outer_vlan_id
    &&& p.inner_vlan_id == x.inner_vlan_id
    &&& match x.kernel_ifindex {
        Some(k) => p.kernel_ifindex == k,
        None => p.kernel_ifindex == 0,
    }
}

} // verus!
