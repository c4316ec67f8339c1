//! What each key of the configuration file means: every setting of an instance comes from its own key,
//! or from its own default.
use vstd::prelude::*;

use crate::config;
use crate::config::assemble;
use crate::config::assemble_v3;
use crate::config::list_laws;
use crate::config::yaml::{
    AddrEntry, InterfaceConfig, LoopbackConfig, OspfBlock, RouterConfig, SubInterfaceConfig,
};
use crate::packet::auth;
use crate::text;

verus! {

/// Whether `x` is the value of the key, or the default if the key is not given.
pub open spec fn keyed<T>(x: T, key: Option<T>, default: T) -> bool {
    match key {
        Some(v) => x == v,
        None => x == default,
    }
}

/// Whether something with the VRF key `of` belongs to the instance of `vrf`; nothing, the empty text
/// and `default` stand for the default VRF.
pub open spec fn serves(of: Option<String>, vrf: Option<Seq<char>>) -> bool {
    match vrf {
        None => of is None || of->0@.len() == 0 || of->0@ == "default"@,
        Some(name) => of is Some && of->0@ == name && name.len() > 0 && name != "default"@,
    }
}

/// Whether the text of the key is the kind of network; broadcast by default.
pub open spec fn kind_keyed(x: Seq<char>, key: Option<String>) -> bool {
    match key {
        Some(t) => x == t@,
        None => x == "broadcast"@,
    }
}

/// Whether the address and its prefix length are those of the entry; without one that can be read
/// the address is 0.0.0.0 and the length the default.
pub open spec fn addressed(address: u32, len: u8, entry: Option<(Seq<char>, u8)>, default: u8) -> bool {
    match entry {
        Some((t, n)) if text::ipv4(t) is Some => address == text::ipv4(t)->0 && len == n,
        _ => address == 0 && len == default,
    }
}

/// Whether one of the addresses that are pairs of text and length is the first of them, and `p` it.
pub open spec fn leading(es: Seq<AddrEntry>, p: Option<(Seq<char>, u8)>) -> bool {
    match p {
        Some(pair) => exists|k: int|
            0 <= k < es.len() && (#[trigger] es[k]).pair() == Some(pair) && forall|i: int|
                0 <= i < k ==> (#[trigger] es[i]).pair() is None,
        None => forall|k: int| 0 <= k < es.len() ==> (#[trigger] es[k]).pair() is None,
    }
}

proof fn lemma_leading(es: Seq<AddrEntry>, from: int)
    requires
        0 <= from,
        forall|i: int| 0 <= i < from && i < es.len() ==> (#[trigger] es[i]).pair() is None,
    ensures
        leading(es, assemble::first_pair(es, from)),
    decreases es.len() - from,
{
    if from < es.len() {
        if es[from].pair() is None {
            lemma_leading(es, from + 1);
        }
    }
}

proof fn lemma_serves(of: Option<String>, vrf: Option<Seq<char>>)
    ensures
        assemble::in_vrf(config::opt_text(of), vrf) == serves(of, vrf),
{
    reveal_strlit("default");
}

/// Whether the OSPFv2 interface is the one that an interface describes, `passive` being the default of its
/// instance: each setting comes from the key of its name.
pub open spec fn is_interface(
    f: InterfaceConfig,
    passive: bool,
    x: config::OspfInterfaceConfigView,
) -> bool {
    &&& match f.name {
        Some(n) => x.name == n@,
        None => x.name.len() == 0,
    }
    &&& assemble::area_id_of(f.ospf_area->0) == Ok::<u32, assemble::ConfigErrorView>(x.area_id)
    &&& keyed(x.cost, f.ospf_cost, 10)
    &&& keyed(x.passive, f.ospf_passive, passive)
    &&& kind_keyed(x.network_type, f.ospf_network_type)
    &&& keyed(x.hello_interval, f.ospf_hello_interval, 10)
    &&& keyed(x.dead_interval, f.ospf_dead_interval, 40)
    &&& keyed(x.retransmit_interval, f.ospf_retransmit_interval, 5)
    &&& keyed(x.priority, f.ospf_priority, 1)
    &&& addressed(
        x.address,
        x.prefix_len,
        if f.ipv4@.len() > 0 {
            f.ipv4@[0].pair()
        } else {
            None
        },
        24,
    )
    &&& list_laws::is_key(
        f.ospf_auth_type,
        f.ospf_auth_key,
        f.ospf_md5_key_id,
        f.ospf_md5_key,
        x.auth_key,
    )
    &&& list_laws::are_neighbors(f.ospf_network_type, f.ospf_neighbors@, x.static_neighbors)
}

/// Whether the OSPFv2 interface is the one that a VLAN on an interface describes, `passive` being the default of its
/// instance: each setting comes from the key of its name.
pub open spec fn is_vlan(
    parent: Seq<char>,
    f: SubInterfaceConfig,
    passive: bool,
    x: config::OspfInterfaceConfigView,
) -> bool {
    &&& x.name == parent + "."@ + text::decimal_text(f.vlan_id as nat)
    &&& assemble::area_id_of(f.ospf_area->0) == Ok::<u32, assemble::ConfigErrorView>(x.area_id)
    &&& keyed(x.cost, f.ospf_cost, 10)
    &&& keyed(x.passive, f.ospf_passive, passive)
    &&& kind_keyed(x.network_type, f.ospf_network_type)
    &&& keyed(x.hello_interval, f.ospf_hello_interval, 10)
    &&& keyed(x.dead_interval, f.ospf_dead_interval, 40)
    &&& keyed(x.retransmit_interval, f.ospf_retransmit_interval, 5)
    &&& keyed(x.priority, f.ospf_priority, 1)
    &&& exists|p: Option<(Seq<char>, u8)>|
        leading(f.ipv4@, p) && #[trigger] addressed(x.address, x.prefix_len, p, 24)
    &&& list_laws::is_key(
        f.ospf_auth_type,
        f.ospf_auth_key,
        f.ospf_md5_key_id,
        f.ospf_md5_key,
        x.auth_key,
    )
    &&& list_laws::are_neighbors(f.ospf_network_type, f.ospf_neighbors@, x.static_neighbors)
}

/// Whether the OSPFv2 interface is the one that a loopback describes: passive unless it says otherwise.
pub open spec fn is_loopback(f: LoopbackConfig, x: config::OspfInterfaceConfigView) -> bool {
    &&& match f.name {
        Some(n) => x.name == n@,
        None => x.name.len() == 0,
    }
    &&& assemble::area_id_of(f.ospf_area->0) == Ok::<u32, assemble::ConfigErrorView>(x.area_id)
    &&& keyed(x.cost, f.ospf_cost, 1)
    &&& keyed(x.passive, f.ospf_passive, true)
    &&& x.network_type == "point-to-point"@
    &&& x.hello_interval == 10
    &&& x.dead_interval == 40
    &&& x.retransmit_interval == 5
    &&& x.priority == 0
    &&& x.static_neighbors.len() == 0
    &&& x.auth_key == auth::AuthKeyView::Null
    &&& exists|p: Option<(Seq<char>, u8)>|
        leading(f.ipv4@, p) && #[trigger] addressed(x.address, x.prefix_len, p, 32)
}

proof fn lemma_parent(f: InterfaceConfig, passive: bool, vrf: Option<Seq<char>>)
    ensures
        assemble::parent_part(f, passive, vrf) matches Ok(s) ==> if f.ospf_area is Some && serves(
            f.vrf,
            vrf,
        ) {
            s.len() == 1 && is_interface(f, passive, s[0])
        } else {
            s.len() == 0
        },
{
    lemma_serves(f.vrf, vrf);
    list_laws::lemma_auth_key(
        f.ospf_auth_type,
        f.ospf_auth_key,
        f.ospf_md5_key_id,
        f.ospf_md5_key,
    );
    list_laws::lemma_neighbors(f.ospf_network_type, f.ospf_neighbors@);
    reveal_strlit("");
}

proof fn lemma_vlan(
    parent: Seq<char>,
    f: SubInterfaceConfig,
    passive: bool,
    vrf: Option<Seq<char>>,
)
    ensures
        assemble::sub_part(parent, f, passive, vrf) matches Ok(s) ==> if f.ospf_area is Some && serves(
            f.vrf,
            vrf,
        ) {
            s.len() == 1 && is_vlan(parent, f, passive, s[0])
        } else {
            s.len() == 0
        },
{
    lemma_serves(f.vrf, vrf);
    lemma_leading(f.ipv4@, 0);
    list_laws::lemma_auth_key(
        f.ospf_auth_type,
        f.ospf_auth_key,
        f.ospf_md5_key_id,
        f.ospf_md5_key,
    );
    list_laws::lemma_neighbors(f.ospf_network_type, f.ospf_neighbors@);
    if let Ok(s) = assemble::sub_part(parent, f, passive, vrf) {
        if f.ospf_area is Some && serves(f.vrf, vrf) {
            assert(addressed(
                s[0].address,
                s[0].prefix_len,
                assemble::first_pair(f.ipv4@, 0),
                24,
            ));
        }
    }
}

proof fn lemma_loopback(f: LoopbackConfig, vrf: Option<Seq<char>>)
    ensures
        assemble::loopback_part(f, vrf) matches Ok(s) ==> if f.ospf_area is Some && serves(f.vrf, vrf) {
            s.len() == 1 && is_loopback(f, s[0])
        } else {
            s.len() == 0
        },
{
    lemma_serves(f.vrf, vrf);
    reveal_strlit("");
    lemma_leading(f.ipv4@, 0);
    if let Ok(s) = assemble::loopback_part(f, vrf) {
        if f.ospf_area is Some && serves(f.vrf, vrf) {
            assert(addressed(
                s[0].address,
                s[0].prefix_len,
                assemble::first_pair(f.ipv4@, 0),
                32,
            ));
        }
    }
}

/// Whether an OSPFv2 interface of an instance stands in the file: as an interface, as a VLAN on one,
/// or as a loopback.
pub open spec fn stems(
    c: RouterConfig,
    passive: bool,
    vrf: Option<Seq<char>>,
    x: config::OspfInterfaceConfigView,
) -> bool {
    ||| exists|i: int|
        0 <= i < c.interfaces@.len() && (#[trigger] c.interfaces@[i]).ospf_area is Some && serves(
            c.interfaces@[i].vrf,
            vrf,
        ) && is_interface(c.interfaces@[i], passive, x)
    ||| exists|i: int, j: int|
        0 <= i < c.interfaces@.len() && 0 <= j < c.interfaces@[i].subinterfaces@.len() && (
        #[trigger] c.interfaces@[i].subinterfaces@[j]).ospf_area is Some && serves(
            c.interfaces@[i].subinterfaces@[j].vrf,
            vrf,
        ) && c.interfaces@[i].name is Some && is_vlan(
            c.interfaces@[i].name->0@,
            c.interfaces@[i].subinterfaces@[j],
            passive,
            x,
        )
    ||| exists|i: int|
        0 <= i < c.loopbacks@.len() && (#[trigger] c.loopbacks@[i]).ospf_area is Some && serves(
            c.loopbacks@[i].vrf,
            vrf,
        ) && is_loopback(c.loopbacks@[i], x)
}

/// Whether one of the list is the interface.
pub open spec fn lists_interface(
    s: Seq<config::OspfInterfaceConfigView>,
    f: InterfaceConfig,
    passive: bool,
) -> bool {
    exists|k: int| 0 <= k < s.len() && is_interface(f, passive, #[trigger] s[k])
}

/// Whether one of the list is the VLAN.
pub open spec fn lists_vlan(
    s: Seq<config::OspfInterfaceConfigView>,
    parent: Seq<char>,
    f: SubInterfaceConfig,
    passive: bool,
) -> bool {
    exists|k: int| 0 <= k < s.len() && is_vlan(parent, f, passive, #[trigger] s[k])
}

/// Whether one of the list is the loopback.
pub open spec fn lists_loopback(s: Seq<config::OspfInterfaceConfigView>, f: LoopbackConfig) -> bool {
    exists|k: int| 0 <= k < s.len() && is_loopback(f, #[trigger] s[k])
}

proof fn lemma_vlans(
    parent: Seq<char>,
    fs: Seq<SubInterfaceConfig>,
    passive: bool,
    vrf: Option<Seq<char>>,
    from: int,
    j: int,
)
    requires
        0 <= from <= j < fs.len(),
        fs[j].ospf_area is Some,
        serves(fs[j].vrf, vrf),
    ensures
        assemble::sub_parts(parent, fs, passive, vrf, from) matches Ok(s) ==> lists_vlan(
            s,
            parent,
            fs[j],
            passive,
        ),
    decreases fs.len() - from,
{
    lemma_vlan(parent, fs[from], passive, vrf);
    if let Ok(s) = assemble::sub_parts(parent, fs, passive, vrf, from) {
        let a = assemble::sub_part(parent, fs[from], passive, vrf)->Ok_0;
        let b = assemble::sub_parts(parent, fs, passive, vrf, from + 1)->Ok_0;
        assert(s == a + b);
        if j > from {
            lemma_vlans(parent, fs, passive, vrf, from + 1, j);
            let k = choose|k: int|
                0 <= k < b.len() && is_vlan(parent, fs[j], passive, #[trigger] b[k]);
            assert(s[a.len() + k] == b[k]);
        } else {
            assert(s[0] == a[0]);
        }
    }
}

proof fn lemma_vlans_stem(
    parent: Seq<char>,
    fs: Seq<SubInterfaceConfig>,
    passive: bool,
    vrf: Option<Seq<char>>,
    from: int,
    q: int,
) -> (j: int)
    requires
        0 <= from,
        assemble::sub_parts(parent, fs, passive, vrf, from) is Ok,
        0 <= q < assemble::sub_parts(parent, fs, passive, vrf, from)->Ok_0.len(),
    ensures
        from <= j < fs.len(),
        fs[j].ospf_area is Some,
        serves(fs[j].vrf, vrf),
        is_vlan(
            parent,
            fs[j],
            passive,
            assemble::sub_parts(parent, fs, passive, vrf, from)->Ok_0[q],
        ),
    decreases fs.len() - from,
{
    lemma_vlan(parent, fs[from], passive, vrf);
    let s = assemble::sub_parts(parent, fs, passive, vrf, from)->Ok_0;
    let a = assemble::sub_part(parent, fs[from], passive, vrf)->Ok_0;
    let b = assemble::sub_parts(parent, fs, passive, vrf, from + 1)->Ok_0;
    assert(s == a + b);
    if q < a.len() {
        from
    } else {
        assert(s[q] == b[q - a.len()]);
        lemma_vlans_stem(parent, fs, passive, vrf, from + 1, q - a.len())
    }
}

proof fn lemma_interfaces(
    fs: Seq<InterfaceConfig>,
    passive: bool,
    vrf: Option<Seq<char>>,
    from: int,
    i: int,
)
    requires
        0 <= from <= i < fs.len(),
    ensures
        assemble::interface_parts(fs, passive, vrf, from) matches Ok(s) ==> {
            &&& fs[i].ospf_area is Some && serves(fs[i].vrf, vrf) ==> lists_interface(
                s,
                fs[i],
                passive,
            )
            &&& forall|j: int|
                0 <= j < fs[i].subinterfaces@.len() && (
                #[trigger] fs[i].subinterfaces@[j]).ospf_area is Some && serves(
                    fs[i].subinterfaces@[j].vrf,
                    vrf,
                ) && fs[i].name is Some && fs[i].name->0@.len() > 0 ==> lists_vlan(
                    s,
                    fs[i].name->0@,
                    fs[i].subinterfaces@[j],
                    passive,
                )
        },
    decreases fs.len() - from,
{
    if let Ok(s) = assemble::interface_parts(fs, passive, vrf, from) {
        let a = assemble::interface_part(fs[from], passive, vrf)->Ok_0;
        let b = assemble::interface_parts(fs, passive, vrf, from + 1)->Ok_0;
        assert(s == a + b);
        if i > from {
            lemma_interfaces(fs, passive, vrf, from + 1, i);
            if fs[i].ospf_area is Some && serves(fs[i].vrf, vrf) {
                let k = choose|k: int|
                    0 <= k < b.len() && is_interface(fs[i], passive, #[trigger] b[k]);
                assert(s[a.len() + k] == b[k]);
            }
        } else {
            lemma_parent(fs[i], passive, vrf);
            let p = assemble::parent_part(fs[i], passive, vrf)->Ok_0;
            if fs[i].ospf_area is Some && serves(fs[i].vrf, vrf) {
                assert(s[0] == p[0]);
            }
        }
        assert forall|j: int|
            0 <= j < fs[i].subinterfaces@.len() && (
            #[trigger] fs[i].subinterfaces@[j]).ospf_area is Some && serves(
                fs[i].subinterfaces@[j].vrf,
                vrf,
            ) && fs[i].name is Some && fs[i].name->0@.len() > 0 implies lists_vlan(
            s,
            fs[i].name->0@,
            fs[i].subinterfaces@[j],
            passive,
        ) by {
            let n = fs[i].name->0@;
            let g = fs[i].subinterfaces@[j];
            if i > from {
                let k = choose|k: int|
                    0 <= k < b.len() && is_vlan(n, g, passive, #[trigger] b[k]);
                assert(s[a.len() + k] == b[k]);
            } else {
                let p = assemble::parent_part(fs[i], passive, vrf)->Ok_0;
                let w = assemble::sub_parts(n, fs[i].subinterfaces@, passive, vrf, 0)->Ok_0;
                assert(a == p + w);
                lemma_vlans(n, fs[i].subinterfaces@, passive, vrf, 0, j);
                let k = choose|k: int|
                    0 <= k < w.len() && is_vlan(n, g, passive, #[trigger] w[k]);
                assert(s[p.len() + k] == w[k]);
            }
        }
    }
}

proof fn lemma_interfaces_stem(
    c: RouterConfig,
    passive: bool,
    vrf: Option<Seq<char>>,
    from: int,
    q: int,
)
    requires
        0 <= from,
        assemble::interface_parts(c.interfaces@, passive, vrf, from) is Ok,
        0 <= q < assemble::interface_parts(c.interfaces@, passive, vrf, from)->Ok_0.len(),
    ensures
        stems(
            c,
            passive,
            vrf,
            assemble::interface_parts(c.interfaces@, passive, vrf, from)->Ok_0[q],
        ),
    decreases c.interfaces@.len() - from,
{
    let fs = c.interfaces@;
    let f = fs[from];
    let s = assemble::interface_parts(fs, passive, vrf, from)->Ok_0;
    let a = assemble::interface_part(f, passive, vrf)->Ok_0;
    let b = assemble::interface_parts(fs, passive, vrf, from + 1)->Ok_0;
    assert(s == a + b);
    if q < a.len() {
        lemma_parent(f, passive, vrf);
        let p = assemble::parent_part(f, passive, vrf)->Ok_0;
        if q < p.len() {
            assert(s[q] == p[q]);
            assert(is_interface(c.interfaces@[from], passive, s[q]));
        } else {
            let n = f.name->0@;
            let w = assemble::sub_parts(n, f.subinterfaces@, passive, vrf, 0)->Ok_0;
            assert(a == p + w);
            assert(s[q] == w[q - p.len()]);
            let j = lemma_vlans_stem(n, f.subinterfaces@, passive, vrf, 0, q - p.len());
            assert(c.interfaces@[from].subinterfaces@[j].ospf_area is Some);
        }
    } else {
        assert(s[q] == b[q - a.len()]);
        lemma_interfaces_stem(c, passive, vrf, from + 1, q - a.len());
    }
}

proof fn lemma_loopbacks(
    c: RouterConfig,
    vrf: Option<Seq<char>>,
    from: int,
    i: int,
)
    requires
        0 <= from <= i < c.loopbacks@.len(),
        c.loopbacks@[i].ospf_area is Some,
        serves(c.loopbacks@[i].vrf, vrf),
    ensures
        assemble::loopback_parts(c.loopbacks@, vrf, from) matches Ok(s) ==> lists_loopback(
            s,
            c.loopbacks@[i],
        ),
    decreases c.loopbacks@.len() - from,
{
    let fs = c.loopbacks@;
    lemma_loopback(fs[from], vrf);
    if let Ok(s) = assemble::loopback_parts(fs, vrf, from) {
        let a = assemble::loopback_part(fs[from], vrf)->Ok_0;
        let b = assemble::loopback_parts(fs, vrf, from + 1)->Ok_0;
        assert(s == a + b);
        if i > from {
            lemma_loopbacks(c, vrf, from + 1, i);
            let k = choose|k: int| 0 <= k < b.len() && is_loopback(fs[i], #[trigger] b[k]);
            assert(s[a.len() + k] == b[k]);
        } else {
            assert(s[0] == a[0]);
        }
    }
}

proof fn lemma_loopbacks_stem(
    c: RouterConfig,
    passive: bool,
    vrf: Option<Seq<char>>,
    from: int,
    q: int,
)
    requires
        0 <= from,
        assemble::loopback_parts(c.loopbacks@, vrf, from) is Ok,
        0 <= q < assemble::loopback_parts(c.loopbacks@, vrf, from)->Ok_0.len(),
    ensures
        stems(c, passive, vrf, assemble::loopback_parts(c.loopbacks@, vrf, from)->Ok_0[q]),
    decreases c.loopbacks@.len() - from,
{
    let fs = c.loopbacks@;
    lemma_loopback(fs[from], vrf);
    let s = assemble::loopback_parts(fs, vrf, from)->Ok_0;
    let a = assemble::loopback_part(fs[from], vrf)->Ok_0;
    let b = assemble::loopback_parts(fs, vrf, from + 1)->Ok_0;
    assert(s == a + b);
    if q < a.len() {
        assert(s[q] == a[q]);
        assert(is_loopback(c.loopbacks@[from], s[q]));
    } else {
        assert(s[q] == b[q - a.len()]);
        lemma_loopbacks_stem(c, passive, vrf, from + 1, q - a.len());
    }
}

/// Whether the settings of an OSPFv2 instance come from the keys of its block.
pub open spec fn is_instance(b: OspfBlock, r: config::OspfDaemonConfigView) -> bool {
    &&& b.enabled
    &&& *b.router_id is Some && text::ipv4((*b.router_id)->0@) == Some(r.router_id) && r.router_id != 0
    &&& keyed(r.reference_bandwidth, b.reference_bandwidth, 100)
    &&& keyed(r.spf_delay_ms, b.spf_delay, 50)
    &&& keyed(r.spf_holdtime_ms, b.spf_holdtime, 200)
    &&& keyed(r.spf_max_holdtime_ms, b.spf_max_holdtime, 5000)
    &&& r.distance_intra == b.distance_intra
    &&& r.distance_inter == b.distance_inter
    &&& r.distance_external == b.distance_external
    &&& r.distance == b.distance
    &&& r.default_originate == b.default_originate
    &&& keyed(r.default_originate_metric, b.default_originate_metric, 1)
    &&& keyed(r.default_originate_metric_type, b.default_originate_metric_type, 2)
}

/// Whether the OSPFv2 interfaces of the instance of `vrf` are those of the file: each interface, VLAN
/// and loopback of the VRF that is in an area is listed with its own settings, and no other is.
pub open spec fn are_interfaces(
    c: RouterConfig,
    passive: bool,
    vrf: Option<Seq<char>>,
    r: config::OspfDaemonConfigView,
) -> bool {
    &&& forall|i: int|
        0 <= i < c.interfaces@.len() && (#[trigger] c.interfaces@[i]).ospf_area is Some && serves(
            c.interfaces@[i].vrf,
            vrf,
        ) ==> lists_interface(r.interfaces, c.interfaces@[i], passive)
    &&& forall|i: int, j: int|
        0 <= i < c.interfaces@.len() && 0 <= j < c.interfaces@[i].subinterfaces@.len() && (
        #[trigger] c.interfaces@[i].subinterfaces@[j]).ospf_area is Some && serves(
            c.interfaces@[i].subinterfaces@[j].vrf,
            vrf,
        ) && c.interfaces@[i].name is Some && c.interfaces@[i].name->0@.len() > 0 ==> lists_vlan(
            r.interfaces,
            c.interfaces@[i].name->0@,
            c.interfaces@[i].subinterfaces@[j],
            passive,
        )
    &&& forall|i: int|
        0 <= i < c.loopbacks@.len() && (#[trigger] c.loopbacks@[i]).ospf_area is Some && serves(
            c.loopbacks@[i].vrf,
            vrf,
        ) ==> lists_loopback(r.interfaces, c.loopbacks@[i])
    &&& forall|q: int|
        0 <= q < r.interfaces.len() ==> stems(c, passive, vrf, #[trigger] r.interfaces[q])
}

proof fn lemma_built(c: RouterConfig, b: OspfBlock, vrf: Option<Seq<char>>, table: u32)
    ensures
        assemble::built(c, b, vrf, table) matches Ok(r) ==> is_instance(b, r) && r.vrf_name == vrf
            && r.table_id_v4 == table && are_interfaces(c, b.passive_default, vrf, r),
{
    if let Ok(r) = assemble::built(c, b, vrf, table) {
        let passive = b.passive_default;
        let x = assemble::interface_parts(c.interfaces@, passive, vrf, 0)->Ok_0;
        let y = assemble::loopback_parts(c.loopbacks@, vrf, 0)->Ok_0;
        let s = r.interfaces;
        assert(s == x + y);
        assert forall|i: int|
            0 <= i < c.interfaces@.len() && (#[trigger] c.interfaces@[i]).ospf_area is Some
                && serves(c.interfaces@[i].vrf, vrf) implies lists_interface(
            s,
            c.interfaces@[i],
            passive,
        ) by {
            lemma_interfaces(c.interfaces@, passive, vrf, 0, i);
            let k = choose|k: int|
                0 <= k < x.len() && is_interface(c.interfaces@[i], passive, #[trigger] x[k]);
            assert(s[k] == x[k]);
        }
        assert forall|i: int, j: int|
            0 <= i < c.interfaces@.len() && 0 <= j < c.interfaces@[i].subinterfaces@.len() && (
            #[trigger] c.interfaces@[i].subinterfaces@[j]).ospf_area is Some && serves(
                c.interfaces@[i].subinterfaces@[j].vrf,
                vrf,
            ) && c.interfaces@[i].name is Some && c.interfaces@[i].name->0@.len() > 0 implies
        lists_vlan(
            s,
            c.interfaces@[i].name->0@,
            c.interfaces@[i].subinterfaces@[j],
            passive,
        ) by {
            let g = c.interfaces@[i].subinterfaces@[j];
            let n = c.interfaces@[i].name->0@;
            lemma_interfaces(c.interfaces@, passive, vrf, 0, i);
            let k = choose|k: int| 0 <= k < x.len() && is_vlan(n, g, passive, #[trigger] x[k]);
            assert(s[k] == x[k]);
        }
        assert forall|i: int|
            0 <= i < c.loopbacks@.len() && (#[trigger] c.loopbacks@[i]).ospf_area is Some && serves(
                c.loopbacks@[i].vrf,
                vrf,
            ) implies lists_loopback(s, c.loopbacks@[i]) by {
            lemma_loopbacks(c, vrf, 0, i);
            let k = choose|k: int|
                0 <= k < y.len() && is_loopback(c.loopbacks@[i], #[trigger] y[k]);
            assert(s[x.len() + k] == y[k]);
        }
        assert forall|q: int| 0 <= q < s.len() implies stems(
            c,
            passive,
            vrf,
            #[trigger] s[q],
        ) by {
            if q < x.len() {
                assert(s[q] == x[q]);
                lemma_interfaces_stem(c, passive, vrf, 0, q);
            } else {
                assert(s[q] == y[q - x.len()]);
                lemma_loopbacks_stem(c, passive, vrf, 0, q - x.len());
            }
        }
    }
}

/// The OSPFv2 instance of the default VRF takes each setting from the key of its name in the flat
/// block, and each interface from the keys of the interface.
pub proof fn lemma_default_instance(c: RouterConfig, r: config::OspfDaemonConfigView)
    requires
        assemble::instance_config(c, None) matches Ok(x) && x == r,
    ensures
        ({
            &&& c.ospf.enabled
            &&& c.ospf.router_id is Some && text::ipv4(c.ospf.router_id->0@) == Some(r.router_id)
                && r.router_id != 0
            &&& keyed(r.reference_bandwidth, c.ospf.reference_bandwidth, 100)
            &&& keyed(r.spf_delay_ms, c.ospf.spf_delay, 50)
            &&& keyed(r.spf_holdtime_ms, c.ospf.spf_holdtime, 200)
            &&& keyed(r.spf_max_holdtime_ms, c.ospf.spf_max_holdtime, 5000)
            &&& r.distance_intra == c.ospf.distance_intra
            &&& r.distance_inter == c.ospf.distance_inter
            &&& r.distance_external == c.ospf.distance_external
            &&& r.distance == c.ospf.distance
            &&& r.default_originate == c.ospf.default_originate
            &&& keyed(r.default_originate_metric, c.ospf.default_originate_metric, 1)
            &&& keyed(r.default_originate_metric_type, c.ospf.default_originate_metric_type, 2)
            &&& r.vrf_name is None
            &&& r.table_id_v4 == 0
            &&& are_interfaces(c, c.ospf.passive_default, None, r)
        }),
{
    lemma_built(c, c.ospf.spec_block(), None, 0);
}

/// The OSPFv2 instance of a named VRF takes each setting from the key of its name in the block of the
/// VRF, its table from the declaration of the VRF, and each interface from the keys of the interface.
pub proof fn lemma_vrf_instance(
    c: RouterConfig,
    name: Seq<char>,
    r: config::OspfDaemonConfigView,
)
    requires
        assemble::instance_config(c, Some(name)) matches Ok(x) && x == r,
    ensures
        exists|i: int, j: int|
            0 <= i < c.ospf.vrfs@.len() && 0 <= j < c.vrfs@.len() && (
            #[trigger] c.ospf.vrfs@[i]).name@ == name && (#[trigger] c.vrfs@[j]).name@ == name
                && of_vrf(c, i, j, r),
{
    let i = assemble::block_pos(c.ospf.vrfs@, name, 0)->0;
    let j = assemble::vrf_pos(c.vrfs@, name, 0)->0;
    lemma_block_pos(c, name, 0);
    lemma_built(c, c.ospf.vrfs@[i].spec_block(), Some(name), c.vrfs@[j].table_id_v4);
    assert(c.ospf.vrfs@[i].name@ == name && c.vrfs@[j].name@ == name);
    assert(of_vrf(c, i, j, r));
}

/// Whether the OSPFv2 instance is the one of the block at position `i` and the VRF at position `j`.
pub open spec fn of_vrf(c: RouterConfig, i: int, j: int, r: config::OspfDaemonConfigView) -> bool {
    let o = c.ospf.vrfs@[i];
    {
        &&& o.enabled
        &&& o.router_id is Some && text::ipv4(o.router_id->0@) == Some(r.router_id)
            && r.router_id != 0
        &&& keyed(r.reference_bandwidth, o.reference_bandwidth, 100)
        &&& keyed(r.spf_delay_ms, o.spf_delay, 50)
        &&& keyed(r.spf_holdtime_ms, o.spf_holdtime, 200)
        &&& keyed(r.spf_max_holdtime_ms, o.spf_max_holdtime, 5000)
        &&& r.distance_intra == o.distance_intra
        &&& r.distance_inter == o.distance_inter
        &&& r.distance_external == o.distance_external
        &&& r.distance == o.distance
        &&& r.default_originate == o.default_originate
        &&& keyed(r.default_originate_metric, o.default_originate_metric, 1)
        &&& keyed(r.default_originate_metric_type, o.default_originate_metric_type, 2)
        &&& r.vrf_name == Some(o.name@)
        &&& r.table_id_v4 == c.vrfs@[j].table_id_v4
        &&& r.table_id_v4 != 0
        &&& are_interfaces(c, o.passive_default, Some(o.name@), r)
    }
}

/// Whether the OSPFv3 interface is the one that an interface describes, `passive` being the default of its
/// instance: each setting comes from the key of its name.
pub open spec fn is_interface_v3(
    f: InterfaceConfig,
    passive: bool,
    x: config::Ospf6InterfaceConfigView,
) -> bool {
    &&& match f.name {
        Some(n) => x.name == n@,
        None => x.name.len() == 0,
    }
    &&& assemble::area_id_of(f.ospf3_area->0) == Ok::<u32, assemble::ConfigErrorView>(x.area_id)
    &&& keyed(x.cost, f.ospf3_cost, 10)
    &&& keyed(x.passive, f.ospf3_passive, passive)
    &&& kind_keyed(x.network_type, f.ospf3_network_type)
    &&& keyed(x.hello_interval, f.ospf3_hello_interval, 10)
    &&& keyed(x.dead_interval, f.ospf3_dead_interval, 40)
    &&& keyed(x.retransmit_interval, f.ospf3_retransmit_interval, 5)
    &&& keyed(x.priority, f.ospf3_priority, 1)
    &&& keyed(x.transmit_delay, f.ospf3_transmit_delay, 1)
    &&& keyed(x.instance_id, f.ospf3_instance_id, 0)
    &&& list_laws::are_neighbors_v3(f.ospf3_network_type, f.ospf3_neighbors@, x.static_neighbors)
}

/// Whether the OSPFv3 interface is the one that a VLAN on an interface describes, `passive` being the default of its
/// instance: each setting comes from the key of its name.
pub open spec fn is_vlan_v3(
    parent: Seq<char>,
    f: SubInterfaceConfig,
    passive: bool,
    x: config::Ospf6InterfaceConfigView,
) -> bool {
    &&& x.name == parent + "."@ + text::decimal_text(f.vlan_id as nat)
    &&& assemble::area_id_of(f.ospf3_area->0) == Ok::<u32, assemble::ConfigErrorView>(x.area_id)
    &&& keyed(x.cost, f.ospf3_cost, 10)
    &&& keyed(x.passive, f.ospf3_passive, passive)
    &&& kind_keyed(x.network_type, f.ospf3_network_type)
    &&& keyed(x.hello_interval, f.ospf3_hello_interval, 10)
    &&& keyed(x.dead_interval, f.ospf3_dead_interval, 40)
    &&& keyed(x.retransmit_interval, f.ospf3_retransmit_interval, 5)
    &&& keyed(x.priority, f.ospf3_priority, 1)
    &&& keyed(x.transmit_delay, f.ospf3_transmit_delay, 1)
    &&& keyed(x.instance_id, f.ospf3_instance_id, 0)
    &&& list_laws::are_neighbors_v3(f.ospf3_network_type, f.ospf3_neighbors@, x.static_neighbors)
}

/// Whether the OSPFv3 interface is the one that a loopback describes: passive unless it says otherwise.
pub open spec fn is_loopback_v3(f: LoopbackConfig, x: config::Ospf6InterfaceConfigView) -> bool {
    &&& match f.name {
        Some(n) => x.name == n@,
        None => x.name.len() == 0,
    }
    &&& assemble::area_id_of(f.ospf3_area->0) == Ok::<u32, assemble::ConfigErrorView>(x.area_id)
    &&& keyed(x.cost, f.ospf3_cost, 1)
    &&& keyed(x.passive, f.ospf3_passive, true)
    &&& x.network_type == "point-to-point"@
    &&& x.hello_interval == 10
    &&& x.dead_interval == 40
    &&& x.retransmit_interval == 5
    &&& x.priority == 0
    &&& x.static_neighbors.len() == 0
    &&& x.transmit_delay == 1
    &&& x.instance_id == 0
}

proof fn lemma_parent_v3(f: InterfaceConfig, passive: bool, vrf: Option<Seq<char>>)
    ensures
        assemble_v3::parent_part(f, passive, vrf) matches Ok(s) ==> if f.ospf3_area is Some && serves(
            f.vrf,
            vrf,
        ) {
            s.len() == 1 && is_interface_v3(f, passive, s[0])
        } else {
            s.len() == 0
        },
{
    lemma_serves(f.vrf, vrf);
    list_laws::lemma_neighbors_v3(f.ospf3_network_type, f.ospf3_neighbors@);
    reveal_strlit("");
}

proof fn lemma_vlan_v3(
    parent: Seq<char>,
    f: SubInterfaceConfig,
    passive: bool,
    vrf: Option<Seq<char>>,
)
    ensures
        assemble_v3::sub_part(parent, f, passive, vrf) matches Ok(s) ==> if f.ospf3_area is Some && serves(
            f.vrf,
            vrf,
        ) {
            s.len() == 1 && is_vlan_v3(parent, f, passive, s[0])
        } else {
            s.len() == 0
        },
{
    lemma_serves(f.vrf, vrf);
    list_laws::lemma_neighbors_v3(f.ospf3_network_type, f.ospf3_neighbors@);
}

proof fn lemma_loopback_v3(f: LoopbackConfig, vrf: Option<Seq<char>>)
    ensures
        assemble_v3::loopback_part(f, vrf) matches Ok(s) ==> if f.ospf3_area is Some && serves(f.vrf, vrf) {
            s.len() == 1 && is_loopback_v3(f, s[0])
        } else {
            s.len() == 0
        },
{
    lemma_serves(f.vrf, vrf);
    reveal_strlit("");
}

/// Whether an OSPFv3 interface of an instance stands in the file: as an interface, as a VLAN on one,
/// or as a loopback.
pub open spec fn stems_v3(
    c: RouterConfig,
    passive: bool,
    vrf: Option<Seq<char>>,
    x: config::Ospf6InterfaceConfigView,
) -> bool {
    ||| exists|i: int|
        0 <= i < c.interfaces@.len() && (#[trigger] c.interfaces@[i]).ospf3_area is Some && serves(
            c.interfaces@[i].vrf,
            vrf,
        ) && is_interface_v3(c.interfaces@[i], passive, x)
    ||| exists|i: int, j: int|
        0 <= i < c.interfaces@.len() && 0 <= j < c.interfaces@[i].subinterfaces@.len() && (
        #[trigger] c.interfaces@[i].subinterfaces@[j]).ospf3_area is Some && serves(
            c.interfaces@[i].subinterfaces@[j].vrf,
            vrf,
        ) && c.interfaces@[i].name is Some && is_vlan_v3(
            c.interfaces@[i].name->0@,
            c.interfaces@[i].subinterfaces@[j],
            passive,
            x,
        )
    ||| exists|i: int|
        0 <= i < c.loopbacks@.len() && (#[trigger] c.loopbacks@[i]).ospf3_area is Some && serves(
            c.loopbacks@[i].vrf,
            vrf,
        ) && is_loopback_v3(c.loopbacks@[i], x)
}

/// Whether one of the list is the interface.
pub open spec fn lists_interface_v3(
    s: Seq<config::Ospf6InterfaceConfigView>,
    f: InterfaceConfig,
    passive: bool,
) -> bool {
    exists|k: int| 0 <= k < s.len() && is_interface_v3(f, passive, #[trigger] s[k])
}

/// Whether one of the list is the VLAN.
pub open spec fn lists_vlan_v3(
    s: Seq<config::Ospf6InterfaceConfigView>,
    parent: Seq<char>,
    f: SubInterfaceConfig,
    passive: bool,
) -> bool {
    exists|k: int| 0 <= k < s.len() && is_vlan_v3(parent, f, passive, #[trigger] s[k])
}

/// Whether one of the list is the loopback.
pub open spec fn lists_loopback_v3(s: Seq<config::Ospf6InterfaceConfigView>, f: LoopbackConfig) -> bool {
    exists|k: int| 0 <= k < s.len() && is_loopback_v3(f, #[trigger] s[k])
}

proof fn lemma_vlans_v3(
    parent: Seq<char>,
    fs: Seq<SubInterfaceConfig>,
    passive: bool,
    vrf: Option<Seq<char>>,
    from: int,
    j: int,
)
    requires
        0 <= from <= j < fs.len(),
        fs[j].ospf3_area is Some,
        serves(fs[j].vrf, vrf),
    ensures
        assemble_v3::sub_parts(parent, fs, passive, vrf, from) matches Ok(s) ==> lists_vlan_v3(
            s,
            parent,
            fs[j],
            passive,
        ),
    decreases fs.len() - from,
{
    lemma_vlan_v3(parent, fs[from], passive, vrf);
    if let Ok(s) = assemble_v3::sub_parts(parent, fs, passive, vrf, from) {
        let a = assemble_v3::sub_part(parent, fs[from], passive, vrf)->Ok_0;
        let b = assemble_v3::sub_parts(parent, fs, passive, vrf, from + 1)->Ok_0;
        assert(s == a + b);
        if j > from {
            lemma_vlans_v3(parent, fs, passive, vrf, from + 1, j);
            let k = choose|k: int|
                0 <= k < b.len() && is_vlan_v3(parent, fs[j], passive, #[trigger] b[k]);
            assert(s[a.len() + k] == b[k]);
        } else {
            assert(s[0] == a[0]);
        }
    }
}

proof fn lemma_vlans_stem_v3(
    parent: Seq<char>,
    fs: Seq<SubInterfaceConfig>,
    passive: bool,
    vrf: Option<Seq<char>>,
    from: int,
    q: int,
) -> (j: int)
    requires
        0 <= from,
        assemble_v3::sub_parts(parent, fs, passive, vrf, from) is Ok,
        0 <= q < assemble_v3::sub_parts(parent, fs, passive, vrf, from)->Ok_0.len(),
    ensures
        from <= j < fs.len(),
        fs[j].ospf3_area is Some,
        serves(fs[j].vrf, vrf),
        is_vlan_v3(
            parent,
            fs[j],
            passive,
            assemble_v3::sub_parts(parent, fs, passive, vrf, from)->Ok_0[q],
        ),
    decreases fs.len() - from,
{
    lemma_vlan_v3(parent, fs[from], passive, vrf);
    let s = assemble_v3::sub_parts(parent, fs, passive, vrf, from)->Ok_0;
    let a = assemble_v3::sub_part(parent, fs[from], passive, vrf)->Ok_0;
    let b = assemble_v3::sub_parts(parent, fs, passive, vrf, from + 1)->Ok_0;
    assert(s == a + b);
    if q < a.len() {
        from
    } else {
        assert(s[q] == b[q - a.len()]);
        lemma_vlans_stem_v3(parent, fs, passive, vrf, from + 1, q - a.len())
    }
}

proof fn lemma_interfaces_v3(
    fs: Seq<InterfaceConfig>,
    passive: bool,
    vrf: Option<Seq<char>>,
    from: int,
    i: int,
)
    requires
        0 <= from <= i < fs.len(),
    ensures
        assemble_v3::interface_parts(fs, passive, vrf, from) matches Ok(s) ==> {
            &&& fs[i].ospf3_area is Some && serves(fs[i].vrf, vrf) ==> lists_interface_v3(
                s,
                fs[i],
                passive,
            )
            &&& forall|j: int|
                0 <= j < fs[i].subinterfaces@.len() && (
                #[trigger] fs[i].subinterfaces@[j]).ospf3_area is Some && serves(
                    fs[i].subinterfaces@[j].vrf,
                    vrf,
                ) && fs[i].name is Some && fs[i].name->0@.len() > 0 ==> lists_vlan_v3(
                    s,
                    fs[i].name->0@,
                    fs[i].subinterfaces@[j],
                    passive,
                )
        },
    decreases fs.len() - from,
{
    if let Ok(s) = assemble_v3::interface_parts(fs, passive, vrf, from) {
        let a = assemble_v3::interface_part(fs[from], passive, vrf)->Ok_0;
        let b = assemble_v3::interface_parts(fs, passive, vrf, from + 1)->Ok_0;
        assert(s == a + b);
        if i > from {
            lemma_interfaces_v3(fs, passive, vrf, from + 1, i);
            if fs[i].ospf3_area is Some && serves(fs[i].vrf, vrf) {
                let k = choose|k: int|
                    0 <= k < b.len() && is_interface_v3(fs[i], passive, #[trigger] b[k]);
                assert(s[a.len() + k] == b[k]);
            }
        } else {
            lemma_parent_v3(fs[i], passive, vrf);
            let p = assemble_v3::parent_part(fs[i], passive, vrf)->Ok_0;
            if fs[i].ospf3_area is Some && serves(fs[i].vrf, vrf) {
                assert(s[0] == p[0]);
            }
        }
        assert forall|j: int|
            0 <= j < fs[i].subinterfaces@.len() && (
            #[trigger] fs[i].subinterfaces@[j]).ospf3_area is Some && serves(
                fs[i].subinterfaces@[j].vrf,
                vrf,
            ) && fs[i].name is Some && fs[i].name->0@.len() > 0 implies lists_vlan_v3(
            s,
            fs[i].name->0@,
            fs[i].subinterfaces@[j],
            passive,
        ) by {
            let n = fs[i].name->0@;
            let g = fs[i].subinterfaces@[j];
            if i > from {
                let k = choose|k: int|
                    0 <= k < b.len() && is_vlan_v3(n, g, passive, #[trigger] b[k]);
                assert(s[a.len() + k] == b[k]);
            } else {
                let p = assemble_v3::parent_part(fs[i], passive, vrf)->Ok_0;
                let w = assemble_v3::sub_parts(n, fs[i].subinterfaces@, passive, vrf, 0)->Ok_0;
                assert(a == p + w);
                lemma_vlans_v3(n, fs[i].subinterfaces@, passive, vrf, 0, j);
                let k = choose|k: int|
                    0 <= k < w.len() && is_vlan_v3(n, g, passive, #[trigger] w[k]);
                assert(s[p.len() + k] == w[k]);
            }
        }
    }
}

proof fn lemma_interfaces_stem_v3(
    c: RouterConfig,
    passive: bool,
    vrf: Option<Seq<char>>,
    from: int,
    q: int,
)
    requires
        0 <= from,
        assemble_v3::interface_parts(c.interfaces@, passive, vrf, from) is Ok,
        0 <= q < assemble_v3::interface_parts(c.interfaces@, passive, vrf, from)->Ok_0.len(),
    ensures
        stems_v3(
            c,
            passive,
            vrf,
            assemble_v3::interface_parts(c.interfaces@, passive, vrf, from)->Ok_0[q],
        ),
    decreases c.interfaces@.len() - from,
{
    let fs = c.interfaces@;
    let f = fs[from];
    let s = assemble_v3::interface_parts(fs, passive, vrf, from)->Ok_0;
    let a = assemble_v3::interface_part(f, passive, vrf)->Ok_0;
    let b = assemble_v3::interface_parts(fs, passive, vrf, from + 1)->Ok_0;
    assert(s == a + b);
    if q < a.len() {
        lemma_parent_v3(f, passive, vrf);
        let p = assemble_v3::parent_part(f, passive, vrf)->Ok_0;
        if q < p.len() {
            assert(s[q] == p[q]);
            assert(is_interface_v3(c.interfaces@[from], passive, s[q]));
        } else {
            let n = f.name->0@;
            let w = assemble_v3::sub_parts(n, f.subinterfaces@, passive, vrf, 0)->Ok_0;
            assert(a == p + w);
            assert(s[q] == w[q - p.len()]);
            let j = lemma_vlans_stem_v3(n, f.subinterfaces@, passive, vrf, 0, q - p.len());
            assert(c.interfaces@[from].subinterfaces@[j].ospf3_area is Some);
        }
    } else {
        assert(s[q] == b[q - a.len()]);
        lemma_interfaces_stem_v3(c, passive, vrf, from + 1, q - a.len());
    }
}

proof fn lemma_loopbacks_v3(
    c: RouterConfig,
    vrf: Option<Seq<char>>,
    from: int,
    i: int,
)
    requires
        0 <= from <= i < c.loopbacks@.len(),
        c.loopbacks@[i].ospf3_area is Some,
        serves(c.loopbacks@[i].vrf, vrf),
    ensures
        assemble_v3::loopback_parts(c.loopbacks@, vrf, from) matches Ok(s) ==> lists_loopback_v3(
            s,
            c.loopbacks@[i],
        ),
    decreases c.loopbacks@.len() - from,
{
    let fs = c.loopbacks@;
    lemma_loopback_v3(fs[from], vrf);
    if let Ok(s) = assemble_v3::loopback_parts(fs, vrf, from) {
        let a = assemble_v3::loopback_part(fs[from], vrf)->Ok_0;
        let b = assemble_v3::loopback_parts(fs, vrf, from + 1)->Ok_0;
        assert(s == a + b);
        if i > from {
            lemma_loopbacks_v3(c, vrf, from + 1, i);
            let k = choose|k: int| 0 <= k < b.len() && is_loopback_v3(fs[i], #[trigger] b[k]);
            assert(s[a.len() + k] == b[k]);
        } else {
            assert(s[0] == a[0]);
        }
    }
}

proof fn lemma_loopbacks_stem_v3(
    c: RouterConfig,
    passive: bool,
    vrf: Option<Seq<char>>,
    from: int,
    q: int,
)
    requires
        0 <= from,
        assemble_v3::loopback_parts(c.loopbacks@, vrf, from) is Ok,
        0 <= q < assemble_v3::loopback_parts(c.loopbacks@, vrf, from)->Ok_0.len(),
    ensures
        stems_v3(c, passive, vrf, assemble_v3::loopback_parts(c.loopbacks@, vrf, from)->Ok_0[q]),
    decreases c.loopbacks@.len() - from,
{
    let fs = c.loopbacks@;
    lemma_loopback_v3(fs[from], vrf);
    let s = assemble_v3::loopback_parts(fs, vrf, from)->Ok_0;
    let a = assemble_v3::loopback_part(fs[from], vrf)->Ok_0;
    let b = assemble_v3::loopback_parts(fs, vrf, from + 1)->Ok_0;
    assert(s == a + b);
    if q < a.len() {
        assert(s[q] == a[q]);
        assert(is_loopback_v3(c.loopbacks@[from], s[q]));
    } else {
        assert(s[q] == b[q - a.len()]);
        lemma_loopbacks_stem_v3(c, passive, vrf, from + 1, q - a.len());
    }
}

/// Whether the settings of an OSPFv3 instance come from the keys of its block.
pub open spec fn is_instance_v3(b: OspfBlock, r: config::Ospf6DaemonConfigView) -> bool {
    &&& b.enabled
    &&& *b.router_id is Some && text::ipv4((*b.router_id)->0@) == Some(r.router_id) && r.router_id != 0
    &&& keyed(r.reference_bandwidth, b.reference_bandwidth, 100)
    &&& r.distance == b.distance
    &&& r.default_originate == b.default_originate
    &&& keyed(r.default_originate_metric, b.default_originate_metric, 1)
    &&& keyed(r.default_originate_metric_type, b.default_originate_metric_type, 2)
}

/// Whether the OSPFv3 interfaces of the instance of `vrf` are those of the file: each interface, VLAN
/// and loopback of the VRF that is in an area is listed with its own settings, and no other is.
pub open spec fn are_interfaces_v3(
    c: RouterConfig,
    passive: bool,
    vrf: Option<Seq<char>>,
    r: config::Ospf6DaemonConfigView,
) -> bool {
    &&& forall|i: int|
        0 <= i < c.interfaces@.len() && (#[trigger] c.interfaces@[i]).ospf3_area is Some && serves(
            c.interfaces@[i].vrf,
            vrf,
        ) ==> lists_interface_v3(r.interfaces, c.interfaces@[i], passive)
    &&& forall|i: int, j: int|
        0 <= i < c.interfaces@.len() && 0 <= j < c.interfaces@[i].subinterfaces@.len() && (
        #[trigger] c.interfaces@[i].subinterfaces@[j]).ospf3_area is Some && serves(
            c.interfaces@[i].subinterfaces@[j].vrf,
            vrf,
        ) && c.interfaces@[i].name is Some && c.interfaces@[i].name->0@.len() > 0 ==> lists_vlan_v3(
            r.interfaces,
            c.interfaces@[i].name->0@,
            c.interfaces@[i].subinterfaces@[j],
            passive,
        )
    &&& forall|i: int|
        0 <= i < c.loopbacks@.len() && (#[trigger] c.loopbacks@[i]).ospf3_area is Some && serves(
            c.loopbacks@[i].vrf,
            vrf,
        ) ==> lists_loopback_v3(r.interfaces, c.loopbacks@[i])
    &&& forall|q: int|
        0 <= q < r.interfaces.len() ==> stems_v3(c, passive, vrf, #[trigger] r.interfaces[q])
}

proof fn lemma_built_v3(c: RouterConfig, b: OspfBlock, vrf: Option<Seq<char>>, table: u32)
    ensures
        assemble_v3::built(c, b, vrf, table) matches Ok(Some(r)) ==> is_instance_v3(b, r) && r.vrf_name == vrf
            && r.table_id_v6 == table && are_interfaces_v3(c, b.passive_default, vrf, r),
{
    if let Ok(Some(r)) = assemble_v3::built(c, b, vrf, table) {
        let passive = b.passive_default;
        let x = assemble_v3::interface_parts(c.interfaces@, passive, vrf, 0)->Ok_0;
        let y = assemble_v3::loopback_parts(c.loopbacks@, vrf, 0)->Ok_0;
        let s = r.interfaces;
        assert(s == x + y);
        assert forall|i: int|
            0 <= i < c.interfaces@.len() && (#[trigger] c.interfaces@[i]).ospf3_area is Some
                && serves(c.interfaces@[i].vrf, vrf) implies lists_interface_v3(
            s,
            c.interfaces@[i],
            passive,
        ) by {
            lemma_interfaces_v3(c.interfaces@, passive, vrf, 0, i);
            let k = choose|k: int|
                0 <= k < x.len() && is_interface_v3(c.interfaces@[i], passive, #[trigger] x[k]);
            assert(s[k] == x[k]);
        }
        assert forall|i: int, j: int|
            0 <= i < c.interfaces@.len() && 0 <= j < c.interfaces@[i].subinterfaces@.len() && (
            #[trigger] c.interfaces@[i].subinterfaces@[j]).ospf3_area is Some && serves(
                c.interfaces@[i].subinterfaces@[j].vrf,
                vrf,
            ) && c.interfaces@[i].name is Some && c.interfaces@[i].name->0@.len() > 0 implies
        lists_vlan_v3(
            s,
            c.interfaces@[i].name->0@,
            c.interfaces@[i].subinterfaces@[j],
            passive,
        ) by {
            let g = c.interfaces@[i].subinterfaces@[j];
            let n = c.interfaces@[i].name->0@;
            lemma_interfaces_v3(c.interfaces@, passive, vrf, 0, i);
            let k = choose|k: int| 0 <= k < x.len() && is_vlan_v3(n, g, passive, #[trigger] x[k]);
            assert(s[k] == x[k]);
        }
        assert forall|i: int|
            0 <= i < c.loopbacks@.len() && (#[trigger] c.loopbacks@[i]).ospf3_area is Some && serves(
                c.loopbacks@[i].vrf,
                vrf,
            ) implies lists_loopback_v3(s, c.loopbacks@[i]) by {
            lemma_loopbacks_v3(c, vrf, 0, i);
            let k = choose|k: int|
                0 <= k < y.len() && is_loopback_v3(c.loopbacks@[i], #[trigger] y[k]);
            assert(s[x.len() + k] == y[k]);
        }
        assert forall|q: int| 0 <= q < s.len() implies stems_v3(
            c,
            passive,
            vrf,
            #[trigger] s[q],
        ) by {
            if q < x.len() {
                assert(s[q] == x[q]);
                lemma_interfaces_stem_v3(c, passive, vrf, 0, q);
            } else {
                assert(s[q] == y[q - x.len()]);
                lemma_loopbacks_stem_v3(c, passive, vrf, 0, q - x.len());
            }
        }
    }
}

/// The OSPFv3 instance of the default VRF takes each setting from the key of its name in the flat
/// block, and each interface from the keys of the interface.
pub proof fn lemma_default_instance_v3(c: RouterConfig, r: config::Ospf6DaemonConfigView)
    requires
        assemble_v3::instance_config(c, None) matches Ok(Some(x)) && x == r,
    ensures
        ({
            &&& c.ospf3.enabled
            &&& c.ospf3.router_id is Some && text::ipv4(c.ospf3.router_id->0@) == Some(r.router_id)
                && r.router_id != 0
            &&& keyed(r.reference_bandwidth, c.ospf3.reference_bandwidth, 100)
            &&& r.distance == c.ospf3.distance
            &&& r.default_originate == c.ospf3.default_originate
            &&& keyed(r.default_originate_metric, c.ospf3.default_originate_metric, 1)
            &&& keyed(r.default_originate_metric_type, c.ospf3.default_originate_metric_type, 2)
            &&& r.vrf_name is None
            &&& r.table_id_v6 == 0
            &&& are_interfaces_v3(c, c.ospf3.passive_default, None, r)
        }),
{
    lemma_built_v3(c, c.ospf3.spec_block(), None, 0);
}

/// The OSPFv3 instance of a named VRF takes each setting from the key of its name in the block of the
/// VRF, its table from the declaration of the VRF, and each interface from the keys of the interface.
pub proof fn lemma_vrf_instance_v3(
    c: RouterConfig,
    name: Seq<char>,
    r: config::Ospf6DaemonConfigView,
)
    requires
        assemble_v3::instance_config(c, Some(name)) matches Ok(Some(x)) && x == r,
    ensures
        exists|i: int, j: int|
            0 <= i < c.ospf3.vrfs@.len() && 0 <= j < c.vrfs@.len() && (
            #[trigger] c.ospf3.vrfs@[i]).name@ == name && (#[trigger] c.vrfs@[j]).name@ == name
                && of_vrf_v3(c, i, j, r),
{
    let i = assemble::block_pos(c.ospf3.vrfs@, name, 0)->0;
    let j = assemble::vrf_pos(c.vrfs@, name, 0)->0;
    lemma_block_pos(c, name, 0);
    lemma_built_v3(c, c.ospf3.vrfs@[i].spec_block(), Some(name), c.vrfs@[j].table_id_v6);
    assert(c.ospf3.vrfs@[i].name@ == name && c.vrfs@[j].name@ == name);
    assert(of_vrf_v3(c, i, j, r));
}

/// Whether the OSPFv3 instance is the one of the block at position `i` and the VRF at position `j`.
pub open spec fn of_vrf_v3(c: RouterConfig, i: int, j: int, r: config::Ospf6DaemonConfigView) -> bool {
    let o = c.ospf3.vrfs@[i];
    {
        &&& o.enabled
        &&& o.router_id is Some && text::ipv4(o.router_id->0@) == Some(r.router_id)
            && r.router_id != 0
        &&& keyed(r.reference_bandwidth, o.reference_bandwidth, 100)
        &&& r.distance == o.distance
        &&& r.default_originate == o.default_originate
        &&& keyed(r.default_originate_metric, o.default_originate_metric, 1)
        &&& keyed(r.default_originate_metric_type, o.default_originate_metric_type, 2)
        &&& r.vrf_name == Some(o.name@)
        &&& r.table_id_v6 == c.vrfs@[j].table_id_v6
        &&& r.table_id_v6 != 0
        &&& are_interfaces_v3(c, o.passive_default, Some(o.name@), r)
    }
}

/// What is found by its name has that name.
pub proof fn lemma_block_pos(c: RouterConfig, name: Seq<char>, from: int)
    requires
        0 <= from,
    ensures
        assemble::block_pos(c.ospf.vrfs@, name, from) matches Some(i) ==> from <= i
            < c.ospf.vrfs@.len() && c.ospf.vrfs@[i].name@ == name,
        assemble::block_pos(c.ospf3.vrfs@, name, from) matches Some(i) ==> from <= i
            < c.ospf3.vrfs@.len() && c.ospf3.vrfs@[i].name@ == name,
        assemble::vrf_pos(c.vrfs@, name, from) matches Some(i) ==> from <= i < c.vrfs@.len()
            && c.vrfs@[i].name@ == name,
    decreases c.ospf.vrfs@.len() + c.ospf3.vrfs@.len() + c.vrfs@.len() - from,
{
    if from < c.ospf.vrfs@.len() || from < c.ospf3.vrfs@.len() || from < c.vrfs@.len() {
        lemma_block_pos(c, name, from + 1);
    }
}

} // verus!
