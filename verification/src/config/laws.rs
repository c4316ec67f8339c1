//! What holds of every configuration that is accepted.
use vstd::prelude::*;

use crate::config;
use crate::config::assemble;
use crate::config::assemble::ConfigErrorView;
use crate::config::assemble_v3;
use crate::config::yaml::{
    AreaIdValue, InterfaceConfig, LoopbackConfig, OspfBlock, RedistributeEntry, RouteMapEntry,
    RouterConfig, SubInterfaceConfig, SummaryAddressEntry,
};
use crate::text;

verus! {

/// Whether every rule with a route map names one of the maps.
pub open spec fn maps_exist(
    rules: Seq<config::RedistributeConfigView>,
    maps: Seq<config::RouteMapView>,
) -> bool {
    forall|k: int|
        0 <= k < rules.len() ==> ((#[trigger] rules[k]).route_map matches Some(n)
            ==> assemble::has_map(maps, n))
}

/// Whether no two maps have the same name.
pub open spec fn maps_distinct(maps: Seq<config::RouteMapView>) -> bool {
    forall|i: int, j: int|
        0 <= i < j < maps.len() ==> (#[trigger] maps[i]).name != (#[trigger] maps[j]).name
}

proof fn lemma_rules(es: Seq<RedistributeEntry>, ms: Seq<config::RouteMapView>, from: int)
    requires
        0 <= from,
    ensures
        assemble::rules_of(es, ms, from) matches Ok(rs) ==> maps_exist(rs, ms),
    decreases es.len() - from,
{
    if from < es.len() {
        lemma_rules(es, ms, from + 1);
    }
}

proof fn lemma_maps(ms: Seq<RouteMapEntry>, from: int)
    requires
        0 <= from,
    ensures
        assemble::compiled_maps(ms, from) matches Ok(rs) ==> maps_distinct(rs) && forall|k: int|
            0 <= k < rs.len() ==> !assemble::named_before(ms, (#[trigger] rs[k]).name, from),
    decreases ms.len() - from,
{
    if from < ms.len() {
        lemma_maps(ms, from + 1);
        match assemble::compiled_maps(ms, from) {
            Ok(rs) => {
                let rest = assemble::compiled_maps(ms, from + 1)->Ok_0;
                assert(rs.len() == rest.len() + 1);
                assert forall|k: int| 0 <= k < rs.len() implies !assemble::named_before(
                    ms,
                    (#[trigger] rs[k]).name,
                    from,
                ) by {
                    if k > 0 {
                        assert(rs[k] == rest[k - 1]);
                        if assemble::named_before(ms, rs[k].name, from) {
                            let w = choose|w: int|
                                0 <= w < from && (#[trigger] ms[w]).name@ == rs[k].name;
                            assert(ms[w].name@ == rest[k - 1].name);
                            assert(assemble::named_before(ms, rest[k - 1].name, from + 1));
                        }
                    }
                }
                assert forall|i: int, j: int| 0 <= i < j < rs.len() implies (#[trigger] rs[i]).name
                    != (#[trigger] rs[j]).name by {
                    assert(rs[j] == rest[j - 1]);
                    assert(!assemble::named_before(ms, rest[j - 1].name, from + 1));
                    if i == 0 {
                        assert(ms[from].name@ == rs[0].name);
                    } else {
                        assert(rs[i] == rest[i - 1]);
                    }
                }
            },
            Err(_) => {},
        }
    }
}

/// What a configuration has to keep to: a router id other than 0.0.0.0, route maps with different
/// names, rules that name none but those, and summary ranges whose prefix lengths fit an address.
pub open spec fn sound(v: config::OspfDaemonConfigView) -> bool {
    &&& v.router_id != 0
    &&& maps_distinct(v.route_maps)
    &&& maps_exist(v.redistribute, v.route_maps)
    &&& forall|k: int|
        0 <= k < v.summary_addresses.len() ==> (#[trigger] v.summary_addresses[k]).prefix_len <= 32
}

/// The same for OSPFv3.
pub open spec fn sound_v3(v: config::Ospf6DaemonConfigView) -> bool {
    &&& v.router_id != 0
    &&& maps_distinct(v.route_maps)
    &&& maps_exist(v.redistribute, v.route_maps)
    &&& forall|k: int|
        0 <= k < v.summary_addresses.len() ==> (#[trigger] v.summary_addresses[k]).prefix_len <= 128
}

proof fn lemma_summaries(es: Seq<SummaryAddressEntry>, from: int)
    requires
        0 <= from,
    ensures
        forall|k: int|
            0 <= k < assemble::summaries_of(es, from).len() ==> (
            #[trigger] assemble::summaries_of(es, from)[k]).prefix_len <= 32,
        forall|k: int|
            0 <= k < assemble_v3::summaries_of(es, from).len() ==> (
            #[trigger] assemble_v3::summaries_of(es, from)[k]).prefix_len <= 128,
    decreases es.len() - from,
{
    if from < es.len() {
        lemma_summaries(es, from + 1);
        let rest = assemble::summaries_of(es, from + 1);
        let all = assemble::summaries_of(es, from);
        assert forall|k: int| 0 <= k < all.len() implies (#[trigger] all[k]).prefix_len <= 32 by {
            if assemble::summary_of(es[from]) is Some {
                assert(k > 0 ==> all[k] == rest[k - 1]);
            } else {
                assert(all[k] == rest[k]);
            }
        }
        let rest6 = assemble_v3::summaries_of(es, from + 1);
        let all6 = assemble_v3::summaries_of(es, from);
        assert forall|k: int| 0 <= k < all6.len() implies (#[trigger] all6[k]).prefix_len
            <= 128 by {
            if assemble_v3::summary_of(es[from]) is Some {
                assert(k > 0 ==> all6[k] == rest6[k - 1]);
            } else {
                assert(all6[k] == rest6[k]);
            }
        }
    }
}

proof fn lemma_built(c: RouterConfig, b: OspfBlock, vrf: Option<Seq<char>>, table: u32)
    ensures
        assemble::built(c, b, vrf, table) matches Ok(v) ==> sound(v) && v.vrf_name == vrf
            && v.table_id_v4 == table,
        assemble_v3::built(c, b, vrf, table) matches Ok(Some(v)) ==> sound_v3(v) && v.vrf_name
            == vrf && v.table_id_v6 == table,
{
    lemma_maps(c.route_maps@, 0);
    lemma_summaries(b.summary_addresses@, 0);
    match assemble::compiled_maps(c.route_maps@, 0) {
        Ok(ms) => {
            lemma_rules(b.redistribute@, ms, 0);
        },
        Err(_) => {},
    }
}

/// Every configuration that is accepted has a router id other than 0.0.0.0 and rules that name
/// existing route maps; the default VRF has FIB 0, and any other a FIB of its own.
pub proof fn lemma_accepted(c: RouterConfig, vrf: Option<Seq<char>>)
    ensures
        assemble::instance_config(c, vrf) matches Ok(v) ==> sound(v) && v.vrf_name == vrf && (vrf
            is None <==> v.table_id_v4 == 0),
        assemble_v3::instance_config(c, vrf) matches Ok(Some(v)) ==> sound_v3(v) && v.vrf_name
            == vrf && (vrf is None <==> v.table_id_v6 == 0),
{
    match vrf {
        None => {
            lemma_built(c, c.ospf.spec_block(), vrf, 0);
            lemma_built(c, c.ospf3.spec_block(), vrf, 0);
        },
        Some(name) => {
            match (
                assemble::block_pos(c.ospf.vrfs@, name, 0),
                assemble::vrf_pos(c.vrfs@, name, 0),
            ) {
                (Some(i), Some(j)) => {
                    lemma_built(c, c.ospf.vrfs@[i].spec_block(), vrf, c.vrfs@[j].table_id_v4);
                },
                _ => {},
            }
            match (
                assemble::block_pos(c.ospf3.vrfs@, name, 0),
                assemble::vrf_pos(c.vrfs@, name, 0),
            ) {
                (Some(i), Some(j)) => {
                    lemma_built(c, c.ospf3.vrfs@[i].spec_block(), vrf, c.vrfs@[j].table_id_v6);
                },
                _ => {},
            }
        },
    }
}

proof fn lemma_vrf_configs(c: RouterConfig, from: int, k: int)
    requires
        0 <= from,
        0 <= k < assemble::vrf_configs(c, from).len(),
    ensures
        sound(assemble::vrf_configs(c, from)[k]),
        assemble::vrf_configs(c, from)[k].vrf_name is Some,
        assemble::vrf_configs(c, from)[k].table_id_v4 != 0,
    decreases c.ospf.vrfs@.len() - from,
{
    let name = Some(c.ospf.vrfs@[from].name@);
    lemma_accepted(c, name);
    if assemble::instance_config(c, name) is Ok {
        if k > 0 {
            lemma_vrf_configs(c, from + 1, k - 1);
        }
    } else {
        lemma_vrf_configs(c, from + 1, k);
    }
}

proof fn lemma_vrf_configs_v3(c: RouterConfig, from: int, k: int)
    requires
        0 <= from,
        0 <= k < assemble_v3::vrf_configs(c, from).len(),
    ensures
        sound_v3(assemble_v3::vrf_configs(c, from)[k]),
        assemble_v3::vrf_configs(c, from)[k].vrf_name is Some,
        assemble_v3::vrf_configs(c, from)[k].table_id_v6 != 0,
    decreases c.ospf3.vrfs@.len() - from,
{
    let name = Some(c.ospf3.vrfs@[from].name@);
    lemma_accepted(c, name);
    if assemble_v3::instance_config(c, name) matches Ok(Some(_)) {
        if k > 0 {
            lemma_vrf_configs_v3(c, from + 1, k - 1);
        }
    } else {
        lemma_vrf_configs_v3(c, from + 1, k);
    }
}

/// All instances that a file configures are sound; the default one, which has FIB 0, comes first,
/// and all others have a VRF and a FIB of their own.
pub proof fn lemma_all_accepted(c: RouterConfig, k: int)
    requires
        0 <= k < assemble::all_configs(c).len(),
    ensures
        ({
            let v = assemble::all_configs(c)[k];
            &&& sound(v)
            &&& v.vrf_name is None <==> v.table_id_v4 == 0
            &&& v.vrf_name is None ==> k == 0
        }),
{
    lemma_accepted(c, None);
    let first: int = match assemble::instance_config(c, None) {
        Ok(_) if c.ospf.enabled => 1,
        _ => 0,
    };
    if k >= first {
        lemma_vrf_configs(c, 0, k - first);
    }
}

/// The same for OSPFv3.
pub proof fn lemma_all_accepted_v3(c: RouterConfig, k: int)
    requires
        0 <= k < assemble_v3::all_configs(c).len(),
    ensures
        ({
            let v = assemble_v3::all_configs(c)[k];
            &&& sound_v3(v)
            &&& v.vrf_name is None <==> v.table_id_v6 == 0
            &&& v.vrf_name is None ==> k == 0
        }),
{
    lemma_accepted(c, None);
    let first: int = match assemble_v3::instance_config(c, None) {
        Ok(Some(_)) => 1,
        _ => 0,
    };
    if k >= first {
        lemma_vrf_configs_v3(c, 0, k - first);
    }
}

/// Whether something was contributed.
pub open spec fn contributes<T>(r: Result<Seq<T>, ConfigErrorView>) -> bool {
    r matches Ok(s) && s.len() > 0
}

/// An interface, VLAN or loopback of the file takes part in the instance of one VRF at most.
pub proof fn lemma_one_instance(
    f: InterfaceConfig,
    s: SubInterfaceConfig,
    l: LoopbackConfig,
    parent: Seq<char>,
    passive: bool,
    a: Option<Seq<char>>,
    b: Option<Seq<char>>,
)
    requires
        a != b,
    ensures
        !contributes(assemble::parent_part(f, passive, a)) || !contributes(
            assemble::parent_part(f, passive, b),
        ),
        !contributes(assemble::sub_part(parent, s, passive, a)) || !contributes(
            assemble::sub_part(parent, s, passive, b),
        ),
        !contributes(assemble::loopback_part(l, a)) || !contributes(assemble::loopback_part(l, b)),
        !contributes(assemble_v3::parent_part(f, passive, a)) || !contributes(
            assemble_v3::parent_part(f, passive, b),
        ),
        !contributes(assemble_v3::sub_part(parent, s, passive, a)) || !contributes(
            assemble_v3::sub_part(parent, s, passive, b),
        ),
        !contributes(assemble_v3::loopback_part(l, a)) || !contributes(
            assemble_v3::loopback_part(l, b),
        ),
{
}

/// An area id reads the same as a number, as the decimal text of that number and as its dotted text.
/// A negative number, a text that is neither dotted nor a decimal number of 32 bits, and anything that
/// is no scalar are refused.
pub proof fn lemma_area_id_spellings(n: u32, dec: String, dotted: String, other: String)
    requires
        dec@ == text::decimal_text(n as nat),
        dotted@ == text::ipv4_text(n),
        text::ipv4(other@) is None,
        text::decimal(other@, 0xffffffff) is None,
    ensures
        assemble::area_id_of(AreaIdValue::Number(n as u64)) == Ok::<u32, ConfigErrorView>(n),
        assemble::area_id_of(AreaIdValue::Text(dec)) == Ok::<u32, ConfigErrorView>(n),
        assemble::area_id_of(AreaIdValue::Text(dotted)) == Ok::<u32, ConfigErrorView>(n),
        assemble::area_id_of(AreaIdValue::OtherNumber) is Err,
        assemble::area_id_of(AreaIdValue::Text(other)) is Err,
        assemble::area_id_of(AreaIdValue::Other) is Err,
{
    text::lemma_decimal_roundtrip(n as nat);
    text::lemma_decimal_not_dotted(n as nat);
    text::lemma_ipv4_roundtrip(n);
}

} // verus!
