//! What holds of the LSAs that we issue: they verify, they are numbered upwards, and what is no
//! longer redistributed is withdrawn.
use vstd::prelude::*;

use crate::config;
use crate::config::ParsedSummaryAddress6;
use crate::instance::originate as redistribution;
use crate::instance_v3::originate;
use crate::instance_v3::originate::ExternalV6View;
use crate::instance_v3::InstanceV3View;
use crate::lsdb_v3;
use crate::lsdb_v3::{LsaEntryV3View, LsaKeyV3};
use crate::packet::checksum;
use crate::packet_v3::lsa::AsExternalLsaV3;
use crate::packet_v3::{
    LsaV3Header, LsaV3Type, PacketV3Error, INITIAL_SEQUENCE_NUMBER, LSA_V3_HEADER_LEN, MAX_AGE,
};
use crate::wire;

verus! {

/// An LSA that we issue carries a checksum that verifies: the Fletcher sums over everything but the
/// age vanish. Its body and its header are found in its octets.
pub proof fn lemma_sealed(header: LsaV3Header, body: Seq<u8>, area: Option<u32>)
    ensures
        ({
            let e = originate::sealed(header, body, area);
            &&& checksum::fletcher_sums(e.raw.skip(2)) == (0int, 0int)
            &&& e.body() == body
            &&& e.area == area
            &&& e.header == LsaV3Header { ls_checksum: e.header.ls_checksum, ..header }
            &&& LsaV3Header::spec_at(e.raw, 0) == Ok::<LsaV3Header, PacketV3Error>(e.header)
        }),
{
    let e = originate::sealed(header, body, area);
    let blank = header.bytes() + body;
    let c = checksum::fletcher_octets(blank.skip(2), 14);
    checksum::lemma_fletcher_verifies(blank.skip(2), 14);
    assert(e.raw.skip(2) =~= blank.skip(2).update(14, c.0).update(15, c.1));
    assert(e.body() =~= body);
    let sum = e.header.ls_checksum;
    let hi = c.0;
    let lo = c.1;
    assert(wire::be16(sum) =~= seq![hi, lo]) by {
        assert((hi * 256 + lo) / 256 == hi && (hi * 256 + lo) % 256 == lo);
    }
    assert(e.raw.subrange(0, LSA_V3_HEADER_LEN as int) =~= e.header.bytes());
    e.header.lemma_roundtrip(e.raw, 0);
}

/// What we originate is what the database then holds under its key, at age 0 and one above the
/// instance that we held; no other LSA is touched.
pub proof fn lemma_originated(
    me: InstanceV3View,
    ls_type: LsaV3Type,
    id: u32,
    body: Seq<u8>,
    area: Option<u32>,
    k: LsaKeyV3,
)
    ensures
        ({
            let key = LsaKeyV3 {
                area,
                ls_type,
                link_state_id: id,
                advertising_router: me.router_id,
            };
            let r = me.originated(ls_type, id, body, area);
            let e = r.lsdb.lookup(key)->0;
            &&& r.lsdb.lookup(key) is Some
            &&& e.header.ls_age == 0
            &&& e.body() == body
            &&& e.header.ls_sequence_number == (match me.lsdb.lookup(key) {
                Some(held) => originate::next_sequence(held.header.ls_sequence_number),
                None => INITIAL_SEQUENCE_NUMBER,
            })
            &&& k != key ==> r.lsdb.lookup(k) == me.lsdb.lookup(k)
            &&& r.router_id == me.router_id
            &&& r.redistribute == me.redistribute
            &&& r.asbr == me.asbr
        }),
{
    let e = me.self_lsa(ls_type, id, body, area);
    let key = LsaKeyV3 { area, ls_type, link_state_id: id, advertising_router: me.router_id };
    let blank = LsaV3Header {
        ls_age: 0,
        ls_type,
        link_state_id: id,
        advertising_router: me.router_id,
        ls_sequence_number: match me.lsdb.lookup(key) {
            Some(held) => originate::next_sequence(held.header.ls_sequence_number),
            None => INITIAL_SEQUENCE_NUMBER,
        },
        ls_checksum: 0,
        length: originate::lsa_length(body.len() as int),
    };
    lemma_sealed(blank, body, area);
    assert(e.key() == key);
    me.lsdb.lemma_get_after_insert(e, k);
}

/// The key of an AS-external LSA of ours.
pub open spec fn external_key(router_id: u32, id: u32) -> LsaKeyV3 {
    LsaKeyV3 {
        area: None,
        ls_type: LsaV3Type::AsExternal,
        link_state_id: id,
        advertising_router: router_id,
    }
}

proof fn lemma_withdrawn_keys(
    es: Seq<LsaEntryV3View>,
    router_id: u32,
    keep: Seq<u32>,
    k: LsaKeyV3,
)
    requires
        forall|i: int, j: int|
            0 <= i < j < es.len() ==> (#[trigger] es[i]).key() != (#[trigger] es[j]).key(),
    ensures
        originate::withdrawn_keys(es, router_id, keep).no_duplicates(),
        originate::withdrawn_keys(es, router_id, keep).contains(k) <==> exists|i: int|
            0 <= i < es.len() && (#[trigger] es[i]).key() == k && originate::withdrawable(
                es[i],
                router_id,
                keep,
            ),
    decreases es.len(),
{
    let ks = originate::withdrawn_keys(es, router_id, keep);
    if es.len() > 0 {
        let rest = es.drop_last();
        let front = originate::withdrawn_keys(rest, router_id, keep);
        lemma_withdrawn_keys(rest, router_id, keep, k);
        lemma_withdrawn_keys(rest, router_id, keep, es.last().key());
        assert(!front.contains(es.last().key())) by {
            if front.contains(es.last().key()) {
                let i = choose|i: int|
                    0 <= i < rest.len() && (#[trigger] rest[i]).key() == es.last().key();
                assert(es[i] == rest[i]);
                assert(es[es.len() - 1].key() == es.last().key());
            }
        }
        assert forall|i: int, j: int| 0 <= i < ks.len() && 0 <= j < ks.len() && i != j implies ks[i]
            != ks[j] by {
            if i < front.len() && j < front.len() {
                assert(front[i] != front[j]);
            } else if i < front.len() {
                assert(front.contains(front[i]));
            } else if j < front.len() {
                assert(front.contains(front[j]));
            }
        }
        if ks.contains(k) {
            let i = choose|i: int| 0 <= i < ks.len() && ks[i] == k;
            if i < front.len() {
                assert(front[i] == k);
                let w = choose|w: int|
                    0 <= w < rest.len() && (#[trigger] rest[w]).key() == k
                        && originate::withdrawable(rest[w], router_id, keep);
                assert(es[w] == rest[w]);
            } else {
                assert(es[es.len() - 1].key() == k);
            }
        }
        if exists|i: int|
            0 <= i < es.len() && (#[trigger] es[i]).key() == k && originate::withdrawable(
                es[i],
                router_id,
                keep,
            ) {
            let w = choose|i: int|
                0 <= i < es.len() && (#[trigger] es[i]).key() == k && originate::withdrawable(
                    es[i],
                    router_id,
                    keep,
                );
            if w < rest.len() {
                assert(rest[w] == es[w]);
                let i = choose|i: int| 0 <= i < front.len() && front[i] == k;
                assert(ks[i] == k);
            } else {
                assert(ks[ks.len() - 1] == k);
            }
        }
    }
}

proof fn lemma_withdrawn(me: InstanceV3View, keys: Seq<LsaKeyV3>, k: LsaKeyV3)
    requires
        keys.no_duplicates(),
    ensures
        ({
            let r = me.withdrawn(keys);
            &&& r.lsdb.lookup(k) == (match me.lsdb.lookup(k) {
                Some(e) => if keys.contains(k) {
                    Some(originate::aged_out(e))
                } else {
                    Some(e)
                },
                None => None,
            })
            &&& r.router_id == me.router_id
            &&& r.redistribute == me.redistribute
            &&& r.asbr == me.asbr
        }),
    decreases keys.len(),
{
    if keys.len() > 0 {
        let rest = keys.drop_last();
        let last = keys.last();
        let before = me.withdrawn(rest);
        assert(rest.no_duplicates());
        lemma_withdrawn(me, rest, k);
        lemma_withdrawn(me, rest, last);
        assert(!rest.contains(last)) by {
            if rest.contains(last) {
                let i = choose|i: int| 0 <= i < rest.len() && rest[i] == last;
                assert(keys[i] == keys[keys.len() - 1]);
            }
        }
        assert(keys.contains(k) <==> rest.contains(k) || k == last) by {
            if keys.contains(k) {
                let i = choose|i: int| 0 <= i < keys.len() && keys[i] == k;
                if i < rest.len() {
                    assert(rest[i] == k);
                }
            }
            if rest.contains(k) {
                let i = choose|i: int| 0 <= i < rest.len() && rest[i] == k;
                assert(keys[i] == k);
            }
            assert(keys[keys.len() - 1] == last);
        }
        match before.lsdb.lookup(last) {
            Some(e) => {
                lsdb_v3::lemma_key_pos(before.lsdb.entries, last, 0);
                lemma_sealed(
                    LsaV3Header {
                        ls_age: MAX_AGE,
                        ls_sequence_number: originate::next_sequence(e.header.ls_sequence_number),
                        ..e.header
                    },
                    e.body(),
                    e.area,
                );
                let gone = originate::aged_out(e);
                assert(gone.key() == last);
                before.lsdb.lemma_get_after_insert(gone, k);
            },
            None => {},
        }
    }
}

/// Withdrawal ages out exactly our AS-external LSAs whose id is not to be kept, with the next
/// sequence number, and leaves every other LSA as it is.
pub proof fn lemma_flushed(me: InstanceV3View, keep: Seq<u32>, k: LsaKeyV3)
    requires
        me.lsdb.wf(),
    ensures
        ({
            let r = me.flushed_outside(keep);
            &&& r.lsdb.lookup(k) == (match me.lsdb.lookup(k) {
                Some(e) => if originate::withdrawable(e, me.router_id, keep) {
                    Some(originate::aged_out(e))
                } else {
                    Some(e)
                },
                None => None,
            })
            &&& me.lsdb.lookup(k) matches Some(e) ==> originate::aged_out(e).header.ls_age
                == MAX_AGE && originate::aged_out(e).body() == e.body()
            &&& r.router_id == me.router_id
            &&& r.redistribute == me.redistribute
            &&& r.asbr == me.asbr
        }),
{
    let es = me.lsdb.entries;
    let keys = originate::withdrawn_keys(es, me.router_id, keep);
    lemma_withdrawn_keys(es, me.router_id, keep, k);
    lemma_withdrawn(me, keys, k);
    lsdb_v3::lemma_key_pos(es, k, 0);
    match lsdb_v3::key_pos(es, k, 0) {
        Some(p) => {
            assert(es[p].key() == k);
            lemma_sealed(
                LsaV3Header {
                    ls_age: MAX_AGE,
                    ls_sequence_number: originate::next_sequence(es[p].header.ls_sequence_number),
                    ..es[p].header
                },
                es[p].body(),
                es[p].area,
            );
            if keys.contains(k) {
                let w = choose|w: int|
                    0 <= w < es.len() && (#[trigger] es[w]).key() == k && originate::withdrawable(
                        es[w],
                        me.router_id,
                        keep,
                    );
                assert(w == p);
            }
        },
        None => {},
    }
}

proof fn lemma_external_lsas(
    me: InstanceV3View,
    ps: Seq<(u128, u8)>,
    metric: u32,
    type_2: bool,
    i: int,
    k: LsaKeyV3,
)
    requires
        ps.len() < 0x1_0000_0000,
    ensures
        ({
            let r = me.external_lsas(ps, metric, type_2);
            let e = r.lsdb.lookup(external_key(me.router_id, (i + 1) as u32));
            &&& r.router_id == me.router_id
            &&& 0 <= i < ps.len() ==> e is Some && e->0.header.ls_age == 0 && e->0.body()
                == AsExternalLsaV3::spec_external(type_2, metric, ps[i].0, ps[i].1, 0).bytes()
            &&& (forall|j: int|
                0 <= j < ps.len() ==> k != #[trigger] external_key(me.router_id, (j + 1) as u32))
                ==> r.lsdb.lookup(k) == me.lsdb.lookup(k)
        }),
    decreases ps.len(),
{
    if ps.len() > 0 {
        let rest = ps.drop_last();
        let before = me.external_lsas(rest, metric, type_2);
        let body = AsExternalLsaV3::spec_external(
            type_2,
            metric,
            ps.last().0,
            ps.last().1,
            0,
        ).bytes();
        lemma_external_lsas(me, rest, metric, type_2, i, k);
        lemma_originated(before, LsaV3Type::AsExternal, ps.len() as u32, body, None, k);
        lemma_originated(
            before,
            LsaV3Type::AsExternal,
            ps.len() as u32,
            body,
            None,
            external_key(me.router_id, (i + 1) as u32),
        );
        if forall|j: int|
            0 <= j < ps.len() ==> k != #[trigger] external_key(me.router_id, (j + 1) as u32) {
            assert(k != external_key(me.router_id, ((ps.len() - 1) + 1) as u32));
        }
    }
}

/// The prefixes that are announced one by one are exactly those of the routes that lie in no summary
/// range and that the route map, if there is one, permits.
pub proof fn lemma_announced(
    externals: Seq<ExternalV6View>,
    summaries: Seq<ParsedSummaryAddress6>,
    map: Option<config::RouteMapView>,
    p: (u128, u8),
)
    ensures
        originate::announced(externals, summaries, map).contains(p) <==> exists|k: int|
            0 <= k < externals.len() && #[trigger] originate::announceable(
                externals[k],
                summaries,
                map,
            ) && p == (externals[k].prefix, externals[k].prefix_len),
        originate::announced(externals, summaries, map).len() <= externals.len(),
    decreases externals.len(),
{
    let all = originate::announced(externals, summaries, map);
    if externals.len() > 0 {
        let rest = externals.drop_last();
        let last = externals.len() - 1;
        let front = originate::announced(rest, summaries, map);
        lemma_announced(rest, summaries, map, p);
        if all.contains(p) {
            let i = choose|i: int| 0 <= i < all.len() && all[i] == p;
            if i < front.len() {
                assert(front[i] == p);
                let k = choose|k: int|
                    0 <= k < rest.len() && #[trigger] originate::announceable(
                        rest[k],
                        summaries,
                        map,
                    ) && p == (rest[k].prefix, rest[k].prefix_len);
                assert(originate::announceable(externals[k], summaries, map));
            } else {
                assert(originate::announceable(externals[last], summaries, map));
            }
        }
        if exists|k: int|
            0 <= k < externals.len() && #[trigger] originate::announceable(
                externals[k],
                summaries,
                map,
            ) && p == (externals[k].prefix, externals[k].prefix_len) {
            let k = choose|k: int|
                0 <= k < externals.len() && #[trigger] originate::announceable(
                    externals[k],
                    summaries,
                    map,
                ) && p == (externals[k].prefix, externals[k].prefix_len);
            if k < last {
                assert(originate::announceable(rest[k], summaries, map));
                let i = choose|i: int| 0 <= i < front.len() && front[i] == p;
                assert(all[i] == p);
            } else {
                assert(all[all.len() - 1] == p);
            }
        }
    }
}

/// Redistribution announces every route outside the summary ranges that the rule's route map permits
/// with the metric of the rule, ages out each of our other AS-external LSAs but the aggregates and the
/// default route, and leaves everything else as it is.
pub proof fn lemma_redistributed(
    me: InstanceV3View,
    externals: Seq<ExternalV6View>,
    summaries: Seq<ParsedSummaryAddress6>,
    i: int,
    k: LsaKeyV3,
)
    requires
        me.lsdb.wf(),
        me.rule_in_force() is Some,
        externals.len() < 0x1_0000_0000,
    ensures
        ({
            let r = me.redistributed(externals, summaries);
            let (rule, map) = me.rule_in_force()->0;
            let kept = originate::announced(externals, summaries, map);
            let ids = originate::external_ids(kept.len() as int, summaries.len() as int);
            let e = r.lsdb.lookup(external_key(me.router_id, (i + 1) as u32));
            &&& 0 <= i < kept.len() ==> e is Some && e->0.header.ls_age == 0 && e->0.body()
                == AsExternalLsaV3::spec_external(
                rule.metric_type == 2,
                rule.metric,
                kept[i].0,
                kept[i].1,
                0,
            ).bytes()
            &&& (forall|j: int|
                0 <= j < kept.len() ==> k != #[trigger] external_key(me.router_id, (j + 1) as u32))
                ==> r.lsdb.lookup(k) == (match me.lsdb.lookup(k) {
                Some(held) => if originate::withdrawable(held, me.router_id, ids) {
                    Some(originate::aged_out(held))
                } else {
                    Some(held)
                },
                None => None,
            })
        }),
{
    let (rule, map) = me.rule_in_force()->0;
    let kept = originate::announced(externals, summaries, map);
    let ids = originate::external_ids(kept.len() as int, summaries.len() as int);
    lemma_announced(externals, summaries, map, (0, 0));
    let mid = me.flushed_outside(ids);
    lemma_flushed(me, ids, k);
    lemma_external_lsas(mid, kept, rule.metric, rule.metric_type == 2, i, k);
}

/// A rule is in force exactly if the router redistributes, some rule is for connected routes, and the
/// first such rule names no route map or one that exists.
pub proof fn lemma_rule_in_force(me: InstanceV3View)
    ensures
        me.rule_in_force() is Some <==> me.asbr && (redistribution::connected_rule(
            me.redistribute,
            0,
        ) matches Some(rule) && (rule.route_map matches Some(n) ==> redistribution::map_named(
            me.route_maps,
            n,
            0,
        ) is Some)),
{
}

/// Where no rule is in force, every AS-external LSA of ours is aged out: on a router that
/// redistributes nothing, without a rule for connected routes, and if the rule names an unknown route
/// map.
pub proof fn lemma_nothing_redistributed(
    me: InstanceV3View,
    externals: Seq<ExternalV6View>,
    summaries: Seq<ParsedSummaryAddress6>,
    e: LsaEntryV3View,
)
    requires
        me.lsdb.wf(),
        me.rule_in_force() is None,
        me.lsdb.lookup(e.key()) == Some(e),
        e.header.ls_type == LsaV3Type::AsExternal,
        e.header.advertising_router == me.router_id,
    ensures
        ({
            let r = me.redistributed(externals, summaries).lsdb.lookup(e.key());
            &&& r == Some(originate::aged_out(e))
            &&& r->0.header.ls_age == MAX_AGE
            &&& e.header.ls_sequence_number < i32::MAX ==> r->0.header.ls_sequence_number
                == e.header.ls_sequence_number + 1
        }),
{
    lemma_flushed(me, Seq::empty(), e.key());
    assert(!Seq::<u32>::empty().contains(e.header.link_state_id));
}

} // verus!
