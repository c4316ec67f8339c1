//! What holds of the routes that are announced from outside.
use vstd::prelude::*;

use crate::config;
use crate::config::ParsedSummaryAddress;
use crate::instance::originate;
use crate::instance::OspfInstanceView;
use crate::lsdb;
use crate::packet::lsa;
use crate::packet::lsa::{AsExternalLsa, LsaHeader, LsaKey, LsaType};

verus! {

/// What is announced comes from the candidates, lies in no summary range and is permitted by the
/// route map.
pub proof fn lemma_announced(
    es: Seq<originate::ExternalView>,
    ss: Seq<ParsedSummaryAddress>,
    map: Option<config::RouteMapView>,
    k: int,
)
    requires
        0 <= k < originate::announced(es, ss, map).len(),
    ensures
        exists|i: int|
            0 <= i < es.len() && originate::announced(es, ss, map)[k] == (
                (#[trigger] es[i]).prefix,
                es[i].mask,
            ) && !originate::summarised(es[i].prefix, ss) && (map matches Some(m)
                ==> originate::permitted(m.permits, es[i].matched, 0)),
    decreases es.len(),
{
    let front = es.drop_last();
    if k < originate::announced(front, ss, map).len() {
        lemma_announced(front, ss, map, k);
        let i = choose|i: int|
            0 <= i < front.len() && originate::announced(front, ss, map)[k] == (
                (#[trigger] front[i]).prefix,
                front[i].mask,
            ) && !originate::summarised(front[i].prefix, ss) && (map matches Some(m)
                ==> originate::permitted(m.permits, front[i].matched, 0));
        assert(es[i] == front[i]);
    } else {
        assert(es[es.len() - 1] == es.last());
    }
}

/// A candidate in no summary range that the route map permits is announced.
pub proof fn lemma_all_announced(
    es: Seq<originate::ExternalView>,
    ss: Seq<ParsedSummaryAddress>,
    map: Option<config::RouteMapView>,
    i: int,
)
    requires
        0 <= i < es.len(),
        !originate::summarised(es[i].prefix, ss),
        map matches Some(m) ==> originate::permitted(m.permits, es[i].matched, 0),
    ensures
        originate::announced(es, ss, map).contains((es[i].prefix, es[i].mask)),
    decreases es.len(),
{
    let front = es.drop_last();
    let a = originate::announced(front, ss, map);
    let b = originate::announced(es, ss, map);
    let x = (es[i].prefix, es[i].mask);
    if i < front.len() {
        assert(front[i] == es[i]);
        lemma_all_announced(front, ss, map, i);
        let j = choose|j: int| 0 <= j < a.len() && a[j] == x;
        assert(b[j] == x);
    } else {
        assert(b[b.len() - 1] == x);
    }
}

/// A route that no statement matches is denied.
pub proof fn lemma_default_deny(permits: Seq<bool>, matched: Seq<bool>, from: int)
    requires
        0 <= from,
        forall|k: int| from <= k < permits.len() && k < matched.len() ==> !#[trigger] matched[k],
    ensures
        !originate::permitted(permits, matched, from),
    decreases permits.len() - from,
{
    if from < permits.len() {
        lemma_default_deny(permits, matched, from + 1);
    }
}

proof fn lemma_withdrawn_keys(s: Seq<lsdb::LsdbEntryView>, me: u32, keep: Seq<u32>, now: u64)
    ensures
        forall|i: int|
            0 <= i < s.len() && !(#[trigger] s[i]).expired(now) && s[i].key().advertising_router
                == me && !keep.contains(s[i].key().link_state_id) ==> originate::withdrawn_keys(
                lsdb::live_headers(s, now),
                me,
                keep,
            ).contains(s[i].key()),
    decreases s.len(),
{
    if s.len() > 0 {
        let front = s.drop_last();
        lemma_withdrawn_keys(front, me, keep, now);
        let hs = lsdb::live_headers(s, now);
        let a = originate::withdrawn_keys(lsdb::live_headers(front, now), me, keep);
        let b = originate::withdrawn_keys(hs, me, keep);
        if !s.last().expired(now) {
            assert(hs.drop_last() =~= lsdb::live_headers(front, now));
        }
        assert forall|i: int|
            0 <= i < s.len() && !(#[trigger] s[i]).expired(now) && s[i].key().advertising_router
                == me && !keep.contains(s[i].key().link_state_id) implies b.contains(
            s[i].key(),
        ) by {
            if i < front.len() {
                assert(front[i] == s[i]);
                let j = choose|j: int| 0 <= j < a.len() && a[j] == s[i].key();
                assert(b[j] == s[i].key());
            } else {
                assert(b[b.len() - 1] == s[i].key());
            }
        }
    }
}

proof fn lemma_withdrawn_keys_known(
    s: Seq<lsdb::LsdbEntryView>,
    me: u32,
    keep: Seq<u32>,
    now: u64,
    j: int,
)
    requires
        0 <= j < originate::withdrawn_keys(lsdb::live_headers(s, now), me, keep).len(),
    ensures
        ({
            let k = originate::withdrawn_keys(lsdb::live_headers(s, now), me, keep)[j];
            &&& k.advertising_router == me
            &&& !keep.contains(k.link_state_id)
            &&& exists|i: int| 0 <= i < s.len() && (#[trigger] s[i]).key() == k
        }),
    decreases s.len(),
{
    let front = s.drop_last();
    let hs = lsdb::live_headers(s, now);
    let a = originate::withdrawn_keys(lsdb::live_headers(front, now), me, keep);
    if !s.last().expired(now) {
        assert(hs.drop_last() =~= lsdb::live_headers(front, now));
    }
    let k = originate::withdrawn_keys(hs, me, keep)[j];
    if j < a.len() {
        lemma_withdrawn_keys_known(front, me, keep, now, j);
        let i = choose|i: int| 0 <= i < front.len() && (#[trigger] front[i]).key() == k;
        assert(s[i].key() == k);
    } else {
        assert(s[s.len() - 1].key() == k);
    }
}

/// What the withdrawal of some LSAs leaves.
proof fn lemma_withdrawn(me: OspfInstanceView, ks: Seq<LsaKey>, now: u64)
    requires
        me.as_external_lsdb.wf(),
        forall|k: LsaKey|
            ks.contains(k) ==> (#[trigger] me.as_external_lsdb.lookup(k) matches Some(e)
                && e.lsa.header.ls_sequence_number < i32::MAX),
    ensures
        me.withdrawn(ks, now).as_external_lsdb.wf(),
        me.withdrawn(ks, now).router_id == me.router_id,
        forall|k: LsaKey|
            !ks.contains(k) ==> #[trigger] me.withdrawn(ks, now).as_external_lsdb.lookup(k)
                == me.as_external_lsdb.lookup(k),
        forall|k: LsaKey|
            ks.contains(k) ==> (#[trigger] me.withdrawn(ks, now).as_external_lsdb.lookup(k)
                matches Some(e) && e.expired(now)),
    decreases ks.len(),
{
    if ks.len() > 0 {
        let before = ks.drop_last();
        let k0 = ks.last();
        assert(ks[ks.len() - 1] == k0);
        assert forall|k: LsaKey| before.contains(k) implies ks.contains(k) by {
            let i = choose|i: int| 0 <= i < before.len() && before[i] == k;
            assert(ks[i] == k);
        }
        assert forall|k: LsaKey| ks.contains(k) implies before.contains(k) || k == k0 by {
            let i = choose|i: int| 0 <= i < ks.len() && ks[i] == k;
            if i < before.len() {
                assert(before[i] == k);
            }
        }
        lemma_withdrawn(me, before, now);
        let front = me.withdrawn(before, now);
        let d = front.as_external_lsdb;
        let r = me.withdrawn(ks, now).as_external_lsdb;
        assert(ks.contains(k0));
        assert(me.as_external_lsdb.lookup(k0) is Some);
        assert(d.lookup(k0) is Some);
        let e = d.lookup(k0)->0;
        lsdb::lemma_key_pos(d.entries, k0, 0);
        assert(e.key() == k0);
        let l = originate::withdrawal(e.lsa);
        assert(l.header.spec_key() == k0);
        d.lemma_wf_kept(l, k0, 0, now);
        assert forall|k: LsaKey| !ks.contains(k) implies #[trigger] r.lookup(k)
            == me.as_external_lsdb.lookup(k) by {
            d.lemma_get_after_install(l, k, now);
            assert(d.lookup(k) == me.as_external_lsdb.lookup(k));
        }
        assert forall|k: LsaKey| ks.contains(k) implies (#[trigger] r.lookup(k) matches Some(x)
            && x.expired(now)) by {
            d.lemma_get_after_install(l, k, now);
            if k != k0 {
                assert(d.lookup(k) is Some);
            } else {
                lemma_withdrawal_expires(d, e, k0, now);
                if !before.contains(k0) {
                    assert(d.lookup(k0) == me.as_external_lsdb.lookup(k0));
                }
            }
        }
    }
}

/// A withdrawal that the database takes makes the entry expire; one that it does not take leaves the
/// entry.
proof fn lemma_withdrawal_expires(
    d: lsdb::LsdbView,
    e: lsdb::LsdbEntryView,
    k: LsaKey,
    now: u64,
)
    requires
        d.lookup(k) == Some(e),
        e.key() == k,
    ensures
        ({
            let r = d.install(originate::withdrawal(e.lsa), now);
            &&& e.lsa.header.ls_sequence_number < i32::MAX ==> (r.lookup(k) matches Some(x)
                && x.expired(now))
            &&& e.expired(now) ==> (r.lookup(k) matches Some(x) && x.expired(now))
        }),
{
    let l = originate::withdrawal(e.lsa);
    assert(l.header.spec_key() == k);
    d.lemma_get_after_install(l, k, now);
    assert(d.entry_for(l, now).expired(now));
}

/// No AS-external LSA of ours with an id outside `keep` stays alive.
pub proof fn lemma_flushed(me: OspfInstanceView, keep: Seq<u32>, now: u64, i: int)
    requires
        me.as_external_lsdb.wf(),
        forall|j: int|
            0 <= j < me.as_external_lsdb.entries.len() ==> (
            #[trigger] me.as_external_lsdb.entries[j]).lsa.header.ls_sequence_number < i32::MAX,
        0 <= i < me.flushed_outside(keep, now).as_external_lsdb.entries.len(),
        ({
            let e = me.flushed_outside(keep, now).as_external_lsdb.entries[i];
            e.key().advertising_router == me.router_id && !e.expired(now)
        }),
    ensures
        keep.contains(
            me.flushed_outside(keep, now).as_external_lsdb.entries[i].key().link_state_id,
        ),
{
    let s = me.as_external_lsdb.entries;
    let ks = originate::withdrawn_keys(lsdb::live_headers(s, now), me.router_id, keep);
    lemma_flush_applies(me, keep, now);
    lemma_withdrawn(me, ks, now);
    lemma_withdrawn_keys(s, me.router_id, keep, now);
    let r = me.flushed_outside(keep, now).as_external_lsdb;
    let e = r.entries[i];
    let k = e.key();
    lemma_lookup_entry(r, i);
    if !keep.contains(k.link_state_id) && !ks.contains(k) {
        assert(r.lookup(k) == me.as_external_lsdb.lookup(k));
        lsdb::lemma_key_pos(s, k, 0);
        let j = lsdb::key_pos(s, k, 0)->0;
        assert(s[j] == e);
    }
}

/// With distinct keys, each entry is found by its key.
proof fn lemma_lookup_entry(d: lsdb::LsdbView, i: int)
    requires
        d.wf(),
        0 <= i < d.entries.len(),
    ensures
        d.lookup(d.entries[i].key()) == Some(d.entries[i]),
{
    let k = d.entries[i].key();
    lsdb::lemma_key_pos(d.entries, k, 0);
    let j = lsdb::key_pos(d.entries, k, 0)->0;
    if j < i {
        assert(d.entries[j].key() != d.entries[i].key());
    }
}

/// The keys that a flush withdraws are there, with numbers that are not used up.
proof fn lemma_flush_applies(me: OspfInstanceView, keep: Seq<u32>, now: u64)
    requires
        forall|j: int|
            0 <= j < me.as_external_lsdb.entries.len() ==> (
            #[trigger] me.as_external_lsdb.entries[j]).lsa.header.ls_sequence_number < i32::MAX,
    ensures
        ({
            let ks = originate::withdrawn_keys(
                lsdb::live_headers(me.as_external_lsdb.entries, now),
                me.router_id,
                keep,
            );
            forall|k: LsaKey|
                ks.contains(k) ==> (#[trigger] me.as_external_lsdb.lookup(k) matches Some(e)
                    && e.lsa.header.ls_sequence_number < i32::MAX) && !keep.contains(
                    k.link_state_id,
                )
        }),
{
    let s = me.as_external_lsdb.entries;
    let ks = originate::withdrawn_keys(lsdb::live_headers(s, now), me.router_id, keep);
    assert forall|k: LsaKey| ks.contains(k) implies (#[trigger] me.as_external_lsdb.lookup(
        k,
    ) matches Some(e) && e.lsa.header.ls_sequence_number < i32::MAX) && !keep.contains(
        k.link_state_id,
    ) by {
        let j = choose|j: int| 0 <= j < ks.len() && ks[j] == k;
        lemma_withdrawn_keys_known(s, me.router_id, keep, now, j);
        lsdb::lemma_key_pos(s, k, 0);
        let i = choose|i: int| 0 <= i < s.len() && (#[trigger] s[i]).key() == k;
        assert(s[i].key() == k);
    }
}

/// The key of an AS-external LSA of ours.
pub open spec fn external_key(me: OspfInstanceView, id: u32) -> LsaKey {
    originate::own_key(LsaType::AsExternal, id, me.router_id)
}

/// Whether one of the routes has the prefix.
pub open spec fn holds_prefix(kept: Seq<(u32, u32)>, id: u32) -> bool {
    exists|j: int| 0 <= j < kept.len() && (#[trigger] kept[j]).0 == id
}

/// Issuing AS-external LSAs makes each of them be alive and touches nothing else.
proof fn lemma_external_lsas(
    me: OspfInstanceView,
    kept: Seq<(u32, u32)>,
    metric: u32,
    metric_type: u8,
    now: u64,
)
    requires
        me.as_external_lsdb.wf(),
        forall|j: int|
            0 <= j < kept.len() ==> (me.as_external_lsdb.lookup(
                external_key(me, (#[trigger] kept[j]).0),
            ) matches Some(e) ==> e.lsa.header.ls_sequence_number < i32::MAX),
    ensures
        ({
            let r = me.external_lsas(kept, metric, metric_type, now).0;
            &&& r.as_external_lsdb.wf()
            &&& r.router_id == me.router_id
            &&& forall|id: u32|
                holds_prefix(kept, id) ==> (#[trigger] r.as_external_lsdb.lookup(
                    external_key(me, id),
                ) matches Some(e) && !e.expired(now))
            &&& forall|k: LsaKey|
                (forall|id: u32| holds_prefix(kept, id) ==> k != external_key(me, id))
                    ==> #[trigger] r.as_external_lsdb.lookup(k) == me.as_external_lsdb.lookup(k)
        }),
    decreases kept.len(),
{
    if kept.len() > 0 {
        let before = kept.drop_last();
        assert forall|j: int| 0 <= j < before.len() implies (me.as_external_lsdb.lookup(
            external_key(me, (#[trigger] before[j]).0),
        ) matches Some(e) ==> e.lsa.header.ls_sequence_number < i32::MAX) by {
            assert(before[j] == kept[j]);
        }
        lemma_external_lsas(me, before, metric, metric_type, now);
        let front = me.external_lsas(before, metric, metric_type, now).0;
        let r = me.external_lsas(kept, metric, metric_type, now).0;
        let d = front.as_external_lsdb;
        let p = kept.last().0;
        let k0 = external_key(me, p);
        let body = lsa::LsaBodyView::AsExternal(
            AsExternalLsa {
                network_mask: kept.last().1,
                metric_type_2: metric_type == 2,
                metric,
                forwarding_address: 0,
                external_route_tag: 0,
            },
        );
        let l = d.next_instance(k0, originate::our_options(), body);
        assert(l.header.spec_key() == k0);
        assert(l.header.ls_age == 0);
        assert(r.as_external_lsdb == d.install(l, now));
        d.lemma_wf_kept(l, k0, 0, now);
        d.lemma_get_after_install(l, k0, now);
        assert(!d.entry_for(l, now).expired(now));
        assert(kept[kept.len() - 1].0 == p);
        assert(holds_prefix(kept, p));
        assert forall|id: u32| holds_prefix(kept, id) implies holds_prefix(before, id) || id == p by {
            let j = choose|j: int| 0 <= j < kept.len() && (#[trigger] kept[j]).0 == id;
            if j < before.len() {
                assert(before[j].0 == id);
            }
        }
        assert forall|id: u32| holds_prefix(before, id) implies holds_prefix(kept, id) by {
            let j = choose|j: int| 0 <= j < before.len() && (#[trigger] before[j]).0 == id;
            assert(kept[j].0 == id);
        }
        assert(r.as_external_lsdb.lookup(k0) matches Some(e) && !e.expired(now)) by {
            if holds_prefix(before, p) {
                assert(d.lookup(k0) matches Some(e) && !e.expired(now));
            } else {
                assert(d.lookup(k0) == me.as_external_lsdb.lookup(k0));
                assert(me.as_external_lsdb.lookup(external_key(me, kept[kept.len() - 1].0))
                    == d.lookup(k0));
                d.lemma_next_instance_stored(k0, originate::our_options(), body, now);
            }
        }
        assert forall|id: u32| holds_prefix(kept, id) implies (
        #[trigger] r.as_external_lsdb.lookup(external_key(me, id)) matches Some(e) && !e.expired(
            now,
        )) by {
            if id != p {
                d.lemma_get_after_install(l, external_key(me, id), now);
                assert(d.lookup(external_key(me, id)) is Some);
            }
        }
        assert forall|k: LsaKey|
            (forall|id: u32| holds_prefix(kept, id) ==> k != external_key(me, id)) implies
        #[trigger] r.as_external_lsdb.lookup(k) == me.as_external_lsdb.lookup(k) by {
            d.lemma_get_after_install(l, k, now);
            assert(k != k0);
            assert(d.lookup(k) == me.as_external_lsdb.lookup(k));
        }
    }
}

/// When the set of routes to redistribute shrinks, what is gone is withdrawn: after redistribution
/// each announced prefix has an LSA of ours that is alive, and no other AS-external LSA of ours is
/// alive but those of summary ranges and of the default route.
pub proof fn lemma_redistributed(
    me: OspfInstanceView,
    rs: Seq<config::RedistributeConfigView>,
    es: Seq<originate::ExternalView>,
    ss: Seq<ParsedSummaryAddress>,
    now: u64,
    rule: config::RedistributeConfigView,
    map: Option<config::RouteMapView>,
)
    requires
        me.as_external_lsdb.wf(),
        forall|j: int|
            0 <= j < me.as_external_lsdb.entries.len() ==> (
            #[trigger] me.as_external_lsdb.entries[j]).lsa.header.ls_sequence_number < i32::MAX,
        originate::connected_rule(rs, 0) == Some(rule),
        map == (match rule.route_map {
            None => None,
            Some(n) => originate::map_named(me.route_maps, n, 0),
        }),
        rule.route_map is Some ==> map is Some,
    ensures
        ({
            let kept = originate::announced(es, ss, map);
            let d = me.redistributed(rs, es, ss, now).0.as_external_lsdb;
            &&& forall|id: u32|
                holds_prefix(kept, id) ==> (#[trigger] d.lookup(external_key(me, id)) matches Some(
                    e,
                ) && !e.expired(now))
            &&& forall|i: int|
                0 <= i < d.entries.len() && (#[trigger] d.entries[i]).key().advertising_router
                    == me.router_id && !d.entries[i].expired(now) ==> originate::kept_ids(
                    kept,
                    ss,
                ).contains(d.entries[i].key().link_state_id)
        }),
{
    let kept = originate::announced(es, ss, map);
    let keep = originate::kept_ids(kept, ss);
    let s = me.as_external_lsdb.entries;
    let ks = originate::withdrawn_keys(lsdb::live_headers(s, now), me.router_id, keep);
    let base = me.flushed_outside(keep, now);
    lemma_flush_applies(me, keep, now);
    lemma_withdrawn(me, ks, now);
    assert forall|j: int| 0 <= j < kept.len() implies (base.as_external_lsdb.lookup(
        external_key(base, (#[trigger] kept[j]).0),
    ) matches Some(e) ==> e.lsa.header.ls_sequence_number < i32::MAX) by {
        let k = external_key(base, kept[j].0);
        assert(keep[j] == kept[j].0);
        assert(keep.contains(k.link_state_id));
        assert(!ks.contains(k));
        assert(base.as_external_lsdb.lookup(k) == me.as_external_lsdb.lookup(k));
        lsdb::lemma_key_pos(s, k, 0);
    }
    lemma_external_lsas(base, kept, rule.metric, rule.metric_type, now);
    let r = me.redistributed(rs, es, ss, now).0;
    let d = r.as_external_lsdb;
    assert(r == base.external_lsas(kept, rule.metric, rule.metric_type, now).0);
    assert forall|id: u32| holds_prefix(kept, id) implies (#[trigger] d.lookup(
        external_key(me, id),
    ) matches Some(e) && !e.expired(now)) by {
        assert(external_key(me, id) == external_key(base, id));
    }
    assert forall|i: int|
        0 <= i < d.entries.len() && (#[trigger] d.entries[i]).key().advertising_router
            == me.router_id && !d.entries[i].expired(now) implies keep.contains(
        d.entries[i].key().link_state_id,
    ) by {
        let k = d.entries[i].key();
        lemma_lookup_entry(d, i);
        if holds_prefix(kept, k.link_state_id) {
            let j = choose|j: int| 0 <= j < kept.len() && (#[trigger] kept[j]).0 == k.link_state_id;
            assert(keep[j] == kept[j].0);
        } else {
            assert(d.lookup(k) == base.as_external_lsdb.lookup(k));
            lsdb::lemma_key_pos(base.as_external_lsdb.entries, k, 0);
            let j = lsdb::key_pos(base.as_external_lsdb.entries, k, 0)->0;
            lemma_flushed(me, keep, now, j);
        }
    }
}

/// What is flooded to withdraw routes: exactly the AS-external LSAs of ours that were alive before and
/// reached the maximal age since.
pub proof fn lemma_withdrawals(me: OspfInstanceView, hs: Seq<LsaHeader>, now: u64, l: lsa::LsaView)
    ensures
        me.withdrawals(hs, now).contains(l) <==> exists|k: int|
            0 <= k < hs.len() && (#[trigger] hs[k]).advertising_router == me.router_id && (
            me.as_external_lsdb.lookup(hs[k].spec_key()) matches Some(e) && e.expired(now) && e.lsa
                == l),
    decreases hs.len(),
{
    let all = me.withdrawals(hs, now);
    if hs.len() > 0 {
        let rest = hs.drop_last();
        let front = me.withdrawals(rest, now);
        lemma_withdrawals(me, rest, now, l);
        if front.contains(l) {
            let i = choose|i: int| 0 <= i < front.len() && front[i] == l;
            assert(all[i] == l);
            let k = choose|k: int|
                0 <= k < rest.len() && (#[trigger] rest[k]).advertising_router == me.router_id && (
                me.as_external_lsdb.lookup(rest[k].spec_key()) matches Some(e) && e.expired(now)
                    && e.lsa == l);
            assert(hs[k] == rest[k]);
        }
        if exists|k: int|
            0 <= k < hs.len() && (#[trigger] hs[k]).advertising_router == me.router_id && (
            me.as_external_lsdb.lookup(hs[k].spec_key()) matches Some(e) && e.expired(now) && e.lsa
                == l) {
            let k = choose|k: int|
                0 <= k < hs.len() && (#[trigger] hs[k]).advertising_router == me.router_id && (
                me.as_external_lsdb.lookup(hs[k].spec_key()) matches Some(e) && e.expired(now)
                    && e.lsa == l);
            if k < rest.len() {
                assert(rest[k] == hs[k]);
            } else {
                assert(all[all.len() - 1] == l);
            }
        }
        if all.contains(l) {
            let i = choose|i: int| 0 <= i < all.len() && all[i] == l;
            if i < front.len() {
                assert(front[i] == l);
            } else {
                assert(hs[hs.len() - 1] == hs.last());
            }
        }
    }
}

} // verus!
