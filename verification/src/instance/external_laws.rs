//! Laws of the routes that are announced from outside: which rule counts, and what the LSAs say.
use vstd::prelude::*;

use crate::config;
use crate::config::{ParsedSummaryAddress, RedistributeSource};
use crate::instance::externals;
use crate::instance::originate;
use crate::instance::OspfInstanceView;
use crate::lsdb;
use crate::packet::lsa;
use crate::packet::lsa::LsaType;
use crate::prefix;

verus! {

/// The first rule for connected routes counts.
pub proof fn lemma_rule(rs: Seq<config::RedistributeConfigView>, from: int)
    requires
        0 <= from,
    ensures
        match originate::connected_rule(rs, from) {
            Some(r) => exists|k: int|
                from <= k < rs.len() && #[trigger] rs[k] == r && r.source
                    == RedistributeSource::Connected && forall|j: int|
                    from <= j < k ==> (#[trigger] rs[j]).source != RedistributeSource::Connected,
            None => forall|j: int|
                from <= j < rs.len() ==> (#[trigger] rs[j]).source != RedistributeSource::Connected,
        },
    decreases rs.len() - from,
{
    if from < rs.len() {
        if rs[from].source == RedistributeSource::Connected {
            assert(rs[from] == originate::connected_rule(rs, from)->0);
        } else {
            lemma_rule(rs, from + 1);
            if let Some(r) = originate::connected_rule(rs, from + 1) {
                let k = choose|k: int|
                    from + 1 <= k < rs.len() && #[trigger] rs[k] == r && r.source
                        == RedistributeSource::Connected && forall|j: int|
                        from + 1 <= j < k ==> (#[trigger] rs[j]).source
                            != RedistributeSource::Connected;
                assert(rs[k] == r);
            }
        }
    }
}

/// A route map is found by its name.
pub proof fn lemma_map(ms: Seq<config::RouteMapView>, name: Seq<char>, from: int)
    requires
        0 <= from,
    ensures
        match originate::map_named(ms, name, from) {
            Some(m) => m.name == name && ms.contains(m),
            None => forall|j: int| from <= j < ms.len() ==> (#[trigger] ms[j]).name != name,
        },
    decreases ms.len() - from,
{
    if from < ms.len() {
        assert(ms.contains(ms[from]));
        if ms[from].name != name {
            lemma_map(ms, name, from + 1);
        }
    }
}

/// The first statement of a route map that a route matches decides.
pub proof fn lemma_first_match(permits: Seq<bool>, matched: Seq<bool>, from: int, k: int)
    requires
        0 <= from <= k < permits.len(),
        k < matched.len(),
        matched[k],
        forall|j: int| from <= j < k ==> !#[trigger] matched[j],
    ensures
        originate::permitted(permits, matched, from) == permits[k],
    decreases k - from,
{
    if from < k {
        assert(!matched[from]);
        lemma_first_match(permits, matched, from + 1, k);
    }
}

/// Whether `l` is a new AS-external LSA of `me` that announces the prefix without a forwarding
/// address.
pub open spec fn tells(
    l: lsa::LsaView,
    me: u32,
    prefix: u32,
    mask: u32,
    type_2: bool,
    metric: u32,
    tag: u32,
) -> bool {
    &&& l.header.ls_type == LsaType::AsExternal
    &&& l.header.ls_age == 0
    &&& l.header.link_state_id == prefix
    &&& l.header.advertising_router == me
    &&& l.body matches lsa::LsaBodyView::AsExternal(b) && b.network_mask == mask && b.metric_type_2
        == type_2 && b.metric == metric % 0x1000000 && b.forwarding_address == 0
        && b.external_route_tag == tag
}

proof fn lemma_external_lsas(
    me: OspfInstanceView,
    kept: Seq<(u32, u32)>,
    metric: u32,
    metric_type: u8,
    now: u64,
)
    ensures
        ({
            let r = me.external_lsas(kept, metric, metric_type, now);
            &&& r.0.router_id == me.router_id
            &&& r.1.len() == kept.len()
            &&& forall|k: int|
                0 <= k < kept.len() ==> tells(
                    #[trigger] r.1[k],
                    me.router_id,
                    kept[k].0,
                    kept[k].1,
                    metric_type == 2,
                    metric,
                    0,
                )
        }),
    decreases kept.len(),
{
    if kept.len() > 0 {
        lemma_external_lsas(me, kept.drop_last(), metric, metric_type, now);
        let front = me.external_lsas(kept.drop_last(), metric, metric_type, now).1;
        let r = me.external_lsas(kept, metric, metric_type, now).1;
        assert forall|k: int| 0 <= k < kept.len() implies tells(
            #[trigger] r[k],
            me.router_id,
            kept[k].0,
            kept[k].1,
            metric_type == 2,
            metric,
            0,
        ) by {
            if k < front.len() {
                assert(r[k] == front[k]);
                assert(kept.drop_last()[k] == kept[k]);
            }
        }
    }
}

/// Whether the candidate is announced: it lies in no summary range, and the route map, if there is
/// one, permits it.
pub open spec fn is_candidate(
    e: originate::ExternalView,
    ss: Seq<ParsedSummaryAddress>,
    map: Option<config::RouteMapView>,
) -> bool {
    &&& forall|k: int|
        0 <= k < ss.len() ==> !prefix::covered_v4(
            e.prefix,
            (#[trigger] ss[k]).prefix,
            ss[k].prefix_len,
        )
    &&& map matches Some(m) ==> originate::permitted(m.permits, e.matched, 0)
}

/// Whether `l` announces the candidate as the rule says.
pub open spec fn follows(
    l: lsa::LsaView,
    me: u32,
    rule: config::RedistributeConfigView,
    e: originate::ExternalView,
) -> bool {
    tells(l, me, e.prefix, e.mask, rule.metric_type == 2, rule.metric, 0)
}

proof fn lemma_withdrawn_id(me: OspfInstanceView, ks: Seq<lsa::LsaKey>, now: u64)
    ensures
        me.withdrawn(ks, now).router_id == me.router_id,
    decreases ks.len(),
{
    if ks.len() > 0 {
        lemma_withdrawn_id(me, ks.drop_last(), now);
    }
}

/// With a rule in force redistribution issues one LSA per candidate, with the metric and the metric
/// type of the rule, and no other.
pub proof fn lemma_redistribution(
    me: OspfInstanceView,
    rs: Seq<config::RedistributeConfigView>,
    es: Seq<originate::ExternalView>,
    ss: Seq<ParsedSummaryAddress>,
    now: u64,
    rule: config::RedistributeConfigView,
    map: Option<config::RouteMapView>,
)
    requires
        originate::connected_rule(rs, 0) == Some(rule),
        map == (match rule.route_map {
            None => None,
            Some(n) => originate::map_named(me.route_maps, n, 0),
        }),
        rule.route_map is Some ==> map is Some,
    ensures
        ({
            let ls = me.redistributed(rs, es, ss, now).1;
            &&& forall|i: int|
                0 <= i < es.len() && is_candidate(#[trigger] es[i], ss, map) ==> exists|q: int|
                    0 <= q < ls.len() && follows(#[trigger] ls[q], me.router_id, rule, es[i])
            &&& forall|q: int|
                0 <= q < ls.len() ==> exists|i: int|
                    0 <= i < es.len() && is_candidate(#[trigger] es[i], ss, map) && follows(
                        #[trigger] ls[q],
                        me.router_id,
                        rule,
                        es[i],
                    )
        }),
{
    let kept = originate::announced(es, ss, map);
    let ls = me.redistributed(rs, es, ss, now).1;
    let keep = originate::kept_ids(kept, ss);
    lemma_withdrawn_id(
        me,
        originate::withdrawn_keys(
            lsdb::live_headers(me.as_external_lsdb.entries, now),
            me.router_id,
            keep,
        ),
        now,
    );
    lemma_external_lsas(
        me.flushed_outside(keep, now),
        kept,
        rule.metric,
        rule.metric_type,
        now,
    );
    assert forall|i: int|
        0 <= i < es.len() && is_candidate(#[trigger] es[i], ss, map) implies exists|q: int|
        0 <= q < ls.len() && follows(#[trigger] ls[q], me.router_id, rule, es[i]) by {
        externals::lemma_all_announced(es, ss, map, i);
        let q = kept.index_of((es[i].prefix, es[i].mask));
        assert(follows(ls[q], me.router_id, rule, es[i]));
    }
    assert forall|q: int| 0 <= q < ls.len() implies exists|i: int|
        0 <= i < es.len() && is_candidate(#[trigger] es[i], ss, map) && follows(
            #[trigger] ls[q],
            me.router_id,
            rule,
            es[i],
        ) by {
        externals::lemma_announced(es, ss, map, q);
        let i = choose|i: int|
            0 <= i < es.len() && kept[q] == ((#[trigger] es[i]).prefix, es[i].mask)
                && !originate::summarised(es[i].prefix, ss) && (map matches Some(m)
                ==> originate::permitted(m.permits, es[i].matched, 0));
        assert(is_candidate(es[i], ss, map));
        assert(follows(ls[q], me.router_id, rule, es[i]));
    }
}

/// Whether `l` announces the summary range with its metric, metric type and tag.
pub open spec fn sums_up(l: lsa::LsaView, me: u32, s: ParsedSummaryAddress) -> bool {
    tells(
        l,
        me,
        s.prefix,
        prefix::mask_v4(s.prefix_len as int),
        s.metric_type == 2,
        s.metric,
        s.tag,
    )
}

/// Whether one of `ls` announces the range.
pub open spec fn has_summary(ls: Seq<lsa::LsaView>, me: u32, s: ParsedSummaryAddress) -> bool {
    exists|q: int| 0 <= q < ls.len() && sums_up(#[trigger] ls[q], me, s)
}

/// Whether `l` announces one of the ranges, one that is to be advertised.
pub open spec fn is_summary(l: lsa::LsaView, me: u32, ss: Seq<ParsedSummaryAddress>) -> bool {
    exists|k: int| 0 <= k < ss.len() && !ss[k].no_advertise && sums_up(l, me, #[trigger] ss[k])
}

/// Whether `ls` announce the ranges that are to be advertised and nothing else.
pub open spec fn are_summaries(ls: Seq<lsa::LsaView>, me: u32, ss: Seq<ParsedSummaryAddress>) -> bool {
    &&& forall|k: int|
        0 <= k < ss.len() && !(#[trigger] ss[k]).no_advertise ==> has_summary(ls, me, ss[k])
    &&& forall|q: int| 0 <= q < ls.len() ==> is_summary(#[trigger] ls[q], me, ss)
}

proof fn lemma_one_more(
    front: Seq<lsa::LsaView>,
    r: Seq<lsa::LsaView>,
    me: u32,
    ss: Seq<ParsedSummaryAddress>,
)
    requires
        ss.len() > 0,
        are_summaries(front, me, ss.drop_last()),
        if ss.last().no_advertise {
            r == front
        } else {
            r.len() == front.len() + 1 && r.drop_last() == front && sums_up(r.last(), me, ss.last())
        },
    ensures
        are_summaries(r, me, ss),
{
    let rest = ss.drop_last();
    let last = ss.len() - 1;
    assert forall|q: int| 0 <= q < front.len() implies r[q] == front[q] by {
        if !ss.last().no_advertise {
            assert(r.drop_last()[q] == front[q]);
        }
    }
    assert forall|k: int| 0 <= k < ss.len() && !(#[trigger] ss[k]).no_advertise implies has_summary(
        r,
        me,
        ss[k],
    ) by {
        if k < last {
            assert(rest[k] == ss[k]);
            let q = choose|q: int| 0 <= q < front.len() && sums_up(#[trigger] front[q], me, ss[k]);
            assert(sums_up(r[q], me, ss[k]));
        } else {
            assert(sums_up(r[front.len() as int], me, ss[k]));
        }
    }
    assert forall|q: int| 0 <= q < r.len() implies is_summary(#[trigger] r[q], me, ss) by {
        if q < front.len() {
            assert(is_summary(front[q], me, rest));
            let k = choose|k: int|
                0 <= k < rest.len() && !rest[k].no_advertise && sums_up(front[q], me, #[trigger] rest[k]);
            assert(sums_up(r[q], me, ss[k]));
        } else {
            assert(sums_up(r[q], me, ss[last]));
        }
    }
}

proof fn lemma_summed_up(me: OspfInstanceView, ss: Seq<ParsedSummaryAddress>, now: u64)
    requires
        ss.len() > 0,
    ensures
        ({
            let front = me.aggregates(ss.drop_last(), now);
            let r = me.aggregates(ss, now);
            &&& r.0.router_id == front.0.router_id
            &&& if ss.last().no_advertise {
                r.1 == front.1
            } else {
                r.1.len() == front.1.len() + 1 && r.1.drop_last() == front.1 && sums_up(
                    r.1.last(),
                    front.0.router_id,
                    ss.last(),
                )
            }
        }),
{
    let front = me.aggregates(ss.drop_last(), now).1;
    let r = me.aggregates(ss, now).1;
    if !ss.last().no_advertise {
        assert(r.drop_last() =~= front);
    }
}

/// Each summary range that is to be advertised is announced, and nothing else is.
pub proof fn lemma_aggregates(me: OspfInstanceView, ss: Seq<ParsedSummaryAddress>, now: u64)
    ensures
        me.aggregates(ss, now).0.router_id == me.router_id,
        are_summaries(me.aggregates(ss, now).1, me.router_id, ss),
    decreases ss.len(),
{
    if ss.len() > 0 {
        lemma_aggregates(me, ss.drop_last(), now);
        lemma_summed_up(me, ss, now);
        lemma_one_more(
            me.aggregates(ss.drop_last(), now).1,
            me.aggregates(ss, now).1,
            me.router_id,
            ss,
        );
    }
}

} // verus!
