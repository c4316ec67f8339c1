//! What the lists of the configuration file mean: areas, redistribution rules, route maps, summary
//! ranges, configured neighbors and authentication keys.
use vstd::prelude::*;

use crate::config;
use crate::config::assemble;
use crate::config::assemble_v3;
use crate::config::key_laws;
use crate::config::key_laws::keyed;
use crate::config::yaml::{
    AreaConfigEntry, Ospf6NeighborConfig, OspfBlock, OspfNeighborConfig, RedistributeEntry,
    RouteMapEntry, RouterConfig, SummaryAddressEntry,
};
use crate::config::{
    AreaConfig, AreaType, ParsedSummaryAddress, ParsedSummaryAddress6, RedistributeSource,
};
use crate::packet::auth;
use crate::packet::auth::HmacAlgo;
use crate::text;

verus! {

/// Whether the area is the one that the entry describes.
pub open spec fn is_area(e: AreaConfigEntry, a: AreaConfig) -> bool {
    &&& assemble::area_id_of(e.area_id) == Ok::<u32, assemble::ConfigErrorView>(a.area_id)
    &&& a.area_type == AreaType::Stub <==> e.area_type is Some && e.area_type->0@ == "stub"@
    &&& a.area_type == AreaType::Nssa <==> e.area_type is Some && e.area_type->0@ == "nssa"@
    &&& keyed(a.default_cost, e.default_cost, 1)
}

/// Whether the areas are those of the file, one for one.
pub open spec fn are_areas(es: Seq<AreaConfigEntry>, s: Seq<AreaConfig>) -> bool {
    &&& s.len() == es.len()
    &&& forall|i: int| 0 <= i < s.len() ==> is_area(es[i], #[trigger] s[i])
}

proof fn lemma_areas(es: Seq<AreaConfigEntry>, from: int)
    requires
        0 <= from <= es.len(),
    ensures
        assemble::areas_of(es, from) matches Ok(s) ==> s.len() == es.len() - from && forall|i: int|
            0 <= i < s.len() ==> is_area(es[from + i], #[trigger] s[i]),
    decreases es.len() - from,
{
    if from < es.len() {
        lemma_areas(es, from + 1);
        reveal_strlit("stub");
        reveal_strlit("nssa");
        assert("stub"@[0] != "nssa"@[0]);
        if let Ok(s) = assemble::areas_of(es, from) {
            let rest = assemble::areas_of(es, from + 1)->Ok_0;
            assert forall|i: int| 0 <= i < s.len() implies is_area(es[from + i], #[trigger] s[i]) by {
                if i > 0 {
                    assert(s[i] == rest[i - 1]);
                    assert(is_area(es[from + 1 + (i - 1)], rest[i - 1]));
                }
            }
        }
    }
}

/// Whether the route maps are those of the file, one for one.
pub open spec fn are_maps(es: Seq<RouteMapEntry>, s: Seq<config::RouteMapView>) -> bool {
    &&& s.len() == es.len()
    &&& forall|i: int|
        0 <= i < s.len() ==> (#[trigger] s[i]).name == es[i].name@ && es[i].permits is Some
            && s[i].permits == es[i].permits->0@
}

proof fn lemma_maps(es: Seq<RouteMapEntry>, from: int)
    requires
        0 <= from <= es.len(),
    ensures
        assemble::compiled_maps(es, from) matches Ok(s) ==> s.len() == es.len() - from
            && forall|i: int|
            0 <= i < s.len() ==> (#[trigger] s[i]).name == es[from + i].name@ && es[from
                + i].permits is Some && s[i].permits == es[from + i].permits->0@,
    decreases es.len() - from,
{
    if from < es.len() {
        lemma_maps(es, from + 1);
        if let Ok(s) = assemble::compiled_maps(es, from) {
            let rest = assemble::compiled_maps(es, from + 1)->Ok_0;
            assert forall|i: int| 0 <= i < s.len() implies (#[trigger] s[i]).name == es[from
                + i].name@ && es[from + i].permits is Some && s[i].permits == es[from
                + i].permits->0@ by {
                if i > 0 {
                    assert(s[i] == rest[i - 1]);
                    assert(rest[i - 1].name == es[from + 1 + (i - 1)].name@);
                }
            }
        }
    }
}

/// Whether the name is that of the protocol.
pub open spec fn is_named(name: Seq<char>, source: RedistributeSource) -> bool {
    match source {
        RedistributeSource::Connected => name == "connected"@,
        RedistributeSource::Static => name == "static"@,
        RedistributeSource::Bgp => name == "bgp"@,
        RedistributeSource::Kernel => name == "kernel"@,
    }
}

/// Whether the rule is the one that the entry describes.
pub open spec fn is_rule(e: RedistributeEntry, r: config::RedistributeConfigView) -> bool {
    &&& is_named(e.protocol@, r.source)
    &&& keyed(r.metric, e.metric, 20)
    &&& keyed(r.metric_type, e.metric_type, 2)
    &&& match e.route_map {
        Some(n) => r.route_map == Some(n@),
        None => r.route_map is None,
    }
}

/// Whether a rule for the entry is among `s`.
pub open spec fn has_rule(s: Seq<config::RedistributeConfigView>, e: RedistributeEntry) -> bool {
    exists|q: int| 0 <= q < s.len() && is_rule(e, #[trigger] s[q])
}

/// Whether an entry from `from` on describes the rule.
pub open spec fn rule_stems(
    es: Seq<RedistributeEntry>,
    r: config::RedistributeConfigView,
    from: int,
) -> bool {
    exists|i: int| from <= i < es.len() && is_rule(#[trigger] es[i], r)
}

/// Whether the rules are those of the file; an entry whose protocol is not known has none, and each
/// route map that a rule refers to is among `ms`.
pub open spec fn are_rules(
    es: Seq<RedistributeEntry>,
    ms: Seq<config::RouteMapView>,
    s: Seq<config::RedistributeConfigView>,
) -> bool {
    &&& forall|i: int, source: RedistributeSource|
        0 <= i < es.len() && #[trigger] is_named(es[i].protocol@, source) ==> has_rule(s, es[i])
    &&& forall|q: int| 0 <= q < s.len() ==> rule_stems(es, #[trigger] s[q], 0)
    &&& forall|q: int|
        0 <= q < s.len() && (#[trigger] s[q]).route_map is Some ==> assemble::has_map(
            ms,
            s[q].route_map->0,
        )
}

proof fn lemma_named(name: Seq<char>, source: RedistributeSource)
    requires
        is_named(name, source),
    ensures
        RedistributeSource::named(name) == Some(source),
{
    reveal_strlit("connected");
    reveal_strlit("static");
    reveal_strlit("bgp");
    reveal_strlit("kernel");
    assert("connected"@.len() == 9);
    assert("static"@.len() == 6);
    assert("bgp"@.len() == 3);
    assert("kernel"@.len() == 6);
    assert("static"@[0] != "kernel"@[0]);
}

proof fn lemma_rules(es: Seq<RedistributeEntry>, ms: Seq<config::RouteMapView>, from: int)
    requires
        0 <= from <= es.len(),
    ensures
        assemble::rules_of(es, ms, from) matches Ok(s) ==> {
            &&& forall|q: int| 0 <= q < s.len() ==> rule_stems(es, #[trigger] s[q], from)
            &&& forall|q: int|
                0 <= q < s.len() && (#[trigger] s[q]).route_map is Some ==> assemble::has_map(
                    ms,
                    s[q].route_map->0,
                )
        },
    decreases es.len() - from,
{
    if from < es.len() {
        lemma_rules(es, ms, from + 1);
        if let Ok(s) = assemble::rules_of(es, ms, from) {
            let rest = assemble::rules_of(es, ms, from + 1)->Ok_0;
            assert forall|q: int| 0 <= q < s.len() implies rule_stems(es, #[trigger] s[q], from) && (
            s[q].route_map is Some ==> assemble::has_map(ms, s[q].route_map->0)) by {
                let known = RedistributeSource::named(es[from].protocol@) is Some;
                if known && q == 0 {
                    assert(is_rule(es[from], s[0]));
                } else {
                    let k = if known {
                        q - 1
                    } else {
                        q
                    };
                    assert(s[q] == rest[k]);
                    let i = choose|i: int| from + 1 <= i < es.len() && is_rule(#[trigger] es[i], rest[k]);
                    assert(is_rule(es[i], s[q]));
                }
            }
        }
    }
}

proof fn lemma_rule_held(
    es: Seq<RedistributeEntry>,
    ms: Seq<config::RouteMapView>,
    from: int,
    i: int,
    source: RedistributeSource,
)
    requires
        0 <= from <= i < es.len(),
        is_named(es[i].protocol@, source),
    ensures
        assemble::rules_of(es, ms, from) matches Ok(s) ==> has_rule(s, es[i]),
    decreases es.len() - from,
{
    if let Ok(s) = assemble::rules_of(es, ms, from) {
        let rest = assemble::rules_of(es, ms, from + 1)->Ok_0;
        if i == from {
            lemma_named(es[i].protocol@, source);
            assert(is_rule(es[i], s[0]));
        } else {
            lemma_rule_held(es, ms, from + 1, i, source);
            let q = choose|q: int| 0 <= q < rest.len() && is_rule(es[i], #[trigger] rest[q]);
            if RedistributeSource::named(es[from].protocol@) is Some {
                assert(s[q + 1] == rest[q]);
            } else {
                assert(s[q] == rest[q]);
            }
        }
    }
}

proof fn lemma_all_rules(es: Seq<RedistributeEntry>, ms: Seq<config::RouteMapView>)
    ensures
        assemble::rules_of(es, ms, 0) matches Ok(s) ==> are_rules(es, ms, s),
{
    if let Ok(s) = assemble::rules_of(es, ms, 0) {
        lemma_rules(es, ms, 0);
        assert forall|i: int, source: RedistributeSource|
            0 <= i < es.len() && #[trigger] is_named(es[i].protocol@, source) implies has_rule(
            s,
            es[i],
        ) by {
            lemma_rule_held(es, ms, 0, i, source);
        }
    }
}

/// Whether one of the texts is the kind of authentication, in small or large letters.
pub open spec fn is_kind(kind: Option<String>, a: Seq<char>, b: Seq<char>, c: Seq<char>, d: Seq<char>) -> bool {
    kind is Some && {
        let k = text::lowered(kind->0@);
        k == a || k == b || k == c || k == d
    }
}

/// Whether the kind asks for an MD5 digest.
pub open spec fn asks_md5(kind: Option<String>) -> bool {
    is_kind(kind, "message-digest"@, "md5"@, "md5"@, "md5"@)
}

/// Whether the kind asks for an HMAC with the hash function.
pub open spec fn asks_sha(kind: Option<String>, algo: HmacAlgo) -> bool {
    match algo {
        HmacAlgo::Sha1 => false,
        HmacAlgo::Sha256 => is_kind(kind, "hmac-sha-256"@, "hmac-sha256"@, "sha256"@, "sha-256"@),
        HmacAlgo::Sha384 => is_kind(kind, "hmac-sha-384"@, "hmac-sha384"@, "sha384"@, "sha-384"@),
        HmacAlgo::Sha512 => is_kind(kind, "hmac-sha-512"@, "hmac-sha512"@, "sha512"@, "sha-512"@),
    }
}

/// Whether the text is given and not empty.
pub open spec fn is_given(t: Option<String>) -> bool {
    t is Some && t->0@.len() > 0
}

/// Whether `k` is the key of an interface with these settings. A password is the octets of its text;
/// a digest has both the number and the octets of its key; without a complete key there is none.
pub open spec fn is_key(
    kind: Option<String>,
    password: Option<String>,
    id: Option<u8>,
    key: Option<String>,
    k: auth::AuthKeyView,
) -> bool {
    match k {
        auth::AuthKeyView::Null => {
            &&& is_kind(kind, "simple"@, "simple"@, "simple"@, "simple"@) ==> !is_given(password)
            &&& asks_md5(kind) ==> id is None || !is_given(key)
            &&& forall|algo: HmacAlgo| #[trigger]
                asks_sha(kind, algo) ==> id is None || !is_given(key)
        },
        auth::AuthKeyView::Simple(p) => {
            &&& is_kind(kind, "simple"@, "simple"@, "simple"@, "simple"@)
            &&& is_given(password)
            &&& p == vstd::utf8::encode_utf8(password->0@)
        },
        auth::AuthKeyView::Md5 { key_id, key: s } => {
            &&& asks_md5(kind)
            &&& id == Some(key_id)
            &&& is_given(key)
            &&& s == vstd::utf8::encode_utf8(key->0@)
        },
        auth::AuthKeyView::HmacSha { algo, key_id, key: s } => {
            &&& asks_sha(kind, algo)
            &&& id == Some(key_id)
            &&& is_given(key)
            &&& s == vstd::utf8::encode_utf8(key->0@)
        },
    }
}

proof fn lemma_simple_is_no_digest(s: Seq<char>)
    requires
        s == "simple"@,
    ensures
        assemble::digest_named(s) is None,
{
    reveal_strlit("simple");
    reveal_strlit("message-digest");
    reveal_strlit("md5");
    reveal_strlit("hmac-sha-256");
    reveal_strlit("hmac-sha256");
    reveal_strlit("sha256");
    reveal_strlit("sha-256");
    reveal_strlit("hmac-sha-384");
    reveal_strlit("hmac-sha384");
    reveal_strlit("sha384");
    reveal_strlit("sha-384");
    reveal_strlit("hmac-sha-512");
    reveal_strlit("hmac-sha512");
    reveal_strlit("sha512");
    reveal_strlit("sha-512");
    assert(s.len() == 6 && s[1] == 'i');
    assert("sha256"@[1] == 'h');
    assert("sha384"@[1] == 'h');
    assert("sha512"@[1] == 'h');
}

/// An interface is given the key that its settings ask for.
pub proof fn lemma_auth_key(
    kind: Option<String>,
    password: Option<String>,
    id: Option<u8>,
    key: Option<String>,
)
    ensures
        is_key(
            kind,
            password,
            id,
            key,
            assemble::auth_key_of(
                config::opt_text(kind),
                config::opt_text(password),
                id,
                config::opt_text(key),
            ),
        ),
{
    if kind is Some {
        let s = text::lowered(kind->0@);
        if s == "simple"@ {
            lemma_simple_is_no_digest(s);
        }
        assert forall|algo: HmacAlgo| #[trigger] asks_sha(kind, algo) implies assemble::digest_named(
            s,
        ) is Some by {}
    }
}

/// Whether the pair is the IPv4 neighbor that the entry describes, of priority 1 unless it says
/// otherwise.
pub open spec fn is_neighbor(e: OspfNeighborConfig, n: (u32, u8)) -> bool {
    text::ipv4(e.address@) == Some(n.0) && keyed(n.1, e.priority, 1)
}

/// Whether the IPv4 neighbors are those of a network of the kind: on a non-broadcast network those of the
/// entries whose address can be read, on any other none.
pub open spec fn are_neighbors(
    kind: Option<String>,
    es: Seq<OspfNeighborConfig>,
    s: Seq<(u32, u8)>,
) -> bool {
    if kind is Some && kind->0@ == "non-broadcast"@ {
        &&& forall|i: int|
            0 <= i < es.len() && text::ipv4((#[trigger] es[i]).address@) is Some ==> has_neighbor(
                s,
                es[i],
            )
        &&& forall|q: int| 0 <= q < s.len() ==> neighbor_stems(es, #[trigger] s[q], 0)
    } else {
        s.len() == 0
    }
}

/// Whether the IPv4 neighbor of the entry is among `s`.
pub open spec fn has_neighbor(s: Seq<(u32, u8)>, e: OspfNeighborConfig) -> bool {
    exists|q: int| 0 <= q < s.len() && is_neighbor(e, #[trigger] s[q])
}

/// Whether an entry from `from` on describes the IPv4 neighbor.
pub open spec fn neighbor_stems(es: Seq<OspfNeighborConfig>, n: (u32, u8), from: int) -> bool {
    exists|i: int| from <= i < es.len() && is_neighbor(#[trigger] es[i], n)
}

proof fn lemma_neighbors_stem(es: Seq<OspfNeighborConfig>, from: int)
    requires
        0 <= from <= es.len(),
    ensures
        forall|q: int|
            0 <= q < assemble::neighbors_of(es, from).len() ==> neighbor_stems(
                es,
                #[trigger] assemble::neighbors_of(es, from)[q],
                from,
            ),
    decreases es.len() - from,
{
    if from < es.len() {
        lemma_neighbors_stem(es, from + 1);
        let s = assemble::neighbors_of(es, from);
        let rest = assemble::neighbors_of(es, from + 1);
        assert forall|q: int| 0 <= q < s.len() implies neighbor_stems(es, #[trigger] s[q], from) by {
            let known = text::ipv4(es[from].address@) is Some;
            if known && q == 0 {
                assert(is_neighbor(es[from], s[0]));
            } else {
                let k = if known {
                    q - 1
                } else {
                    q
                };
                assert(s[q] == rest[k]);
                let i = choose|i: int| from + 1 <= i < es.len() && is_neighbor(#[trigger] es[i], rest[k]);
                assert(is_neighbor(es[i], s[q]));
            }
        }
    }
}

proof fn lemma_neighbor_held(es: Seq<OspfNeighborConfig>, from: int, i: int)
    requires
        0 <= from <= i < es.len(),
        text::ipv4(es[i].address@) is Some,
    ensures
        has_neighbor(assemble::neighbors_of(es, from), es[i]),
    decreases es.len() - from,
{
    let s = assemble::neighbors_of(es, from);
    let rest = assemble::neighbors_of(es, from + 1);
    if i == from {
        assert(is_neighbor(es[i], s[0]));
    } else {
        lemma_neighbor_held(es, from + 1, i);
        let q = choose|q: int| 0 <= q < rest.len() && is_neighbor(es[i], #[trigger] rest[q]);
        if text::ipv4(es[from].address@) is Some {
            assert(s[q + 1] == rest[q]);
        } else {
            assert(s[q] == rest[q]);
        }
    }
}

/// A non-broadcast network is given the IPv4 neighbors of its entries, any other none.
pub proof fn lemma_neighbors(kind: Option<String>, es: Seq<OspfNeighborConfig>)
    ensures
        are_neighbors(kind, es, assemble::kind_neighbors(assemble::kind_of(kind), es)),
{
    reveal_strlit("non-broadcast");
    reveal_strlit("broadcast");
    assert("non-broadcast"@.len() == 13);
    assert("broadcast"@.len() == 9);
    lemma_neighbors_stem(es, 0);
    assert forall|i: int|
        0 <= i < es.len() && text::ipv4((#[trigger] es[i]).address@) is Some implies has_neighbor(
        assemble::neighbors_of(es, 0),
        es[i],
    ) by {
        lemma_neighbor_held(es, 0, i);
    }
}

/// Whether the IPv4 summary range is the one that the entry describes.
pub open spec fn is_range(e: SummaryAddressEntry, r: ParsedSummaryAddress) -> bool {
    &&& text::cidr(e.prefix@) matches Some((a, n)) && text::ipv4(a) == Some(r.prefix)
        && r.prefix_len == n && n <= 32
    &&& r.no_advertise == e.no_advertise
    &&& keyed(r.tag, e.tag, 0)
    &&& keyed(r.metric, e.metric, 20)
    &&& keyed(r.metric_type, e.metric_type, 2)
}

/// Whether the prefix of the entry can be read as an IPv4 prefix.
pub open spec fn has_prefix(e: SummaryAddressEntry) -> bool {
    text::cidr(e.prefix@) matches Some((a, n)) && text::ipv4(a) is Some && n <= 32
}

/// Whether the IPv4 range of the entry is among `s`.
pub open spec fn has_range(s: Seq<ParsedSummaryAddress>, e: SummaryAddressEntry) -> bool {
    exists|q: int| 0 <= q < s.len() && is_range(e, #[trigger] s[q])
}

/// Whether an entry from `from` on describes the IPv4 range.
pub open spec fn range_stems(es: Seq<SummaryAddressEntry>, r: ParsedSummaryAddress, from: int) -> bool {
    exists|i: int| from <= i < es.len() && is_range(#[trigger] es[i], r)
}

/// Whether the IPv4 summary ranges are those of the entries whose prefix can be read.
pub open spec fn are_ranges(es: Seq<SummaryAddressEntry>, s: Seq<ParsedSummaryAddress>) -> bool {
    &&& forall|i: int|
        0 <= i < es.len() && has_prefix(#[trigger] es[i]) ==> has_range(s, es[i])
    &&& forall|q: int| 0 <= q < s.len() ==> range_stems(es, #[trigger] s[q], 0)
}

proof fn lemma_ranges_stem(es: Seq<SummaryAddressEntry>, from: int)
    requires
        0 <= from <= es.len(),
    ensures
        forall|q: int|
            0 <= q < assemble::summaries_of(es, from).len() ==> range_stems(
                es,
                #[trigger] assemble::summaries_of(es, from)[q],
                from,
            ),
    decreases es.len() - from,
{
    if from < es.len() {
        lemma_ranges_stem(es, from + 1);
        let s = assemble::summaries_of(es, from);
        let rest = assemble::summaries_of(es, from + 1);
        assert forall|q: int| 0 <= q < s.len() implies range_stems(es, #[trigger] s[q], from) by {
            let known = assemble::summary_of(es[from]) is Some;
            if known && q == 0 {
                assert(is_range(es[from], s[0]));
            } else {
                let k = if known {
                    q - 1
                } else {
                    q
                };
                assert(s[q] == rest[k]);
                let i = choose|i: int| from + 1 <= i < es.len() && is_range(#[trigger] es[i], rest[k]);
                assert(is_range(es[i], s[q]));
            }
        }
    }
}

proof fn lemma_range_held(es: Seq<SummaryAddressEntry>, from: int, i: int)
    requires
        0 <= from <= i < es.len(),
        has_prefix(es[i]),
    ensures
        has_range(assemble::summaries_of(es, from), es[i]),
    decreases es.len() - from,
{
    let s = assemble::summaries_of(es, from);
    let rest = assemble::summaries_of(es, from + 1);
    if i == from {
        assert(is_range(es[i], s[0]));
    } else {
        lemma_range_held(es, from + 1, i);
        let q = choose|q: int| 0 <= q < rest.len() && is_range(es[i], #[trigger] rest[q]);
        if assemble::summary_of(es[from]) is Some {
            assert(s[q + 1] == rest[q]);
        } else {
            assert(s[q] == rest[q]);
        }
    }
}

/// Whether the lists of the IPv4 instance are those of the entries, its route maps those of the file.
pub open spec fn are_lists(
    c: RouterConfig,
    areas: Seq<AreaConfigEntry>,
    rules: Seq<RedistributeEntry>,
    ranges: Seq<SummaryAddressEntry>,
    r: config::OspfDaemonConfigView,
) -> bool {
    &&& are_areas(areas, r.areas)
    &&& are_maps(c.route_maps@, r.route_maps)
    &&& are_rules(rules, r.route_maps, r.redistribute)
    &&& are_ranges(ranges, r.summary_addresses)
}

proof fn lemma_built(c: RouterConfig, b: OspfBlock, vrf: Option<Seq<char>>, table: u32)
    ensures
        assemble::built(c, b, vrf, table) matches Ok(r) ==> are_lists(
            c,
            b.areas@,
            b.redistribute@,
            b.summary_addresses@,
            r,
        ),
{
    if let Ok(r) = assemble::built(c, b, vrf, table) {
        let es = b.summary_addresses@;
        lemma_areas(b.areas@, 0);
        lemma_maps(c.route_maps@, 0);
        lemma_all_rules(b.redistribute@, r.route_maps);
        lemma_ranges_stem(es, 0);
        assert forall|i: int|
            0 <= i < es.len() && has_prefix(#[trigger] es[i]) implies has_range(
            r.summary_addresses,
            es[i],
        ) by {
            lemma_range_held(es, 0, i);
        }
        assert forall|i: int| 0 <= i < r.areas.len() implies is_area(
            b.areas@[i],
            #[trigger] r.areas[i],
        ) by {
            assert(is_area(b.areas@[0 + i], r.areas[i]));
        }
        assert forall|i: int| 0 <= i < r.route_maps.len() implies (#[trigger] r.route_maps[i]).name
            == c.route_maps@[i].name@ && c.route_maps@[i].permits is Some && r.route_maps[i].permits
            == c.route_maps@[i].permits->0@ by {
            assert(r.route_maps[i].name == c.route_maps@[0 + i].name@);
        }
    }
}

/// The IPv4 instance of the default VRF takes its areas, redistribution rules and summary ranges from
/// the flat block.
pub proof fn lemma_default_lists(c: RouterConfig, r: config::OspfDaemonConfigView)
    requires
        assemble::instance_config(c, None) matches Ok(x) && x == r,
    ensures
        are_lists(c, c.ospf.areas@, c.ospf.redistribute@, c.ospf.summary_addresses@, r),
{
    lemma_built(c, c.ospf.spec_block(), None, 0);
}

/// The IPv4 instance of a named VRF takes its areas, redistribution rules and summary ranges from the
/// block of the VRF.
pub proof fn lemma_vrf_lists(c: RouterConfig, name: Seq<char>, r: config::OspfDaemonConfigView)
    requires
        assemble::instance_config(c, Some(name)) matches Ok(x) && x == r,
    ensures
        exists|i: int|
            0 <= i < c.ospf.vrfs@.len() && (#[trigger] c.ospf.vrfs@[i]).name@ == name && are_lists(
                c,
                c.ospf.vrfs@[i].areas@,
                c.ospf.vrfs@[i].redistribute@,
                c.ospf.vrfs@[i].summary_addresses@,
                r,
            ),
{
    let i = assemble::block_pos(c.ospf.vrfs@, name, 0)->0;
    let j = assemble::vrf_pos(c.vrfs@, name, 0)->0;
    key_laws::lemma_block_pos(c, name, 0);
    lemma_built(c, c.ospf.vrfs@[i].spec_block(), Some(name), c.vrfs@[j].table_id_v4);
    assert(c.ospf.vrfs@[i].name@ == name);
}

/// Whether the pair is the IPv6 neighbor that the entry describes, of priority 1 unless it says
/// otherwise.
pub open spec fn is_neighbor_v3(e: Ospf6NeighborConfig, n: (u128, u8)) -> bool {
    text::ipv6(e.address@) == Some(n.0) && keyed(n.1, e.priority, 1)
}

/// Whether the IPv6 neighbors are those of a network of the kind: on a non-broadcast network those of the
/// entries whose address can be read, on any other none.
pub open spec fn are_neighbors_v3(
    kind: Option<String>,
    es: Seq<Ospf6NeighborConfig>,
    s: Seq<(u128, u8)>,
) -> bool {
    if kind is Some && kind->0@ == "non-broadcast"@ {
        &&& forall|i: int|
            0 <= i < es.len() && text::ipv6((#[trigger] es[i]).address@) is Some ==> has_neighbor_v3(
                s,
                es[i],
            )
        &&& forall|q: int| 0 <= q < s.len() ==> neighbor_stems_v3(es, #[trigger] s[q], 0)
    } else {
        s.len() == 0
    }
}

/// Whether the IPv6 neighbor of the entry is among `s`.
pub open spec fn has_neighbor_v3(s: Seq<(u128, u8)>, e: Ospf6NeighborConfig) -> bool {
    exists|q: int| 0 <= q < s.len() && is_neighbor_v3(e, #[trigger] s[q])
}

/// Whether an entry from `from` on describes the IPv6 neighbor.
pub open spec fn neighbor_stems_v3(es: Seq<Ospf6NeighborConfig>, n: (u128, u8), from: int) -> bool {
    exists|i: int| from <= i < es.len() && is_neighbor_v3(#[trigger] es[i], n)
}

proof fn lemma_neighbors_stem_v3(es: Seq<Ospf6NeighborConfig>, from: int)
    requires
        0 <= from <= es.len(),
    ensures
        forall|q: int|
            0 <= q < assemble_v3::neighbors_of(es, from).len() ==> neighbor_stems_v3(
                es,
                #[trigger] assemble_v3::neighbors_of(es, from)[q],
                from,
            ),
    decreases es.len() - from,
{
    if from < es.len() {
        lemma_neighbors_stem_v3(es, from + 1);
        let s = assemble_v3::neighbors_of(es, from);
        let rest = assemble_v3::neighbors_of(es, from + 1);
        assert forall|q: int| 0 <= q < s.len() implies neighbor_stems_v3(es, #[trigger] s[q], from) by {
            let known = text::ipv6(es[from].address@) is Some;
            if known && q == 0 {
                assert(is_neighbor_v3(es[from], s[0]));
            } else {
                let k = if known {
                    q - 1
                } else {
                    q
                };
                assert(s[q] == rest[k]);
                let i = choose|i: int| from + 1 <= i < es.len() && is_neighbor_v3(#[trigger] es[i], rest[k]);
                assert(is_neighbor_v3(es[i], s[q]));
            }
        }
    }
}

proof fn lemma_neighbor_held_v3(es: Seq<Ospf6NeighborConfig>, from: int, i: int)
    requires
        0 <= from <= i < es.len(),
        text::ipv6(es[i].address@) is Some,
    ensures
        has_neighbor_v3(assemble_v3::neighbors_of(es, from), es[i]),
    decreases es.len() - from,
{
    let s = assemble_v3::neighbors_of(es, from);
    let rest = assemble_v3::neighbors_of(es, from + 1);
    if i == from {
        assert(is_neighbor_v3(es[i], s[0]));
    } else {
        lemma_neighbor_held_v3(es, from + 1, i);
        let q = choose|q: int| 0 <= q < rest.len() && is_neighbor_v3(es[i], #[trigger] rest[q]);
        if text::ipv6(es[from].address@) is Some {
            assert(s[q + 1] == rest[q]);
        } else {
            assert(s[q] == rest[q]);
        }
    }
}

/// A non-broadcast network is given the IPv6 neighbors of its entries, any other none.
pub proof fn lemma_neighbors_v3(kind: Option<String>, es: Seq<Ospf6NeighborConfig>)
    ensures
        are_neighbors_v3(kind, es, assemble_v3::kind_neighbors(assemble::kind_of(kind), es)),
{
    reveal_strlit("non-broadcast");
    reveal_strlit("broadcast");
    assert("non-broadcast"@.len() == 13);
    assert("broadcast"@.len() == 9);
    lemma_neighbors_stem_v3(es, 0);
    assert forall|i: int|
        0 <= i < es.len() && text::ipv6((#[trigger] es[i]).address@) is Some implies has_neighbor_v3(
        assemble_v3::neighbors_of(es, 0),
        es[i],
    ) by {
        lemma_neighbor_held_v3(es, 0, i);
    }
}

/// Whether the IPv6 summary range is the one that the entry describes.
pub open spec fn is_range_v3(e: SummaryAddressEntry, r: ParsedSummaryAddress6) -> bool {
    &&& text::cidr(e.prefix@) matches Some((a, n)) && text::ipv6(a) == Some(r.prefix)
        && r.prefix_len == n && n <= 128
    &&& r.no_advertise == e.no_advertise
    &&& keyed(r.tag, e.tag, 0)
    &&& keyed(r.metric, e.metric, 20)
    &&& keyed(r.metric_type, e.metric_type, 2)
}

/// Whether the prefix of the entry can be read as an IPv6 prefix.
pub open spec fn has_prefix_v3(e: SummaryAddressEntry) -> bool {
    text::cidr(e.prefix@) matches Some((a, n)) && text::ipv6(a) is Some && n <= 128
}

/// Whether the IPv6 range of the entry is among `s`.
pub open spec fn has_range_v3(s: Seq<ParsedSummaryAddress6>, e: SummaryAddressEntry) -> bool {
    exists|q: int| 0 <= q < s.len() && is_range_v3(e, #[trigger] s[q])
}

/// Whether an entry from `from` on describes the IPv6 range.
pub open spec fn range_stems_v3(es: Seq<SummaryAddressEntry>, r: ParsedSummaryAddress6, from: int) -> bool {
    exists|i: int| from <= i < es.len() && is_range_v3(#[trigger] es[i], r)
}

/// Whether the IPv6 summary ranges are those of the entries whose prefix can be read.
pub open spec fn are_ranges_v3(es: Seq<SummaryAddressEntry>, s: Seq<ParsedSummaryAddress6>) -> bool {
    &&& forall|i: int|
        0 <= i < es.len() && has_prefix_v3(#[trigger] es[i]) ==> has_range_v3(s, es[i])
    &&& forall|q: int| 0 <= q < s.len() ==> range_stems_v3(es, #[trigger] s[q], 0)
}

proof fn lemma_ranges_stem_v3(es: Seq<SummaryAddressEntry>, from: int)
    requires
        0 <= from <= es.len(),
    ensures
        forall|q: int|
            0 <= q < assemble_v3::summaries_of(es, from).len() ==> range_stems_v3(
                es,
                #[trigger] assemble_v3::summaries_of(es, from)[q],
                from,
            ),
    decreases es.len() - from,
{
    if from < es.len() {
        lemma_ranges_stem_v3(es, from + 1);
        let s = assemble_v3::summaries_of(es, from);
        let rest = assemble_v3::summaries_of(es, from + 1);
        assert forall|q: int| 0 <= q < s.len() implies range_stems_v3(es, #[trigger] s[q], from) by {
            let known = assemble_v3::summary_of(es[from]) is Some;
            if known && q == 0 {
                assert(is_range_v3(es[from], s[0]));
            } else {
                let k = if known {
                    q - 1
                } else {
                    q
                };
                assert(s[q] == rest[k]);
                let i = choose|i: int| from + 1 <= i < es.len() && is_range_v3(#[trigger] es[i], rest[k]);
                assert(is_range_v3(es[i], s[q]));
            }
        }
    }
}

proof fn lemma_range_held_v3(es: Seq<SummaryAddressEntry>, from: int, i: int)
    requires
        0 <= from <= i < es.len(),
        has_prefix_v3(es[i]),
    ensures
        has_range_v3(assemble_v3::summaries_of(es, from), es[i]),
    decreases es.len() - from,
{
    let s = assemble_v3::summaries_of(es, from);
    let rest = assemble_v3::summaries_of(es, from + 1);
    if i == from {
        assert(is_range_v3(es[i], s[0]));
    } else {
        lemma_range_held_v3(es, from + 1, i);
        let q = choose|q: int| 0 <= q < rest.len() && is_range_v3(es[i], #[trigger] rest[q]);
        if assemble_v3::summary_of(es[from]) is Some {
            assert(s[q + 1] == rest[q]);
        } else {
            assert(s[q] == rest[q]);
        }
    }
}

/// Whether the lists of the IPv6 instance are those of the entries, its route maps those of the file.
pub open spec fn are_lists_v3(
    c: RouterConfig,
    areas: Seq<AreaConfigEntry>,
    rules: Seq<RedistributeEntry>,
    ranges: Seq<SummaryAddressEntry>,
    r: config::Ospf6DaemonConfigView,
) -> bool {
    &&& are_areas(areas, r.areas)
    &&& are_maps(c.route_maps@, r.route_maps)
    &&& are_rules(rules, r.route_maps, r.redistribute)
    &&& are_ranges_v3(ranges, r.summary_addresses)
}

proof fn lemma_built_v3(c: RouterConfig, b: OspfBlock, vrf: Option<Seq<char>>, table: u32)
    ensures
        assemble_v3::built(c, b, vrf, table) matches Ok(Some(r)) ==> are_lists_v3(
            c,
            b.areas@,
            b.redistribute@,
            b.summary_addresses@,
            r,
        ),
{
    if let Ok(Some(r)) = assemble_v3::built(c, b, vrf, table) {
        let es = b.summary_addresses@;
        lemma_areas(b.areas@, 0);
        lemma_maps(c.route_maps@, 0);
        lemma_all_rules(b.redistribute@, r.route_maps);
        lemma_ranges_stem_v3(es, 0);
        assert forall|i: int|
            0 <= i < es.len() && has_prefix_v3(#[trigger] es[i]) implies has_range_v3(
            r.summary_addresses,
            es[i],
        ) by {
            lemma_range_held_v3(es, 0, i);
        }
        assert forall|i: int| 0 <= i < r.areas.len() implies is_area(
            b.areas@[i],
            #[trigger] r.areas[i],
        ) by {
            assert(is_area(b.areas@[0 + i], r.areas[i]));
        }
        assert forall|i: int| 0 <= i < r.route_maps.len() implies (#[trigger] r.route_maps[i]).name
            == c.route_maps@[i].name@ && c.route_maps@[i].permits is Some && r.route_maps[i].permits
            == c.route_maps@[i].permits->0@ by {
            assert(r.route_maps[i].name == c.route_maps@[0 + i].name@);
        }
    }
}

/// The IPv6 instance of the default VRF takes its areas, redistribution rules and summary ranges from
/// the flat block.
pub proof fn lemma_default_lists_v3(c: RouterConfig, r: config::Ospf6DaemonConfigView)
    requires
        assemble_v3::instance_config(c, None) matches Ok(Some(x)) && x == r,
    ensures
        are_lists_v3(c, c.ospf3.areas@, c.ospf3.redistribute@, c.ospf3.summary_addresses@, r),
{
    lemma_built_v3(c, c.ospf3.spec_block(), None, 0);
}

/// The IPv6 instance of a named VRF takes its areas, redistribution rules and summary ranges from the
/// block of the VRF.
pub proof fn lemma_vrf_lists_v3(c: RouterConfig, name: Seq<char>, r: config::Ospf6DaemonConfigView)
    requires
        assemble_v3::instance_config(c, Some(name)) matches Ok(Some(x)) && x == r,
    ensures
        exists|i: int|
            0 <= i < c.ospf3.vrfs@.len() && (#[trigger] c.ospf3.vrfs@[i]).name@ == name && are_lists_v3(
                c,
                c.ospf3.vrfs@[i].areas@,
                c.ospf3.vrfs@[i].redistribute@,
                c.ospf3.vrfs@[i].summary_addresses@,
                r,
            ),
{
    let i = assemble::block_pos(c.ospf3.vrfs@, name, 0)->0;
    let j = assemble::vrf_pos(c.vrfs@, name, 0)->0;
    key_laws::lemma_block_pos(c, name, 0);
    lemma_built_v3(c, c.ospf3.vrfs@[i].spec_block(), Some(name), c.vrfs@[j].table_id_v6);
    assert(c.ospf3.vrfs@[i].name@ == name);
}

} // verus!
