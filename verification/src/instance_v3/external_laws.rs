//! Laws of the AS-external LSAs: what their octets say, and which ranges are summed up.
use vstd::prelude::*;

use crate::config::ParsedSummaryAddress6;
use crate::instance_v3::externals;
use crate::instance_v3::InstanceV3View;
use crate::lsdb_v3::LsaKeyV3;
use crate::packet_v3::lsa::AsExternalLsaV3;
use crate::packet_v3::LsaV3Type;
use crate::wire;

verus! {

/// Whether `body` announces a prefix: the E bit tells a metric of type 2 and the T bit a tag, the
/// metric stands behind them, then come the length and the octets of the prefix, and the tag closes
/// it. There is no forwarding address.
pub open spec fn tells(
    body: Seq<u8>,
    type_2: bool,
    metric: u32,
    address: u128,
    len: u8,
    tag: u32,
) -> bool {
    let n = (len + 31) / 32 * 4;
    &&& body.len() == 8 + n + (if tag != 0 {
        4int
    } else {
        0
    })
    &&& body[0] < 8
    &&& body[0] / 4 == 1 <==> type_2
    &&& (body[0] / 2) % 2 == 0
    &&& body[0] % 2 == 1 <==> tag != 0
    &&& metric < 0x1000000 ==> wire::u24_at(body, 1) == metric
    &&& body[4] == len
    &&& body[5] == 0
    &&& wire::u16_at(body, 6) == 0
    &&& body.subrange(8, 8 + n) == wire::be128(address).take(n)
    &&& tag != 0 ==> wire::u32_at(body, 8 + n) == tag
}

/// The octets of an AS-external LSA say what it announces.
pub proof fn lemma_external_read(type_2: bool, metric: u32, address: u128, len: u8, tag: u32)
    requires
        len <= 128,
    ensures
        tells(
            AsExternalLsaV3::spec_external(type_2, metric, address, len, tag).bytes(),
            type_2,
            metric,
            address,
            len,
            tag,
        ),
{
    let e = AsExternalLsaV3::spec_external(type_2, metric, address, len, tag);
    let s = e.bytes();
    let n = (len + 31) / 32 * 4;
    assert(e.prefix.address_bytes() =~= wire::be128(address).take(n));
    assert(s.subrange(1, 4) =~= wire::be24(metric));
    if metric < 0x1000000 {
        wire::lemma_be24_inside(s, 1, metric);
    }
    assert(s.subrange(6, 8) =~= wire::be16(0));
    wire::lemma_be16_inside(s, 6, 0);
    assert(s.subrange(8, 8 + n) =~= wire::be128(address).take(n));
    if tag != 0 {
        assert(s.subrange(8 + n, 8 + n + 4) =~= wire::be32(tag));
        wire::lemma_be32_inside(s, 8 + n, tag);
    }
}

/// The key of the announcement of the summary range at position `k`.
pub open spec fn range_key(me: InstanceV3View, k: int) -> LsaKeyV3 {
    externals::external_key(me.router_id, (0x1000 + k) as u32)
}

proof fn lemma_range_lsa(me: InstanceV3View, ss: Seq<ParsedSummaryAddress6>, k: int)
    requires
        0 <= k,
        k < 0x10000000,
        ss.len() < 0x10000000,
        forall|i: int| 0 <= i < ss.len() ==> (#[trigger] ss[i]).prefix_len <= 128,
    ensures
        me.summary_lsas(ss).router_id == me.router_id,
        ({
            let e = me.summary_lsas(ss).lsdb.lookup(range_key(me, k));
            if k < ss.len() && !ss[k].no_advertise {
                &&& e is Some
                &&& e->0.header.ls_age == 0
                &&& tells(
                    e->0.body(),
                    ss[k].metric_type == 2,
                    ss[k].metric,
                    ss[k].prefix,
                    ss[k].prefix_len,
                    ss[k].tag,
                )
            } else {
                e == me.lsdb.lookup(range_key(me, k))
            }
        }),
    decreases ss.len(),
{
    if ss.len() > 0 {
        let rest = ss.drop_last();
        assert forall|i: int| 0 <= i < rest.len() implies (#[trigger] rest[i]).prefix_len <= 128 by {
            assert(rest[i] == ss[i]);
        }
        lemma_range_lsa(me, rest, k);
        if k < rest.len() {
            assert(rest[k] == ss[k]);
        }
        let s = ss[ss.len() - 1];
        let body = AsExternalLsaV3::spec_external(
            s.metric_type == 2,
            s.metric,
            s.prefix,
            s.prefix_len,
            s.tag,
        ).bytes();
        lemma_external_read(s.metric_type == 2, s.metric, s.prefix, s.prefix_len, s.tag);
        externals::lemma_originated(
            me.summary_lsas(rest),
            LsaV3Type::AsExternal,
            (0x1000 + (ss.len() - 1)) as u32,
            body,
            None,
            range_key(me, k),
        );
    }
}

/// Each summary range that is to be advertised is announced with its metric, metric type and tag,
/// under a number of its own; for any other range nothing changes.
pub proof fn lemma_ranges(me: InstanceV3View, ss: Seq<ParsedSummaryAddress6>, k: int)
    requires
        0 <= k < ss.len() < 0x10000000,
        forall|i: int| 0 <= i < ss.len() ==> (#[trigger] ss[i]).prefix_len <= 128,
    ensures
        ({
            let e = me.summary_lsas(ss).lsdb.lookup(range_key(me, k));
            if !ss[k].no_advertise {
                &&& e is Some
                &&& e->0.header.ls_age == 0
                &&& tells(
                    e->0.body(),
                    ss[k].metric_type == 2,
                    ss[k].metric,
                    ss[k].prefix,
                    ss[k].prefix_len,
                    ss[k].tag,
                )
            } else {
                e == me.lsdb.lookup(range_key(me, k))
            }
        }),
{
    lemma_range_lsa(me, ss, k);
}

} // verus!
