//! What area border routers announce.
use vstd::prelude::*;

use crate::instance_v3;
use crate::instance_v3::externals;
use crate::instance_v3::inter_area;
use crate::instance_v3::inter_area::{AreaRoute, PrefixCost};
use crate::instance_v3::{InstanceV3View, InterfaceV3View};
use crate::lsdb_v3::LsaKeyV3;
use crate::packet_v3::LsaV3Type;

verus! {

/// The key of the announcement number `id` into the area `dest`.
pub open spec fn summary_key(router_id: u32, dest: u32, id: u32) -> LsaKeyV3 {
    LsaKeyV3 {
        area: Some(dest),
        ls_type: LsaV3Type::InterAreaPrefix,
        link_state_id: id,
        advertising_router: router_id,
    }
}

/// Whether the database holds an announcement of `p` into `dest` under the number `id`.
#[verifier::opaque]
pub open spec fn announces(me: InstanceV3View, p: PrefixCost, dest: u32, id: u32) -> bool {
    me.lsdb.lookup(summary_key(me.router_id, dest, id)) matches Some(e) && e.body()
        == inter_area::summary_body(p)
}

/// One more announcement holds what it announces and leaves every other one as it is.
proof fn lemma_one_announced(
    me: InstanceV3View,
    p: PrefixCost,
    dest: u32,
    id: u32,
    q: PrefixCost,
    to: u32,
    at: u32,
)
    ensures
        ({
            let r = me.originated(
                LsaV3Type::InterAreaPrefix,
                id,
                inter_area::summary_body(p),
                Some(dest),
            );
            &&& r.router_id == me.router_id
            &&& announces(r, p, dest, id)
            &&& (to != dest || at != id) && announces(me, q, to, at) ==> announces(r, q, to, at)
        }),
{
    reveal(announces);
    externals::lemma_originated(
        me,
        LsaV3Type::InterAreaPrefix,
        id,
        inter_area::summary_body(p),
        Some(dest),
        summary_key(me.router_id, to, at),
    );
}

proof fn lemma_other_areas(
    me: InstanceV3View,
    ps: Seq<PrefixCost>,
    dest: u32,
    q: PrefixCost,
    to: u32,
    at: u32,
)
    ensures
        me.inter_area_lsas(ps, dest).router_id == me.router_id,
        to != dest && announces(me, q, to, at) ==> announces(
            me.inter_area_lsas(ps, dest),
            q,
            to,
            at,
        ),
    decreases ps.len(),
{
    if ps.len() > 0 {
        let rest = ps.drop_last();
        lemma_other_areas(me, rest, dest, q, to, at);
        lemma_one_announced(
            me.inter_area_lsas(rest, dest),
            ps.last(),
            dest,
            (ps.len() % 0x100000000) as u32,
            q,
            to,
            at,
        );
    }
}

/// The last of several announcements comes on top of the others.
proof fn lemma_last_announced(
    me: InstanceV3View,
    ps: Seq<PrefixCost>,
    dest: u32,
    q: PrefixCost,
    at: u32,
)
    requires
        0 < ps.len(),
    ensures
        announces(
            me.inter_area_lsas(ps, dest),
            ps.last(),
            dest,
            (ps.len() % 0x100000000) as u32,
        ),
        at != (ps.len() % 0x100000000) as u32 && announces(
            me.inter_area_lsas(ps.drop_last(), dest),
            q,
            dest,
            at,
        ) ==> announces(me.inter_area_lsas(ps, dest), q, dest, at),
{
    lemma_one_announced(
        me.inter_area_lsas(ps.drop_last(), dest),
        ps.last(),
        dest,
        (ps.len() % 0x100000000) as u32,
        q,
        dest,
        at,
    );
}

/// Numbers of 32 bits are not cut off.
proof fn lemma_number(n: nat, k: int)
    requires
        0 <= k < n < 0x100000000,
    ensures
        (n % 0x100000000) as u32 == n,
        (k + 1) as u32 == k + 1,
        k == n - 1 <==> (k + 1) as u32 == (n % 0x100000000) as u32,
{
}

proof fn lemma_inter_area_lsas(me: InstanceV3View, ps: Seq<PrefixCost>, dest: u32, k: int)
    requires
        0 <= k < ps.len() < 0x100000000,
    ensures
        announces(me.inter_area_lsas(ps, dest), ps[k], dest, (k + 1) as u32),
    decreases ps.len(),
{
    lemma_number(ps.len(), k);
    let at = (k + 1) as u32;
    let n = (ps.len() % 0x100000000) as u32;
    lemma_last_announced(me, ps, dest, ps[k], at);
    if k < ps.len() - 1 {
        let rest = ps.drop_last();
        lemma_inter_area_lsas(me, rest, dest, k);
        assert(rest[k] == ps[k]);
        assert(at != n);
        assert(announces(me.inter_area_lsas(rest, dest), ps[k], dest, at));
    } else {
        assert(at == n);
        assert(ps.last() == ps[k]);
    }
}

proof fn lemma_summarized_all(
    me: InstanceV3View,
    base: InstanceV3View,
    rs: Seq<AreaRoute>,
    dests: Seq<u32>,
    areas: Seq<u32>,
    d: int,
    k: int,
)
    requires
        forall|i: int, j: int| 0 <= i < j < dests.len() ==> dests[i] != dests[j],
        forall|i: int|
            0 <= i < dests.len() ==> base.gathered(rs, areas, #[trigger] dests[i]).len()
                < 0x100000000,
    ensures
        me.summarized_all(base, rs, dests, areas).router_id == me.router_id,
        0 <= d < dests.len() && 0 <= k < base.gathered(rs, areas, dests[d]).len() ==> announces(
            me.summarized_all(base, rs, dests, areas),
            base.gathered(rs, areas, dests[d])[k],
            dests[d],
            (k + 1) as u32,
        ),
    decreases dests.len(),
{
    if dests.len() > 0 {
        let rest = dests.drop_last();
        let last = dests.last();
        let before = me.summarized_all(base, rs, rest, areas);
        assert(dests[dests.len() - 1] == last);
        assert forall|i: int| 0 <= i < rest.len() implies base.gathered(
            rs,
            areas,
            #[trigger] rest[i],
        ).len() < 0x100000000 by {
            assert(rest[i] == dests[i]);
        }
        lemma_summarized_all(me, base, rs, rest, areas, d, k);
        if 0 <= d < rest.len() {
            assert(rest[d] == dests[d]);
        }
        let list = base.gathered(rs, areas, last);
        lemma_other_areas(
            before,
            list,
            last,
            base.gathered(rs, areas, dests[d])[k],
            dests[d],
            (k + 1) as u32,
        );
        if 0 <= k < list.len() {
            lemma_inter_area_lsas(before, list, last, k);
        }
    }
}

proof fn lemma_areas_distinct(ifs: Seq<InterfaceV3View>)
    ensures
        forall|i: int, j: int|
            0 <= i < j < instance_v3::areas_of(ifs).len() ==> instance_v3::areas_of(ifs)[i]
                != instance_v3::areas_of(ifs)[j],
    decreases ifs.len(),
{
    if ifs.len() > 0 {
        lemma_areas_distinct(ifs.drop_last());
        let front = instance_v3::areas_of(ifs.drop_last());
        let all = instance_v3::areas_of(ifs);
        assert forall|i: int, j: int| 0 <= i < j < all.len() implies all[i] != all[j] by {
            assert(all[i] == front[i]);
            assert(front.contains(front[i]));
            if j < front.len() {
                assert(all[j] == front[j]);
            }
        }
    }
}

/// What an area has to announce into another: exactly the prefixes of its table that are not attached
/// there.
proof fn lemma_summarized(src: Seq<PrefixCost>, dest: Seq<PrefixCost>, p: PrefixCost)
    ensures
        inter_area::summarized(src, dest).contains(p) <==> src.contains(p) && !inter_area::attached(dest, p),
    decreases src.len(),
{
    if src.len() > 0 {
        let rest = src.drop_last();
        let front = inter_area::summarized(rest, dest);
        let all = inter_area::summarized(src, dest);
        lemma_summarized(rest, dest, p);
        if src.contains(p) {
            let i = choose|i: int| 0 <= i < src.len() && src[i] == p;
            if i < rest.len() {
                assert(rest[i] == p);
            }
        }
        if rest.contains(p) {
            let i = choose|i: int| 0 <= i < rest.len() && rest[i] == p;
            assert(src[i] == p);
        }
        if front.contains(p) {
            let i = choose|i: int| 0 <= i < front.len() && front[i] == p;
            assert(all[i] == p);
        }
        if all.contains(p) {
            let i = choose|i: int| 0 <= i < all.len() && all[i] == p;
            if i < front.len() {
                assert(front[i] == p);
            } else {
                assert(src[src.len() - 1] == p);
            }
        }
        if p == src.last() && !inter_area::attached(dest, p) {
            assert(all[all.len() - 1] == p);
        }
    } else {
        assert(!src.contains(p));
    }
}

proof fn lemma_gathered(
    me: InstanceV3View,
    rs: Seq<AreaRoute>,
    srcs: Seq<u32>,
    dest: u32,
    p: PrefixCost,
)
    ensures
        me.gathered(rs, srcs, dest).contains(p) <==> exists|s: int|
            0 <= s < srcs.len() && #[trigger] srcs[s] != dest && me.area_table(
                rs,
                srcs[s],
            ).contains(p) && !inter_area::attached(me.area_table(rs, dest), p),
    decreases srcs.len(),
{
    let all = me.gathered(rs, srcs, dest);
    if srcs.len() > 0 {
        let rest = srcs.drop_last();
        let front = me.gathered(rs, rest, dest);
        let more = inter_area::summarized(me.area_table(rs, srcs.last()), me.area_table(rs, dest));
        lemma_gathered(me, rs, rest, dest, p);
        lemma_summarized(me.area_table(rs, srcs.last()), me.area_table(rs, dest), p);
        if front.contains(p) {
            let i = choose|i: int| 0 <= i < front.len() && front[i] == p;
            assert(all[i] == p);
            let s = choose|s: int|
                0 <= s < rest.len() && #[trigger] rest[s] != dest && me.area_table(
                    rs,
                    rest[s],
                ).contains(p) && !inter_area::attached(me.area_table(rs, dest), p);
            assert(srcs[s] == rest[s]);
        }
        if srcs.last() != dest && more.contains(p) {
            let i = choose|i: int| 0 <= i < more.len() && more[i] == p;
            assert(all[front.len() + i] == p);
            assert(srcs[srcs.len() - 1] != dest);
        }
        if all.contains(p) {
            let i = choose|i: int| 0 <= i < all.len() && all[i] == p;
            if i < front.len() {
                assert(front[i] == p);
            } else {
                assert(more[i - front.len()] == p);
            }
        }
        if exists|s: int|
            0 <= s < srcs.len() && #[trigger] srcs[s] != dest && me.area_table(
                rs,
                srcs[s],
            ).contains(p) && !inter_area::attached(me.area_table(rs, dest), p) {
            let s = choose|s: int|
                0 <= s < srcs.len() && #[trigger] srcs[s] != dest && me.area_table(
                    rs,
                    srcs[s],
                ).contains(p) && !inter_area::attached(me.area_table(rs, dest), p);
            if s < rest.len() {
                assert(rest[s] == srcs[s]);
            }
        }
    }
}

/// A border router announces into each of its areas every prefix of every other area that is not
/// attached there, at its cost, each under a number of its own so that no announcement displaces
/// another.
pub proof fn lemma_announced_into(
    me: InstanceV3View,
    rs: Seq<AreaRoute>,
    src: int,
    dest: int,
    p: PrefixCost,
)
    requires
        ({
            let areas = instance_v3::areas_of(me.interfaces);
            &&& me.is_abr()
            &&& 0 <= src < areas.len()
            &&& 0 <= dest < areas.len()
            &&& src != dest
            &&& me.area_table(rs, areas[src]).contains(p)
            &&& !inter_area::attached(me.area_table(rs, areas[dest]), p)
            &&& forall|i: int|
                0 <= i < areas.len() ==> me.gathered(rs, areas, #[trigger] areas[i]).len()
                    < 0x100000000
        }),
    ensures
        ({
            let areas = instance_v3::areas_of(me.interfaces);
            let r = me.with_inter_area_lsas(rs);
            exists|id: u32| #[trigger] announces(r, p, areas[dest], id)
        }),
{
    let areas = instance_v3::areas_of(me.interfaces);
    lemma_areas_distinct(me.interfaces);
    assert(areas[src] != areas[dest]);
    lemma_gathered(me, rs, areas, areas[dest], p);
    let ps = me.gathered(rs, areas, areas[dest]);
    let k = choose|k: int| 0 <= k < ps.len() && ps[k] == p;
    lemma_summarized_all(me, me, rs, areas, areas, dest, k);
    assert(announces(me.with_inter_area_lsas(rs), p, areas[dest], (k + 1) as u32));
}

/// Whether an area other than `dest` holds `p` in its table, and `dest` does not have it attached.
pub open spec fn comes_from_elsewhere(
    me: InstanceV3View,
    rs: Seq<AreaRoute>,
    areas: Seq<u32>,
    dest: u32,
    p: PrefixCost,
) -> bool {
    &&& exists|s: int|
        0 <= s < areas.len() && #[trigger] areas[s] != dest && me.area_table(
            rs,
            areas[s],
        ).contains(p)
    &&& !inter_area::attached(me.area_table(rs, dest), p)
}

/// Whether the database holds under the number `id` an announcement into `dest` of one of `ps`.
pub open spec fn announces_one(me: InstanceV3View, ps: Seq<PrefixCost>, dest: u32, id: u32) -> bool {
    exists|k: int| 0 <= k < ps.len() && announces(me, #[trigger] ps[k], dest, id)
}

proof fn lemma_lsas_source(me: InstanceV3View, ps: Seq<PrefixCost>, dest: u32, to: u32, id: u32)
    ensures
        ({
            let r = me.inter_area_lsas(ps, dest);
            let k = summary_key(me.router_id, to, id);
            &&& r.router_id == me.router_id
            &&& r.lsdb.lookup(k) == me.lsdb.lookup(k) || (to == dest && announces_one(r, ps, dest, id))
        }),
    decreases ps.len(),
{
    if ps.len() > 0 {
        let rest = ps.drop_last();
        let before = me.inter_area_lsas(rest, dest);
        let p = ps.last();
        let n = (ps.len() % 0x100000000) as u32;
        let key = summary_key(me.router_id, to, id);
        let r = me.inter_area_lsas(ps, dest);
        lemma_lsas_source(me, rest, dest, to, id);
        externals::lemma_originated(
            before,
            LsaV3Type::InterAreaPrefix,
            n,
            inter_area::summary_body(p),
            Some(dest),
            key,
        );
        lemma_one_announced(before, p, dest, n, p, to, id);
        assert(ps[ps.len() - 1] == p);
        if to == dest && id == n {
            assert(announces(r, ps[ps.len() - 1], dest, id));
        } else if announces_one(before, rest, dest, id) && to == dest {
            let k = choose|k: int| 0 <= k < rest.len() && announces(before, #[trigger] rest[k], dest, id);
            lemma_one_announced(before, p, dest, n, rest[k], to, id);
            assert(announces(r, ps[k], dest, id));
        }
    }
}

/// Whether the announcement number `id` into `to` is as it was before, or announces what comes from
/// another area.
pub open spec fn is_justified(
    before: InstanceV3View,
    after: InstanceV3View,
    base: InstanceV3View,
    rs: Seq<AreaRoute>,
    areas: Seq<u32>,
    to: u32,
    id: u32,
) -> bool {
    let k = summary_key(before.router_id, to, id);
    ||| after.lsdb.lookup(k) == before.lsdb.lookup(k)
    ||| exists|p: PrefixCost| #[trigger]
        announces(after, p, to, id) && comes_from_elsewhere(base, rs, areas, to, p)
}

proof fn lemma_all_source(
    me: InstanceV3View,
    base: InstanceV3View,
    rs: Seq<AreaRoute>,
    dests: Seq<u32>,
    areas: Seq<u32>,
    to: u32,
    id: u32,
)
    ensures
        me.summarized_all(base, rs, dests, areas).router_id == me.router_id,
        is_justified(me, me.summarized_all(base, rs, dests, areas), base, rs, areas, to, id),
    decreases dests.len(),
{
    if dests.len() > 0 {
        let rest = dests.drop_last();
        let dest = dests.last();
        let before = me.summarized_all(base, rs, rest, areas);
        let ps = base.gathered(rs, areas, dest);
        let r = me.summarized_all(base, rs, dests, areas);
        let key = summary_key(me.router_id, to, id);
        lemma_all_source(me, base, rs, rest, areas, to, id);
        lemma_lsas_source(before, ps, dest, to, id);
        if r.lsdb.lookup(key) == before.lsdb.lookup(key) {
            if before.lsdb.lookup(key) != me.lsdb.lookup(key) {
                let p = choose|p: PrefixCost| #[trigger]
                    announces(before, p, to, id) && comes_from_elsewhere(base, rs, areas, to, p);
                reveal(announces);
                assert(announces(r, p, to, id));
            }
        } else {
            let k = choose|k: int| 0 <= k < ps.len() && announces(r, #[trigger] ps[k], dest, id);
            lemma_gathered(base, rs, areas, dest, ps[k]);
            assert(ps.contains(ps[k]));
            assert(comes_from_elsewhere(base, rs, areas, to, ps[k]));
            assert(announces(r, ps[k], to, id));
        }
    }
}

/// Whatever a border router newly announces into an area comes from another area and is not
/// attached in the area that it is announced into; any other router announces nothing.
pub proof fn lemma_announced_from(me: InstanceV3View, rs: Seq<AreaRoute>, to: u32, id: u32)
    ensures
        ({
            let areas = instance_v3::areas_of(me.interfaces);
            let r = me.with_inter_area_lsas(rs);
            &&& is_justified(me, r, me, rs, areas, to, id)
            &&& !me.is_abr() ==> r == me
        }),
{
    let areas = instance_v3::areas_of(me.interfaces);
    lemma_all_source(me, me, rs, areas, areas, to, id);
}

} // verus!
