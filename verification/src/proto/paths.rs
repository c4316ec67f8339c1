//! Shortest paths through a graph of routers and networks, and where they start out.
use vstd::prelude::*;

verus! {

/// Where a path starts out.
#[derive(Clone, Copy, Debug, PartialEq, Eq, Structural)]
pub enum Label {
    /// It has not left the root.
    Here,
    /// It leads to a network that the root is attached to by the interface with that index.
    Link(u32),
    /// It leads through the neighbor with that address on the interface with that index.
    Via(u128, u32),
}

/// A connection in one direction.
#[derive(Clone, Copy, Debug, PartialEq, Eq, Structural)]
pub struct Edge {
    pub from: usize,
    pub to: usize,
    pub cost: u32,
    /// Where a path starts out whose first edge this is.
    pub first: Option<Label>,
    /// From a network to a router: the address of the router on the network.
    pub address: Option<u128>,
}

impl Label {
    /// Where a path starts out that goes on by the edge `e`.
    pub open spec fn spec_step(self, e: Edge) -> Option<Label> {
        match self {
            Label::Here => e.first,
            Label::Link(i) => match e.address {
                Some(a) => Some(Label::Via(a, i)),
                None => None,
            },
            Label::Via(a, i) => Some(Label::Via(a, i)),
        }
    }
}

/// Whether the edges, by their positions, lead from `start` to `v`.
pub open spec fn is_walk(es: Seq<Edge>, start: int, w: Seq<int>, v: int) -> bool
    decreases w.len(),
{
    if w.len() == 0 {
        v == start
    } else {
        0 <= w.last() < es.len() && es[w.last()].to == v && is_walk(
            es,
            start,
            w.drop_last(),
            es[w.last()].from as int,
        )
    }
}

/// The cost of a walk.
pub open spec fn cost_of(es: Seq<Edge>, w: Seq<int>) -> int
    decreases w.len(),
{
    if w.len() == 0 {
        0
    } else {
        cost_of(es, w.drop_last()) + es[w.last()].cost
    }
}

/// Where a walk from the root starts out; nothing if that cannot be told.
pub open spec fn label_of(es: Seq<Edge>, w: Seq<int>) -> Option<Label>
    decreases w.len(),
{
    if w.len() == 0 {
        Some(Label::Here)
    } else {
        match label_of(es, w.drop_last()) {
            Some(l) => l.spec_step(es[w.last()]),
            None => None,
        }
    }
}

/// The edges lead from vertex to vertex, and no first edge stays at the root.
pub open spec fn graph(n: nat, es: Seq<Edge>) -> bool {
    forall|i: int|
        0 <= i < es.len() ==> (#[trigger] es[i]).from < n && es[i].to < n && es[i].first != Some(
            Label::Here,
        )
}

/// Whether `d` is the cost of the cheapest walk to `v`, or nothing where no walk leads.
pub open spec fn is_distance(es: Seq<Edge>, root: int, v: int, d: Option<u128>) -> bool {
    match d {
        Some(c) => {
            &&& exists|w: Seq<int>| is_walk(es, root, w, v) && #[trigger] cost_of(es, w) == c
            &&& forall|w: Seq<int>| is_walk(es, root, w, v) ==> c <= #[trigger] cost_of(es, w)
        },
        None => forall|w: Seq<int>| !#[trigger] is_walk(es, root, w, v),
    }
}

/// Whether `ds` holds the distances of all vertices.
pub open spec fn distances(es: Seq<Edge>, root: int, ds: Seq<Option<u128>>) -> bool {
    forall|v: int| 0 <= v < ds.len() ==> is_distance(es, root, v, #[trigger] ds[v])
}

/// Whether the edge leads on at the distance of its end.
pub open spec fn tight(ds: Seq<Option<u128>>, e: Edge) -> bool {
    match (ds[e.from as int], ds[e.to as int]) {
        (Some(a), Some(b)) => a + e.cost == b,
        _ => false,
    }
}

/// What holds while vertices are settled one by one, nearest first.
spec fn settling(
    es: Seq<Edge>,
    root: int,
    ds: Seq<Option<u128>>,
    done: Seq<bool>,
    k: int,
) -> bool {
    &&& ds.len() == done.len()
    &&& 0 <= root < ds.len()
    &&& ds[root] == Some(0u128)
    &&& graph(ds.len(), es)
    &&& forall|v: int| 0 <= v < ds.len() && #[trigger] done[v] ==> ds[v] is Some
    &&& forall|v: int| 0 <= v < ds.len() ==> (#[trigger] ds[v] matches Some(c) ==> c <= k
        * 0xffffffff)
    &&& forall|a: int, b: int|
        0 <= a < ds.len() && 0 <= b < ds.len() && #[trigger] done[a] && !(#[trigger] done[b])
            && ds[b] is Some ==> ds[a]->0 <= ds[b]->0
    &&& forall|v: int|
        0 <= v < ds.len() ==> (#[trigger] ds[v] matches Some(c) ==> exists|w: Seq<int>|
            is_walk(es, root, w, v) && #[trigger] cost_of(es, w) == c)
}

/// Whether every edge out of a settled vertex was followed.
spec fn followed(es: Seq<Edge>, ds: Seq<Option<u128>>, done: Seq<bool>) -> bool {
    forall|i: int|
        0 <= i < es.len() && done[(#[trigger] es[i]).from as int] ==> (
        ds[es[i].to as int] matches Some(c) && c <= ds[es[i].from as int]->0 + es[i].cost)
}

/// The nearest vertex that is not settled.
fn nearest(ds: &Vec<Option<u128>>, done: &Vec<bool>) -> (r: Option<usize>)
    requires
        ds@.len() == done@.len(),
    ensures
        match r {
            Some(u) => {
                &&& u < ds@.len()
                &&& !done@[u as int]
                &&& ds@[u as int] is Some
                &&& forall|b: int|
                    0 <= b < ds@.len() && !(#[trigger] done@[b]) && ds@[b] is Some
                        ==> ds@[u as int]->0 <= ds@[b]->0
            },
            None => forall|b: int| 0 <= b < ds@.len() && !(#[trigger] done@[b]) ==> ds@[b] is None,
        },
{
    let mut best: Option<usize> = None;
    let mut i: usize = 0;
    while i < ds.len()
        invariant
            i <= ds@.len(),
            ds@.len() == done@.len(),
            match best {
                Some(u) => {
                    &&& u < i
                    &&& !done@[u as int]
                    &&& ds@[u as int] is Some
                    &&& forall|b: int|
                        0 <= b < i && !(#[trigger] done@[b]) && ds@[b] is Some
                            ==> ds@[u as int]->0 <= ds@[b]->0
                },
                None => forall|b: int| 0 <= b < i && !(#[trigger] done@[b]) ==> ds@[b] is None,
            },
        decreases ds.len() - i,
    {
        if !done[i] {
            if let Some(c) = ds[i] {
                match best {
                    None => {
                        best = Some(i);
                    },
                    Some(u) => {
                        if let Some(b) = ds[u] {
                            if c < b {
                                best = Some(i);
                            }
                        }
                    },
                }
            }
        }
        i = i + 1;
    }
    best
}

/// How many vertices are not settled.
spec fn unsettled(done: Seq<bool>) -> nat
    decreases done.len(),
{
    if done.len() == 0 {
        0
    } else {
        unsettled(done.drop_last()) + if done.last() {
            0nat
        } else {
            1
        }
    }
}

proof fn lemma_unsettled_update(done: Seq<bool>, u: int)
    requires
        0 <= u < done.len(),
        !done[u],
    ensures
        unsettled(done.update(u, true)) + 1 == unsettled(done),
    decreases done.len(),
{
    let t = done.update(u, true);
    if u == done.len() - 1 {
        assert(t.drop_last() =~= done.drop_last());
    } else {
        assert(t.drop_last() =~= done.drop_last().update(u, true));
        lemma_unsettled_update(done.drop_last(), u);
    }
}

proof fn lemma_unsettled_bound(done: Seq<bool>)
    ensures
        unsettled(done) <= done.len(),
    decreases done.len(),
{
    if done.len() > 0 {
        lemma_unsettled_bound(done.drop_last());
    }
}

/// Follows the edges out of `u`.
fn relax(es: &Vec<Edge>, u: usize, base: u128, ds: &mut Vec<Option<u128>>, done: &Vec<bool>, Ghost(
    root,
): Ghost<int>, Ghost(k): Ghost<int>)
    requires
        0 <= k < 0x10000000000000000,
        settling(es@, root, old(ds)@, done@, k + 1),
        u < old(ds)@.len(),
        done@[u as int],
        old(ds)@[u as int] == Some(base),
        base <= k * 0xffffffff,
        forall|b: int| 0 <= b < old(ds)@.len() && #[trigger] done@[b] ==> old(ds)@[b]->0 <= base,
        forall|i: int|
            0 <= i < es@.len() && done@[(#[trigger] es@[i]).from as int] && es@[i].from != u ==> (
            old(ds)@[es@[i].to as int] matches Some(c) && c <= old(ds)@[es@[i].from as int]->0
                + es@[i].cost),
    ensures
        settling(es@, root, final(ds)@, done@, k + 1),
        followed(es@, final(ds)@, done@),
{
    let ghost start = ds@;
    let mut i: usize = 0;
    while i < es.len()
        invariant
            i <= es@.len(),
            0 <= k < 0x10000000000000000,
            settling(es@, root, ds@, done@, k + 1),
            u < ds@.len(),
            ds@.len() == start.len(),
            done@[u as int],
            ds@[u as int] == Some(base),
            base <= k * 0xffffffff,
            forall|b: int| 0 <= b < ds@.len() && #[trigger] done@[b] ==> ds@[b] == start[b],
            forall|b: int| 0 <= b < ds@.len() && #[trigger] done@[b] ==> ds@[b]->0 <= base,
            forall|j: int|
                0 <= j < es@.len() && done@[(#[trigger] es@[j]).from as int] && (es@[j].from != u
                    || j < i) ==> (ds@[es@[j].to as int] matches Some(c) && c
                    <= ds@[es@[j].from as int]->0 + es@[j].cost),
        decreases es.len() - i,
    {
        let e = es[i];
        if e.from == u {
            let far: u128 = base + e.cost as u128;
            let better = match ds[e.to] {
                None => true,
                Some(c) => far < c,
            };
            if better && !done[e.to] {
                let ghost before = ds@;
                ds[e.to] = Some(far);
                proof {
                    let w = choose|w: Seq<int>|
                        is_walk(es@, root, w, u as int) && #[trigger] cost_of(es@, w) == base;
                    let w2 = w.push(i as int);
                    assert(w2.drop_last() =~= w);
                    assert(is_walk(es@, root, w2, e.to as int));
                    assert(cost_of(es@, w2) == far);
                    assert(far <= (k + 1) * 0xffffffff) by (nonlinear_arith)
                        requires
                            far == base + e.cost,
                            base <= k * 0xffffffff,
                    ;
                    if e.to == root {
                        assert(before[root] == Some(0u128));
                    }
                }
            }
        }
        i = i + 1;
    }
}

/// No walk is cheaper than the distances that are settled, and where nothing is settled no walk
/// leads.
proof fn lemma_settled(es: Seq<Edge>, root: int, ds: Seq<Option<u128>>, done: Seq<bool>, w: Seq<
    int,
>, v: int)
    requires
        ds.len() == done.len(),
        0 <= root < ds.len(),
        ds[root] == Some(0u128),
        graph(ds.len(), es),
        followed(es, ds, done),
        forall|b: int| 0 <= b < ds.len() && !(#[trigger] done[b]) ==> ds[b] is None,
        is_walk(es, root, w, v),
    ensures
        0 <= v < ds.len(),
        ds[v] matches Some(c) && c <= cost_of(es, w),
    decreases w.len(),
{
    if w.len() > 0 {
        let e = es[w.last()];
        lemma_settled(es, root, ds, done, w.drop_last(), e.from as int);
        assert(done[e.from as int]);
    }
}

/// The distances of all vertices from `root`.
pub fn shortest(n: usize, es: &Vec<Edge>, root: usize) -> (r: Vec<Option<u128>>)
    requires
        root < n,
        graph(n as nat, es@),
    ensures
        r@.len() == n,
        distances(es@, root as int, r@),
{
    let mut ds: Vec<Option<u128>> = Vec::new();
    let mut done: Vec<bool> = Vec::new();
    let mut i: usize = 0;
    while i < n
        invariant
            i <= n,
            ds@.len() == i,
            done@.len() == i,
            forall|k: int| 0 <= k < i ==> ds@[k] == None::<u128>,
            forall|k: int| 0 <= k < i ==> !done@[k],
        decreases n - i,
    {
        ds.push(None);
        done.push(false);
        i = i + 1;
    }
    ds[root] = Some(0);
    let ghost mut k: int = 0;
    proof {
        let w = Seq::<int>::empty();
        assert(is_walk(es@, root as int, w, root as int));
        assert(cost_of(es@, w) == 0);
        lemma_unsettled_bound(done@);
    }
    loop
        invariant
            0 <= k,
            k + unsettled(done@) <= n,
            ds@.len() == n,
            root < n,
            settling(es@, root as int, ds@, done@, k),
            followed(es@, ds@, done@),
        ensures
            ds@.len() == n,
            settling(es@, root as int, ds@, done@, k),
            followed(es@, ds@, done@),
            forall|b: int| 0 <= b < ds@.len() && !(#[trigger] done@[b]) ==> ds@[b] is None,
        decreases unsettled(done@),
    {
        match nearest(&ds, &done) {
            None => {
                break;
            },
            Some(u) => {
                let ghost before = done@;
                let base: u128 = match ds[u] {
                    Some(c) => c,
                    None => 0,
                };
                done[u] = true;
                proof {
                    lemma_unsettled_update(before, u as int);
                    assert(done@ =~= before.update(u as int, true));
                    assert(k * 0xffffffff <= (k + 1) * 0xffffffff);
                }
                relax(es, u, base, &mut ds, &done, Ghost(root as int), Ghost(k));
                proof {
                    k = k + 1;
                }
            },
        }
    }
    proof {
        assert forall|v: int| 0 <= v < ds@.len() implies is_distance(
            es@,
            root as int,
            v,
            #[trigger] ds@[v],
        ) by {
            assert forall|w: Seq<int>| is_walk(es@, root as int, w, v) implies ds@[v] is Some
                && ds@[v]->0 <= #[trigger] cost_of(es@, w) by {
                lemma_settled(es@, root as int, ds@, done@, w, v);
            }
            if ds@[v] is None {
                assert forall|w: Seq<int>| !#[trigger] is_walk(es@, root as int, w, v) by {
                    if is_walk(es@, root as int, w, v) {
                        lemma_settled(es@, root as int, ds@, done@, w, v);
                    }
                }
            }
        }
    }
    ds
}

/// Whether the walk leads to `v` at its distance.
pub open spec fn cheapest(es: Seq<Edge>, root: int, ds: Seq<Option<u128>>, w: Seq<int>, v: int) -> bool {
    is_walk(es, root, w, v) && (ds[v] matches Some(c) && c == cost_of(es, w))
}

/// Whether the label is that of a cheapest walk to `v`.
pub open spec fn leads(es: Seq<Edge>, root: int, ds: Seq<Option<u128>>, v: int, l: Label) -> bool {
    exists|w: Seq<int>| cheapest(es, root, ds, w, v) && #[trigger] label_of(es, w) == Some(l)
}

/// Whether the edge is the last of a cheapest walk whose label is `l`, where it is new: the walk
/// before it is empty or ends at a network of the root.
pub open spec fn born(
    es: Seq<Edge>,
    root: int,
    ds: Seq<Option<u128>>,
    v: int,
    l: Label,
) -> bool {
    ||| exists|i: int| #[trigger] born_at_root(es, root, ds, i, v, l)
    ||| exists|i: int, j: int| #[trigger] born_at_link(es, root, ds, i, j, v, l)
}

/// Whether the edge `i` out of the root gives the label to `v`.
pub open spec fn born_at_root(
    es: Seq<Edge>,
    root: int,
    ds: Seq<Option<u128>>,
    i: int,
    v: int,
    l: Label,
) -> bool {
    0 <= i < es.len() && es[i].from == root && es[i].to == v && tight(ds, es[i]) && es[i].first
        == Some(l)
}

/// Whether the edge `j`, behind the edge `i` from the root to a network, gives the label to `v`.
pub open spec fn born_at_link(
    es: Seq<Edge>,
    root: int,
    ds: Seq<Option<u128>>,
    i: int,
    j: int,
    v: int,
    l: Label,
) -> bool {
    &&& 0 <= i < es.len()
    &&& 0 <= j < es.len()
    &&& es[i].from == root
    &&& tight(ds, es[i])
    &&& es[j].from == es[i].to
    &&& es[j].to == v
    &&& tight(ds, es[j])
    &&& match (es[i].first, es[j].address) {
        (Some(Label::Link(x)), Some(a)) => l == Label::Via(a, x),
        _ => false,
    }
}

/// Whether the edges lead from `start` to `v` without leaving cheapest walks.
pub open spec fn chain(
    es: Seq<Edge>,
    ds: Seq<Option<u128>>,
    start: int,
    w: Seq<int>,
    v: int,
) -> bool {
    is_walk(es, start, w, v) && forall|i: int| 0 <= i < w.len() ==> tight(ds, es[#[trigger] w[i]])
}

/// Without its last edge, which is tight, a cheapest walk is one too.
proof fn lemma_prefix_cheapest(es: Seq<Edge>, root: int, ds: Seq<Option<u128>>, w: Seq<int>, v: int)
    requires
        distances(es, root, ds),
        graph(ds.len(), es),
        0 <= v < ds.len(),
        cheapest(es, root, ds, w, v),
        w.len() > 0,
    ensures
        cheapest(es, root, ds, w.drop_last(), es[w.last()].from as int),
        tight(ds, es[w.last()]),
{
    let e = es[w.last()];
    let u = e.from as int;
    let front = w.drop_last();
    assert(is_walk(es, root, front, u));
    assert(is_distance(es, root, u, ds[u]));
    assert(is_distance(es, root, v, ds[v]));
    match ds[u] {
        None => {
            assert(false);
        },
        Some(a) => {
            assert(a <= cost_of(es, front));
            let x = choose|x: Seq<int>| is_walk(es, root, x, u) && #[trigger] cost_of(es, x) == a;
            let y = x.push(w.last());
            assert(y.drop_last() =~= x);
            assert(is_walk(es, root, y, v));
            assert(cost_of(es, y) == a + e.cost);
            assert(ds[v]->0 <= cost_of(es, y));
        },
    }
}

/// A cheapest walk goes on as one by a tight edge.
proof fn lemma_extend(es: Seq<Edge>, root: int, ds: Seq<Option<u128>>, w: Seq<int>, i: int)
    requires
        0 <= i < es.len(),
        cheapest(es, root, ds, w, es[i].from as int),
        tight(ds, es[i]),
    ensures
        cheapest(es, root, ds, w.push(i), es[i].to as int),
        label_of(es, w.push(i)) == (match label_of(es, w) {
            Some(l) => l.spec_step(es[i]),
            None => None,
        }),
{
    let y = w.push(i);
    assert(y.drop_last() =~= w);
    assert(cost_of(es, y) == cost_of(es, w) + es[i].cost);
}

/// The empty walk is the cheapest to the root.
proof fn lemma_root(es: Seq<Edge>, root: int, ds: Seq<Option<u128>>)
    requires
        distances(es, root, ds),
        0 <= root < ds.len(),
    ensures
        cheapest(es, root, ds, Seq::empty(), root),
{
    let w = Seq::<int>::empty();
    assert(is_walk(es, root, w, root));
    assert(cost_of(es, w) == 0);
    assert(is_distance(es, root, root, ds[root]));
}

/// A label that is new at `u` leads there.
proof fn lemma_born_leads(es: Seq<Edge>, root: int, ds: Seq<Option<u128>>, u: int, l: Label)
    requires
        distances(es, root, ds),
        0 <= root < ds.len(),
        born(es, root, ds, u, l),
    ensures
        leads(es, root, ds, u, l),
{
    let none = Seq::<int>::empty();
    lemma_root(es, root, ds);
    if exists|i: int| #[trigger] born_at_root(es, root, ds, i, u, l) {
        let i = choose|i: int| #[trigger] born_at_root(es, root, ds, i, u, l);
        lemma_extend(es, root, ds, none, i);
        assert(label_of(es, none.push(i)) == Some(l));
    } else {
        let (i, j) = choose|i: int, j: int| #[trigger] born_at_link(es, root, ds, i, j, u, l);
        lemma_extend(es, root, ds, none, i);
        let w = none.push(i);
        lemma_extend(es, root, ds, w, j);
        assert(label_of(es, w.push(j)) == Some(l));
    }
}

/// A label of a neighbor leads wherever tight edges lead from where it leads.
proof fn lemma_chain_leads(
    es: Seq<Edge>,
    root: int,
    ds: Seq<Option<u128>>,
    u: int,
    t: Seq<int>,
    v: int,
    l: Label,
)
    requires
        leads(es, root, ds, u, l),
        l is Via,
        chain(es, ds, u, t, v),
    ensures
        leads(es, root, ds, v, l),
    decreases t.len(),
{
    if t.len() > 0 {
        let i = t.last();
        let x = es[i].from as int;
        assert(chain(es, ds, u, t.drop_last(), x)) by {
            assert forall|k: int| 0 <= k < t.drop_last().len() implies tight(
                ds,
                es[#[trigger] t.drop_last()[k]],
            ) by {
                assert(t.drop_last()[k] == t[k]);
            }
        }
        lemma_chain_leads(es, root, ds, u, t.drop_last(), x, l);
        let w = choose|w: Seq<int>|
            cheapest(es, root, ds, w, x) && #[trigger] label_of(es, w) == Some(l);
        assert(tight(ds, es[t[t.len() - 1]]));
        lemma_extend(es, root, ds, w, i);
        assert(label_of(es, w.push(i)) == Some(l));
    }
}

/// Whether tight edges lead to `v` from where the label is new.
pub open spec fn reached(es: Seq<Edge>, root: int, ds: Seq<Option<u128>>, v: int, l: Label) -> bool {
    exists|u: int, t: Seq<int>| born(es, root, ds, u, l) && #[trigger] chain(es, ds, u, t, v)
}

/// Where the label of a cheapest walk comes from.
proof fn lemma_label_source(
    es: Seq<Edge>,
    root: int,
    ds: Seq<Option<u128>>,
    w: Seq<int>,
    v: int,
    l: Label,
)
    requires
        distances(es, root, ds),
        graph(ds.len(), es),
        0 <= v < ds.len(),
        cheapest(es, root, ds, w, v),
        label_of(es, w) == Some(l),
    ensures
        match l {
            Label::Here => v == root && w.len() == 0,
            Label::Link(_) => w.len() == 1 && born_at_root(es, root, ds, w[0], v, l),
            Label::Via(_, _) => reached(es, root, ds, v, l),
        },
    decreases w.len(),
{
    if w.len() > 0 {
        let i = w.last();
        let front = w.drop_last();
        let x = es[i].from as int;
        lemma_prefix_cheapest(es, root, ds, w, v);
        let m = label_of(es, front)->0;
        lemma_label_source(es, root, ds, front, x, m);
        match m {
            Label::Here => {
                assert(born_at_root(es, root, ds, i, v, l));
                let none = Seq::<int>::empty();
                assert(chain(es, ds, v, none, v));
            },
            Label::Link(_) => {
                assert(born_at_link(es, root, ds, front[0], i, v, l));
                let none = Seq::<int>::empty();
                assert(chain(es, ds, v, none, v));
            },
            Label::Via(_, _) => {
                let (u, t) = choose|u: int, t: Seq<int>|
                    born(es, root, ds, u, l) && #[trigger] chain(es, ds, u, t, x);
                let y = t.push(i);
                assert(y.drop_last() =~= t);
                assert(is_walk(es, u, y, v));
                assert forall|k: int| 0 <= k < y.len() implies tight(ds, es[#[trigger] y[k]]) by {
                    if k < t.len() {
                        assert(y[k] == t[k]);
                    }
                }
                assert(chain(es, ds, u, y, v));
            },
        }
    }
}

/// Which labels lead where: none but the root's own at the root, those of its networks where they
/// are new, and those of neighbors wherever tight edges lead from there.
proof fn lemma_leads(es: Seq<Edge>, root: int, ds: Seq<Option<u128>>, v: int, l: Label)
    requires
        distances(es, root, ds),
        graph(ds.len(), es),
        0 <= root < ds.len(),
        0 <= v < ds.len(),
    ensures
        leads(es, root, ds, v, l) == (match l {
            Label::Here => v == root,
            Label::Link(_) => born(es, root, ds, v, l),
            Label::Via(_, _) => reached(es, root, ds, v, l),
        }),
{
    if leads(es, root, ds, v, l) {
        let w = choose|w: Seq<int>|
            cheapest(es, root, ds, w, v) && #[trigger] label_of(es, w) == Some(l);
        lemma_label_source(es, root, ds, w, v, l);
    }
    match l {
        Label::Here => {
            if v == root {
                lemma_root(es, root, ds);
                assert(label_of(es, Seq::<int>::empty()) == Some(Label::Here));
            }
        },
        Label::Link(_) => {
            if born(es, root, ds, v, l) {
                lemma_born_leads(es, root, ds, v, l);
            }
        },
        Label::Via(_, _) => {
            if reached(es, root, ds, v, l) {
                let (u, t) = choose|u: int, t: Seq<int>|
                    born(es, root, ds, u, l) && #[trigger] chain(es, ds, u, t, v);
                lemma_born_leads(es, root, ds, u, l);
                lemma_chain_leads(es, root, ds, u, t, v, l);
            }
        },
    }
}

/// Whether the edge leads on at the distance of its end.
fn is_tight(ds: &Vec<Option<u128>>, e: &Edge) -> (r: bool)
    requires
        e.from < ds@.len(),
        e.to < ds@.len(),
    ensures
        r == tight(ds@, *e),
{
    match (ds[e.from], ds[e.to]) {
        (Some(a), Some(b)) => a <= b && b - a == e.cost as u128,
        _ => false,
    }
}

/// Whether the list holds the labels that are new, each with the vertex.
spec fn all_births(
    es: Seq<Edge>,
    root: int,
    ds: Seq<Option<u128>>,
    bs: Seq<(usize, Label)>,
) -> bool {
    &&& forall|k: int|
        0 <= k < bs.len() ==> (#[trigger] bs[k]).0 < ds.len() && born(
            es,
            root,
            ds,
            bs[k].0 as int,
            bs[k].1,
        )
    &&& forall|v: int, l: Label|
        #[trigger] born(es, root, ds, v, l) ==> exists|k: int|
            0 <= k < bs.len() && (#[trigger] bs[k]).0 == v && bs[k].1 == l
}

/// The labels that are new behind an edge to a network.
fn births_behind(
    es: &Vec<Edge>,
    root: usize,
    ds: &Vec<Option<u128>>,
    i: usize,
    x: u32,
    bs: &mut Vec<(usize, Label)>,
)
    requires
        graph(ds@.len(), es@),
        i < es@.len(),
        es@[i as int].from == root,
        tight(ds@, es@[i as int]),
        es@[i as int].first == Some(Label::Link(x)),
        forall|k: int|
            0 <= k < old(bs)@.len() ==> (#[trigger] old(bs)@[k]).0 < ds@.len() && born(
                es@,
                root as int,
                ds@,
                old(bs)@[k].0 as int,
                old(bs)@[k].1,
            ),
    ensures
        forall|k: int|
            0 <= k < final(bs)@.len() ==> (#[trigger] final(bs)@[k]).0 < ds@.len() && born(
                es@,
                root as int,
                ds@,
                final(bs)@[k].0 as int,
                final(bs)@[k].1,
            ),
        forall|k: int|
            0 <= k < old(bs)@.len() ==> k < final(bs)@.len() && final(bs)@[k] == #[trigger] old(
                bs,
            )@[k],
        forall|j: int, v: int, l: Label|
            #[trigger] born_at_link(es@, root as int, ds@, i as int, j, v, l) ==> exists|k: int|
                0 <= k < final(bs)@.len() && (#[trigger] final(bs)@[k]).0 == v && final(bs)@[k].1
                    == l,
{
    let net: usize = es[i].to;
    let ghost start = bs@;
    let mut j: usize = 0;
    while j < es.len()
        invariant
            j <= es@.len(),
            graph(ds@.len(), es@),
            i < es@.len(),
            es@[i as int].from == root,
            tight(ds@, es@[i as int]),
            es@[i as int].first == Some(Label::Link(x)),
            net == es@[i as int].to,
            start.len() <= bs@.len(),
            forall|k: int| 0 <= k < start.len() ==> bs@[k] == #[trigger] start[k],
            forall|k: int|
                0 <= k < bs@.len() ==> (#[trigger] bs@[k]).0 < ds@.len() && born(
                    es@,
                    root as int,
                    ds@,
                    bs@[k].0 as int,
                    bs@[k].1,
                ),
            forall|m: int, v: int, l: Label|
                m < j && #[trigger] born_at_link(es@, root as int, ds@, i as int, m, v, l)
                    ==> exists|k: int|
                    0 <= k < bs@.len() && (#[trigger] bs@[k]).0 == v && bs@[k].1 == l,
        decreases es.len() - j,
    {
        let e = es[j];
        let ghost before = bs@;
        if e.from == net && is_tight(ds, &e) {
            if let Some(a) = e.address {
                let l = Label::Via(a, x);
                bs.push((e.to, l));
                proof {
                    assert(born_at_link(
                        es@,
                        root as int,
                        ds@,
                        i as int,
                        j as int,
                        e.to as int,
                        l,
                    ));
                    assert(bs@[before.len() as int] == (e.to, l));
                    assert forall|m: int, v: int, q: Label|
                        m < j + 1 && #[trigger] born_at_link(
                            es@,
                            root as int,
                            ds@,
                            i as int,
                            m,
                            v,
                            q,
                        ) implies exists|k: int|
                        0 <= k < bs@.len() && (#[trigger] bs@[k]).0 == v && bs@[k].1 == q by {
                        if m < j {
                            let k = choose|k: int|
                                0 <= k < before.len() && (#[trigger] before[k]).0 == v
                                    && before[k].1 == q;
                            assert(bs@[k] == before[k]);
                        }
                    }
                }
            }
        }
        j = j + 1;
    }
}

/// The labels that are new, each with the vertex.
fn births(es: &Vec<Edge>, root: usize, ds: &Vec<Option<u128>>) -> (r: Vec<(usize, Label)>)
    requires
        graph(ds@.len(), es@),
    ensures
        all_births(es@, root as int, ds@, r@),
{
    let mut bs: Vec<(usize, Label)> = Vec::new();
    let mut i: usize = 0;
    while i < es.len()
        invariant
            i <= es@.len(),
            graph(ds@.len(), es@),
            forall|k: int|
                0 <= k < bs@.len() ==> (#[trigger] bs@[k]).0 < ds@.len() && born(
                    es@,
                    root as int,
                    ds@,
                    bs@[k].0 as int,
                    bs@[k].1,
                ),
            forall|m: int, v: int, l: Label|
                m < i && #[trigger] born_at_root(es@, root as int, ds@, m, v, l) ==> exists|k: int|
                    0 <= k < bs@.len() && (#[trigger] bs@[k]).0 == v && bs@[k].1 == l,
            forall|m: int, j: int, v: int, l: Label|
                m < i && #[trigger] born_at_link(es@, root as int, ds@, m, j, v, l)
                    ==> exists|k: int|
                    0 <= k < bs@.len() && (#[trigger] bs@[k]).0 == v && bs@[k].1 == l,
        decreases es.len() - i,
    {
        let e = es[i];
        if e.from == root && is_tight(ds, &e) {
            if let Some(l) = e.first {
                let ghost before = bs@;
                bs.push((e.to, l));
                proof {
                    assert(born_at_root(es@, root as int, ds@, i as int, e.to as int, l));
                    assert(bs@[before.len() as int] == (e.to, l));
                }
                let ghost mid = bs@;
                if let Label::Link(x) = l {
                    births_behind(es, root, ds, i, x, &mut bs);
                }
                proof {
                    assert(bs@[before.len() as int] == mid[before.len() as int]);
                    assert forall|m: int, v: int, q: Label|
                        m < i + 1 && #[trigger] born_at_root(
                            es@,
                            root as int,
                            ds@,
                            m,
                            v,
                            q,
                        ) implies exists|k: int|
                        0 <= k < bs@.len() && (#[trigger] bs@[k]).0 == v && bs@[k].1 == q by {
                        if m < i {
                            let k = choose|k: int|
                                0 <= k < before.len() && (#[trigger] before[k]).0 == v
                                    && before[k].1 == q;
                            assert(mid[k] == before[k]);
                            assert(bs@[k] == mid[k]);
                        }
                    }
                    assert forall|m: int, j: int, v: int, q: Label|
                        m < i + 1 && #[trigger] born_at_link(
                            es@,
                            root as int,
                            ds@,
                            m,
                            j,
                            v,
                            q,
                        ) implies exists|k: int|
                        0 <= k < bs@.len() && (#[trigger] bs@[k]).0 == v && bs@[k].1 == q by {
                        if m < i {
                            let k = choose|k: int|
                                0 <= k < before.len() && (#[trigger] before[k]).0 == v
                                    && before[k].1 == q;
                            assert(mid[k] == before[k]);
                            assert(bs@[k] == mid[k]);
                        }
                    }
                }
            }
        }
        i = i + 1;
    }
    bs
}

/// Marks the vertices to which a label leads that is new at the marked ones.
fn spread(es: &Vec<Edge>, ds: &Vec<Option<u128>>, start: Vec<bool>) -> (r: Vec<bool>)
    requires
        graph(ds@.len(), es@),
        start@.len() == ds@.len(),
    ensures
        r@.len() == ds@.len(),
        forall|v: int|
            0 <= v < r@.len() ==> (#[trigger] r@[v] <==> exists|u: int, t: Seq<int>|
                0 <= u < start@.len() && start@[u] && #[trigger] chain(es@, ds@, u, t, v)),
{
    let mut marks = start;
    let ghost none = Seq::<int>::empty();
    proof {
        assert forall|v: int| 0 <= v < marks@.len() && marks@[v] implies exists|
            u: int,
            t: Seq<int>,
        |
            0 <= u < start@.len() && start@[u] && #[trigger] chain(es@, ds@, u, t, v) by {
            assert(chain(es@, ds@, v, none, v));
        }
    }
    let mut moved = true;
    while moved
        invariant
            graph(ds@.len(), es@),
            marks@.len() == ds@.len(),
            start@.len() == ds@.len(),
            forall|v: int| 0 <= v < start@.len() && start@[v] ==> #[trigger] marks@[v],
            forall|v: int|
                0 <= v < marks@.len() && #[trigger] marks@[v] ==> exists|u: int, t: Seq<int>|
                    0 <= u < start@.len() && start@[u] && #[trigger] chain(es@, ds@, u, t, v),
            !moved ==> forall|i: int|
                0 <= i < es@.len() && tight(ds@, #[trigger] es@[i]) && marks@[es@[i].from as int]
                    ==> marks@[es@[i].to as int],
        decreases unsettled(marks@), (if moved {
            1int
        } else {
            0
        }),
    {
        moved = false;
        let ghost first = marks@;
        let mut i: usize = 0;
        while i < es.len()
            invariant
                i <= es@.len(),
                graph(ds@.len(), es@),
                marks@.len() == ds@.len(),
                start@.len() == ds@.len(),
                forall|v: int| 0 <= v < start@.len() && start@[v] ==> #[trigger] marks@[v],
                forall|v: int|
                    0 <= v < marks@.len() && #[trigger] marks@[v] ==> exists|u: int, t: Seq<int>|
                        0 <= u < start@.len() && start@[u] && #[trigger] chain(es@, ds@, u, t, v),
                moved ==> unsettled(marks@) < unsettled(first),
                !moved ==> marks@ == first,
                !moved ==> forall|j: int|
                    0 <= j < i && tight(ds@, #[trigger] es@[j]) && marks@[es@[j].from as int]
                        ==> marks@[es@[j].to as int],
            decreases es.len() - i,
        {
            let e = es[i];
            if marks[e.from] && !marks[e.to] && is_tight(ds, &e) {
                let ghost before = marks@;
                marks[e.to] = true;
                moved = true;
                proof {
                    assert(marks@ =~= before.update(e.to as int, true));
                    lemma_unsettled_update(before, e.to as int);
                    let (u, t) = choose|u: int, t: Seq<int>|
                        0 <= u < start@.len() && start@[u] && #[trigger] chain(
                            es@,
                            ds@,
                            u,
                            t,
                            e.from as int,
                        );
                    let y = t.push(i as int);
                    assert(y.drop_last() =~= t);
                    assert(is_walk(es@, u, y, e.to as int));
                    assert forall|k: int| 0 <= k < y.len() implies tight(
                        ds@,
                        es@[#[trigger] y[k]],
                    ) by {
                        if k < t.len() {
                            assert(y[k] == t[k]);
                        }
                    }
                    assert(chain(es@, ds@, u, y, e.to as int));
                }
            }
            i = i + 1;
        }
    }
    proof {
        assert forall|v: int, u: int, t: Seq<int>|
            0 <= u < start@.len() && start@[u] && #[trigger] chain(es@, ds@, u, t, v) implies 0 <= v
            < marks@.len() && marks@[v] by {
            lemma_closed(es@, ds@, marks@, u, t, v);
        }
    }
    marks
}

/// Marks that no tight edge leaves hold wherever tight edges lead.
proof fn lemma_closed(
    es: Seq<Edge>,
    ds: Seq<Option<u128>>,
    marks: Seq<bool>,
    u: int,
    t: Seq<int>,
    v: int,
)
    requires
        graph(ds.len(), es),
        marks.len() == ds.len(),
        0 <= u < marks.len(),
        marks[u],
        forall|i: int|
            0 <= i < es.len() && tight(ds, #[trigger] es[i]) && marks[es[i].from as int]
                ==> marks[es[i].to as int],
        chain(es, ds, u, t, v),
    ensures
        0 <= v < marks.len(),
        marks[v],
    decreases t.len(),
{
    if t.len() > 0 {
        let i = t.last();
        assert(tight(ds, es[t[t.len() - 1]]));
        assert(chain(es, ds, u, t.drop_last(), es[i].from as int)) by {
            assert forall|k: int| 0 <= k < t.drop_last().len() implies tight(
                ds,
                es[#[trigger] t.drop_last()[k]],
            ) by {
                assert(t.drop_last()[k] == t[k]);
            }
        }
        lemma_closed(es, ds, marks, u, t.drop_last(), es[i].from as int);
    }
}

/// The vertices to which a label leads that is not the root's own.
fn led_by(
    es: &Vec<Edge>,
    root: usize,
    ds: &Vec<Option<u128>>,
    bs: &Vec<(usize, Label)>,
    l: Label,
) -> (r: Vec<bool>)
    requires
        root < ds@.len(),
        graph(ds@.len(), es@),
        distances(es@, root as int, ds@),
        all_births(es@, root as int, ds@, bs@),
        l != Label::Here,
    ensures
        r@.len() == ds@.len(),
        forall|v: int|
            0 <= v < r@.len() ==> #[trigger] r@[v] == leads(es@, root as int, ds@, v, l),
{
    let mut start: Vec<bool> = Vec::new();
    let mut v: usize = 0;
    while v < ds.len()
        invariant
            v <= ds@.len(),
            start@.len() == v,
            forall|k: int| 0 <= k < v ==> !start@[k],
        decreases ds.len() - v,
    {
        start.push(false);
        v = v + 1;
    }
    let mut k: usize = 0;
    while k < bs.len()
        invariant
            k <= bs@.len(),
            start@.len() == ds@.len(),
            forall|m: int| 0 <= m < bs@.len() ==> (#[trigger] bs@[m]).0 < ds@.len(),
            forall|u: int|
                0 <= u < start@.len() ==> (#[trigger] start@[u] <==> exists|m: int|
                    0 <= m < k && (#[trigger] bs@[m]).0 == u && bs@[m].1 == l),
        decreases bs.len() - k,
    {
        let ghost before = start@;
        if bs[k].1 == l {
            let at: usize = bs[k].0;
            start[at] = true;
        }
        proof {
            assert forall|u: int| 0 <= u < start@.len() implies (#[trigger] start@[u]
                <==> exists|m: int| 0 <= m < k + 1 && (#[trigger] bs@[m]).0 == u && bs@[m].1 == l) by {
                if start@[u] {
                    if before[u] {
                        let m = choose|m: int|
                            0 <= m < k && (#[trigger] bs@[m]).0 == u && bs@[m].1 == l;
                        assert(bs@[m].0 == u);
                    } else {
                        assert(bs@[k as int].0 == u);
                    }
                } else if exists|m: int|
                    0 <= m < k + 1 && (#[trigger] bs@[m]).0 == u && bs@[m].1 == l {
                    let m = choose|m: int|
                        0 <= m < k + 1 && (#[trigger] bs@[m]).0 == u && bs@[m].1 == l;
                    if m < k {
                        assert(before[u]);
                    }
                }
            }
        }
        k = k + 1;
    }
    assert forall|u: int| 0 <= u < start@.len() implies #[trigger] start@[u] == born(
        es@,
        root as int,
        ds@,
        u,
        l,
    ) by {
        if start@[u] {
            let m = choose|m: int| 0 <= m < k && (#[trigger] bs@[m]).0 == u && bs@[m].1 == l;
            assert(born(es@, root as int, ds@, bs@[m].0 as int, bs@[m].1));
        }
        if born(es@, root as int, ds@, u, l) {
            let m = choose|m: int|
                0 <= m < bs@.len() && (#[trigger] bs@[m]).0 == u && bs@[m].1 == l;
            assert(bs@[m].0 == u);
        }
    }
    let ghost new_at = start@;
    let marks = match l {
        Label::Via(_, _) => spread(es, ds, start),
        _ => start,
    };
    proof {
        assert forall|v: int| 0 <= v < marks@.len() implies #[trigger] marks@[v] == leads(
            es@,
            root as int,
            ds@,
            v,
            l,
        ) by {
            lemma_leads(es@, root as int, ds@, v, l);
            if l is Via {
                if marks@[v] {
                    let (u, t) = choose|u: int, t: Seq<int>|
                        0 <= u < new_at.len() && new_at[u] && #[trigger] chain(es@, ds@, u, t, v);
                    assert(born(es@, root as int, ds@, u, l));
                    assert(chain(es@, ds@, u, t, v));
                }
                if reached(es@, root as int, ds@, v, l) {
                    let (u, t) = choose|u: int, t: Seq<int>|
                        born(es@, root as int, ds@, u, l) && #[trigger] chain(es@, ds@, u, t, v);
                    let m = choose|m: int|
                        0 <= m < bs@.len() && (#[trigger] bs@[m]).0 == u && bs@[m].1 == l;
                    assert(bs@[m].0 < ds@.len());
                    assert(new_at[u]);
                    assert(chain(es@, ds@, u, t, v));
                }
            }
        }
    }
    marks
}

/// Whether one of the first `n` labels is `l`.
spec fn listed(bs: Seq<(usize, Label)>, n: int, l: Label) -> bool {
    exists|k: int| 0 <= k < n && (#[trigger] bs[k]).1 == l
}

fn is_listed(bs: &Vec<(usize, Label)>, n: usize, l: Label) -> (r: bool)
    requires
        n <= bs@.len(),
    ensures
        r == listed(bs@, n as int, l),
{
    let mut i: usize = 0;
    while i < n
        invariant
            i <= n <= bs@.len(),
            forall|k: int| 0 <= k < i ==> (#[trigger] bs@[k]).1 != l,
        decreases n - i,
    {
        if bs[i].1 == l {
            return true;
        }
        i = i + 1;
    }
    false
}

fn push_marked(out: &mut Vec<Vec<Label>>, marks: &Vec<bool>, l: Label)
    requires
        old(out)@.len() == marks@.len(),
    ensures
        final(out)@.len() == old(out)@.len(),
        forall|v: int|
            0 <= v < marks@.len() ==> (#[trigger] final(out)@[v])@ == (if marks@[v] {
                old(out)@[v]@.push(l)
            } else {
                old(out)@[v]@
            }),
{
    let ghost start = out@;
    let mut v: usize = 0;
    while v < marks.len()
        invariant
            v <= marks@.len(),
            out@.len() == marks@.len(),
            start.len() == marks@.len(),
            forall|k: int|
                0 <= k < v ==> (#[trigger] out@[k])@ == (if marks@[k] {
                    start[k]@.push(l)
                } else {
                    start[k]@
                }),
            forall|k: int| v <= k < marks@.len() ==> #[trigger] out@[k] == start[k],
        decreases marks.len() - v,
    {
        if marks[v] {
            out[v].push(l);
        }
        v = v + 1;
    }
}

/// The labels of the cheapest walks to each vertex, each once.
pub fn labels(n: usize, es: &Vec<Edge>, root: usize, ds: &Vec<Option<u128>>) -> (r: Vec<Vec<Label>>)
    requires
        root < n,
        ds@.len() == n,
        graph(n as nat, es@),
        distances(es@, root as int, ds@),
    ensures
        r@.len() == n,
        forall|v: int, l: Label|
            0 <= v < n ==> (#[trigger] r@[v]@.contains(l) <==> leads(es@, root as int, ds@, v, l)),
        forall|v: int| 0 <= v < n ==> (#[trigger] r@[v])@.no_duplicates(),
{
    let mut out: Vec<Vec<Label>> = Vec::new();
    let mut i: usize = 0;
    while i < n
        invariant
            i <= n,
            out@.len() == i,
            forall|v: int|
                0 <= v < i ==> (#[trigger] out@[v])@ == (if v == root {
                    seq![Label::Here]
                } else {
                    Seq::<Label>::empty()
                }),
        decreases n - i,
    {
        let mut own: Vec<Label> = Vec::new();
        if i == root {
            own.push(Label::Here);
        }
        assert(own@ =~= (if i == root {
            seq![Label::Here]
        } else {
            Seq::<Label>::empty()
        }));
        out.push(own);
        i = i + 1;
    }
    let bs = births(es, root, ds);
    proof {
        assert forall|v: int, l: Label| 0 <= v < n implies (#[trigger] out@[v]@.contains(l) <==> (l
            == Label::Here && v == root)) by {
            if v == root {
                assert(out@[v]@[0] == Label::Here);
            }
        }
    }
    let mut k: usize = 0;
    while k < bs.len()
        invariant
            k <= bs@.len(),
            root < n,
            ds@.len() == n,
            out@.len() == n,
            graph(n as nat, es@),
            distances(es@, root as int, ds@),
            all_births(es@, root as int, ds@, bs@),
            forall|v: int, l: Label|
                0 <= v < n ==> (#[trigger] out@[v]@.contains(l) <==> (l == Label::Here && v == root)
                    || (listed(bs@, k as int, l) && l != Label::Here && leads(
                    es@,
                    root as int,
                    ds@,
                    v,
                    l,
                ))),
            forall|v: int| 0 <= v < n ==> (#[trigger] out@[v])@.no_duplicates(),
        decreases bs.len() - k,
    {
        let l = bs[k].1;
        let ghost before = out@;
        let known = is_listed(&bs, k, l);
        if !known && l != Label::Here {
            let marks = led_by(es, root, ds, &bs, l);
            push_marked(&mut out, &marks, l);
            proof {
                assert forall|v: int| 0 <= v < n implies (#[trigger] out@[v])@.no_duplicates() by {
                    let a = before[v]@;
                    assert(!a.contains(l));
                    assert forall|x: int, y: int| 0 <= x < a.push(l).len() && 0 <= y < a.push(l).len()
                        && x != y implies a.push(l)[x] != a.push(l)[y] by {
                        if x < a.len() {
                            assert(a.contains(a[x]));
                        }
                        if y < a.len() {
                            assert(a.contains(a[y]));
                        }
                    }
                }
            }
        }
        proof {
            assert forall|v: int, m: Label| 0 <= v < n implies (#[trigger] out@[v]@.contains(m)
                <==> (m == Label::Here && v == root) || (listed(bs@, k + 1, m) && m != Label::Here
                && leads(es@, root as int, ds@, v, m))) by {
                let a = before[v]@;
                assert(a.contains(m) <==> (m == Label::Here && v == root) || (listed(
                    bs@,
                    k as int,
                    m,
                ) && m != Label::Here && leads(es@, root as int, ds@, v, m)));
                assert(listed(bs@, k + 1, m) <==> listed(bs@, k as int, m) || m == l) by {
                    if listed(bs@, k as int, m) {
                        let x = choose|x: int| 0 <= x < k && (#[trigger] bs@[x]).1 == m;
                        assert(bs@[x].1 == m);
                    }
                    assert(bs@[k as int].1 == l);
                }
                if out@[v]@ != a {
                    assert(out@[v]@ == a.push(l));
                    assert(a.push(l)[a.len() as int] == l);
                    if a.contains(m) {
                        let x = choose|x: int| 0 <= x < a.len() && a[x] == m;
                        assert(a.push(l)[x] == m);
                    }
                    if a.push(l).contains(m) {
                        let x = choose|x: int| 0 <= x < a.push(l).len() && a.push(l)[x] == m;
                        if x < a.len() {
                            assert(a[x] == m);
                        }
                    }
                }
            }
        }
        k = k + 1;
    }
    proof {
        assert forall|v: int, l: Label| 0 <= v < n implies (#[trigger] out@[v]@.contains(l)
            <==> leads(es@, root as int, ds@, v, l)) by {
            lemma_leads(es@, root as int, ds@, v, l);
            if l != Label::Here && leads(es@, root as int, ds@, v, l) {
                lemma_some_birth(es@, root as int, ds@, bs@, v, l);
            }
        }
    }
    out
}

/// A label that leads anywhere is new somewhere.
proof fn lemma_some_birth(
    es: Seq<Edge>,
    root: int,
    ds: Seq<Option<u128>>,
    bs: Seq<(usize, Label)>,
    v: int,
    l: Label,
)
    requires
        all_births(es, root, ds, bs),
        l != Label::Here,
        match l {
            Label::Here => false,
            Label::Link(_) => born(es, root, ds, v, l),
            Label::Via(_, _) => reached(es, root, ds, v, l),
        },
    ensures
        listed(bs, bs.len() as int, l),
{
    let u = if l is Via {
        let (u, t) = choose|u: int, t: Seq<int>|
            born(es, root, ds, u, l) && #[trigger] chain(es, ds, u, t, v);
        u
    } else {
        v
    };
    assert(born(es, root, ds, u, l));
    let k = choose|k: int| 0 <= k < bs.len() && (#[trigger] bs[k]).0 == u && bs[k].1 == l;
    assert(bs[k].1 == l);
}

} // verus!
