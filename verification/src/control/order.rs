//! Listing records in the order of their texts.
use vstd::prelude::*;

use crate::text;
use crate::text::not_behind;
use crate::wire;
use crate::wire::same_text;

verus! {

broadcast use {wire::lemma_views_push, wire::lemma_views_update};

/// A record that is listed by texts, numbered from the one that counts most.
pub trait Listed: View {
    /// The text number `k`.
    spec fn text_of(v: Self::V, k: int) -> Seq<char>;

    /// How many texts there are.
    spec fn texts() -> int;

    /// The text number `k`.
    fn text(&self, k: usize) -> (t: &str)
        requires
            k < Self::texts(),
        ensures
            t@ == Self::text_of(self@, k as int),
    ;
}

/// Whether `a` may stand in front of `b` when the texts from number `from` up to `to` decide.
pub open spec fn in_order<T: Listed>(a: T::V, b: T::V, from: int, to: int) -> bool
    decreases to - from,
{
    if from >= to {
        true
    } else if T::text_of(a, from) == T::text_of(b, from) {
        in_order::<T>(a, b, from + 1, to)
    } else {
        text::text_le(T::text_of(a, from), T::text_of(b, from), 0)
    }
}

/// Where `x` goes into the list `s`: behind the last record that may stand in front of it.
pub open spec fn place_of<T: Listed>(s: Seq<T::V>, x: T::V, from: int, to: int) -> int
    decreases s.len(),
{
    if s.len() == 0 {
        0
    } else if in_order::<T>(s.last(), x, from, to) {
        s.len() as int
    } else {
        place_of::<T>(s.drop_last(), x, from, to)
    }
}

/// The records in order; those whose texts agree keep their order.
pub open spec fn listed<T: Listed>(s: Seq<T::V>, from: int, to: int) -> Seq<T::V>
    decreases s.len(),
{
    if s.len() == 0 {
        Seq::empty()
    } else {
        let front = listed::<T>(s.drop_last(), from, to);
        front.insert(place_of::<T>(front, s.last(), from, to), s.last())
    }
}

/// Whether `a` may stand in front of `b`.
fn may_precede<T: Listed>(a: &T, b: &T, from: usize, to: usize) -> (r: bool)
    requires
        to <= T::texts(),
    ensures
        r == in_order::<T>(a@, b@, from as int, to as int),
{
    let mut k: usize = from;
    while k < to
        invariant
            to <= T::texts(),
            in_order::<T>(a@, b@, from as int, to as int) == in_order::<T>(a@, b@, k as int, to as int),
        decreases to - k,
    {
        if !same_text(a.text(k), b.text(k)) {
            return not_behind(a.text(k), b.text(k));
        }
        k = k + 1;
    }
    true
}

proof fn lemma_place_bounds<T: Listed>(s: Seq<T::V>, x: T::V, from: int, to: int)
    ensures
        0 <= place_of::<T>(s, x, from, to) <= s.len(),
    decreases s.len(),
{
    if s.len() > 0 {
        lemma_place_bounds::<T>(s.drop_last(), x, from, to);
    }
}

/// The records in order; those whose texts agree keep their order.
pub fn in_listing_order<T: Listed>(items: Vec<T>, from: usize, to: usize) -> (r: Vec<T>)
    requires
        to <= T::texts(),
    ensures
        wire::views(r@) == listed::<T>(wire::views(items@), from as int, to as int),
{
    let mut rest = items;
    let ghost all = wire::views(items@);
    let mut todo: Vec<T> = Vec::new();
    while rest.len() > 0
        invariant
            to <= T::texts(),
            all == wire::views(rest@) + wire::views(todo@).reverse(),
        decreases rest.len(),
    {
        let ghost before = rest@;
        let ghost had = todo@;
        match rest.pop() {
            Some(x) => {
                assert(before =~= rest@.push(x));
                todo.push(x);
                assert(wire::views(todo@).reverse() =~= seq![x@] + wire::views(had).reverse());
                assert(wire::views(before) =~= wire::views(rest@) + seq![x@]);
                assert(all =~= wire::views(rest@) + wire::views(todo@).reverse());
            },
            None => {},
        }
    }
    let mut done: Vec<T> = Vec::new();
    assert(wire::views(done@) =~= Seq::empty());
    assert(wire::views(rest@) =~= Seq::empty());
    assert(all.take(0) =~= Seq::empty());
    assert(all =~= wire::views(todo@).reverse());
    let ghost mut n: int = 0;
    while todo.len() > 0
        invariant
            to <= T::texts(),
            0 <= n <= all.len(),
            all.len() == n + todo@.len(),
            all.skip(n) =~= wire::views(todo@).reverse(),
            wire::views(done@) == listed::<T>(all.take(n), from as int, to as int),
        decreases todo.len(),
    {
        let ghost before = todo@;
        match todo.pop() {
            Some(x) => {
                assert(before =~= todo@.push(x));
                let ghost front = wire::views(done@);
                proof {
                    assert(all.skip(n)[0] == wire::views(before).reverse()[0]);
                    assert(all[n] == x@);
                    assert(all.take(n + 1).drop_last() =~= all.take(n));
                    assert(all.take(n + 1).last() == x@);
                    assert(front.take(front.len() as int) =~= front);
                }
                let mut p: usize = done.len();
                while p > 0 && !may_precede(&done[p - 1], &x, from, to)
                    invariant
                        to <= T::texts(),
                        p <= done@.len(),
                        front == wire::views(done@),
                        place_of::<T>(front, x@, from as int, to as int) == place_of::<T>(
                            front.take(p as int),
                            x@,
                            from as int,
                            to as int,
                        ),
                    decreases p,
                {
                    assert(front.take(p as int).drop_last() =~= front.take(p - 1));
                    p = p - 1;
                }
                assert(p > 0 ==> front.take(p as int).last() == done@[p - 1]@);
                done.insert(p, x);
                assert(wire::views(done@) =~= front.insert(p as int, x@));
                proof {
                    n = n + 1;
                    assert forall|k: int| 0 <= k < all.len() - n implies all.skip(n)[k]
                        == wire::views(todo@).reverse()[k] by {
                        assert(all.skip(n - 1)[k + 1] == wire::views(before).reverse()[k + 1]);
                    }
                    assert(all.skip(n) =~= wire::views(todo@).reverse());
                }
            },
            None => {},
        }
    }
    assert(all.take(n) =~= all);
    done
}

/// The order of texts is total.
pub proof fn lemma_text_total(a: Seq<char>, b: Seq<char>, from: int)
    requires
        0 <= from,
    ensures
        text::text_le(a, b, from) || text::text_le(b, a, from),
    decreases a.len() - from,
{
    if from < a.len() && from < b.len() && a[from] == b[from] {
        lemma_text_total(a, b, from + 1);
    }
}

/// The order of texts is transitive.
pub proof fn lemma_text_transitive(a: Seq<char>, b: Seq<char>, c: Seq<char>, from: int)
    requires
        0 <= from,
        text::text_le(a, b, from),
        text::text_le(b, c, from),
    ensures
        text::text_le(a, c, from),
    decreases a.len() - from,
{
    if from < a.len() && from < b.len() && from < c.len() && a[from] == b[from] && b[from]
        == c[from] {
        lemma_text_transitive(a, b, c, from + 1);
    }
}

/// Two texts that each may stand in front of the other are the same.
pub proof fn lemma_text_antisymmetric(a: Seq<char>, b: Seq<char>, from: int)
    requires
        0 <= from,
        text::text_le(a, b, from),
        text::text_le(b, a, from),
        forall|k: int| 0 <= k < from && k < a.len() ==> #[trigger] a[k] == b[k],
        from <= a.len(),
        from <= b.len(),
    ensures
        a == b,
    decreases a.len() - from,
{
    if from < a.len() && from < b.len() {
        lemma_text_antisymmetric(a, b, from + 1);
    } else {
        assert(a.len() == b.len());
        assert(a =~= b);
    }
}

/// The order of records is total.
pub proof fn lemma_order_total<T: Listed>(a: T::V, b: T::V, from: int, to: int)
    ensures
        in_order::<T>(a, b, from, to) || in_order::<T>(b, a, from, to),
    decreases to - from,
{
    if from < to {
        if T::text_of(a, from) == T::text_of(b, from) {
            lemma_order_total::<T>(a, b, from + 1, to);
        } else {
            lemma_text_total(T::text_of(a, from), T::text_of(b, from), 0);
        }
    }
}

/// The order of records is transitive.
pub proof fn lemma_order_transitive<T: Listed>(a: T::V, b: T::V, c: T::V, from: int, to: int)
    requires
        in_order::<T>(a, b, from, to),
        in_order::<T>(b, c, from, to),
    ensures
        in_order::<T>(a, c, from, to),
    decreases to - from,
{
    if from < to {
        let x = T::text_of(a, from);
        let y = T::text_of(b, from);
        let z = T::text_of(c, from);
        if x == y && y == z {
            lemma_order_transitive::<T>(a, b, c, from + 1, to);
        } else if x != y && y != z {
            lemma_text_transitive(x, y, z, 0);
            if x == z {
                lemma_text_antisymmetric(x, y, 0);
            }
        }
    }
}

proof fn lemma_placed<T: Listed>(s: Seq<T::V>, x: T::V, from: int, to: int)
    requires
        forall|i: int, j: int| 0 <= i < j < s.len() ==> in_order::<T>(s[i], s[j], from, to),
    ensures
        ({
            let p = place_of::<T>(s, x, from, to);
            &&& 0 <= p <= s.len()
            &&& forall|i: int| 0 <= i < p ==> in_order::<T>(s[i], x, from, to)
            &&& forall|i: int| p <= i < s.len() ==> in_order::<T>(x, s[i], from, to)
        }),
    decreases s.len(),
{
    lemma_place_bounds::<T>(s, x, from, to);
    let p = place_of::<T>(s, x, from, to);
    if s.len() > 0 {
        let n = s.len() - 1;
        if in_order::<T>(s.last(), x, from, to) {
            assert forall|i: int| 0 <= i < p implies in_order::<T>(s[i], x, from, to) by {
                if i < n {
                    lemma_order_transitive::<T>(s[i], s[n], x, from, to);
                }
            }
        } else {
            lemma_place_bounds::<T>(s.drop_last(), x, from, to);
            lemma_placed::<T>(s.drop_last(), x, from, to);
            lemma_order_total::<T>(s.last(), x, from, to);
            assert forall|i: int| 0 <= i < p implies in_order::<T>(s[i], x, from, to) by {
                assert(s[i] == s.drop_last()[i]);
            }
            assert forall|i: int| p <= i < s.len() implies in_order::<T>(x, s[i], from, to) by {
                if i < n {
                    assert(s[i] == s.drop_last()[i]);
                }
            }
        }
    }
}

/// A listing holds every record once, and no record stands behind one that comes after it.
pub proof fn lemma_listed<T: Listed>(s: Seq<T::V>, from: int, to: int)
    ensures
        listed::<T>(s, from, to).to_multiset() == s.to_multiset(),
        listed::<T>(s, from, to).len() == s.len(),
        forall|i: int, j: int|
            0 <= i < j < s.len() ==> #[trigger] in_order::<T>(
                listed::<T>(s, from, to)[i],
                listed::<T>(s, from, to)[j],
                from,
                to,
            ),
    decreases s.len(),
{
    broadcast use vstd::seq_lib::group_to_multiset_ensures;

    let r = listed::<T>(s, from, to);
    if s.len() == 0 {
        assert(r =~= s);
    } else {
        let f = listed::<T>(s.drop_last(), from, to);
        let x = s.last();
        lemma_listed::<T>(s.drop_last(), from, to);
        lemma_placed::<T>(f, x, from, to);
        let p = place_of::<T>(f, x, from, to);
        assert(s =~= s.drop_last().push(x));
        vstd::seq_lib::to_multiset_insert(f, p, x);
        assert forall|i: int, j: int| 0 <= i < j < s.len() implies #[trigger] in_order::<T>(
            r[i],
            r[j],
            from,
            to,
        ) by {
            let a = if i < p {
                i
            } else {
                i - 1
            };
            let b = if j < p {
                j
            } else {
                j - 1
            };
            if i != p && j != p {
                assert(r[i] == f[a] && r[j] == f[b]);
            }
        }
    }
}

} // verus!
