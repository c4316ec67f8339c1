//! The Fletcher checksum that protects an LSA.
use vstd::arithmetic::div_mod;
use vstd::prelude::*;

verus! {

/// The two running sums of the octets of `s`, modulo 255.
pub open spec fn fletcher_sums(s: Seq<u8>) -> (int, int)
    decreases s.len(),
{
    if s.len() == 0 {
        (0, 0)
    } else {
        let before = fletcher_sums(s.drop_last());
        let c0 = (before.0 + s.last()) % 255;
        (c0, (before.1 + c0) % 255)
    }
}

/// `s` with the two checksum octets at `offset` cleared.
pub open spec fn cleared(s: Seq<u8>, offset: int) -> Seq<u8> {
    s.update(offset, 0u8).update(offset + 1, 0u8)
}

/// A residue modulo 255 as a checksum octet, which is never zero.
pub open spec fn nonzero_octet(r: int) -> u8 {
    if r == 0 {
        255
    } else {
        r as u8
    }
}

/// The checksum octets that stand at `offset` of `s`.
pub open spec fn fletcher_octets(s: Seq<u8>, offset: int) -> (u8, u8) {
    let c = fletcher_sums(cleared(s, offset));
    let x = nonzero_octet(((s.len() - offset - 1) * c.0 - c.1) % 255);
    (x, nonzero_octet((-(c.0 + x)) % 255))
}

/// The checksum octets of `data`; the octets at `offset` are taken as zero.
pub fn fletcher16(data: &[u8], offset: usize) -> (r: (u8, u8))
    requires
        offset + 2 <= data@.len(),
    ensures
        r == fletcher_octets(data@, offset as int),
{
    let n: usize = data.len();
    let mut c0: u32 = 0;
    let mut c1: u32 = 0;
    let mut i: usize = 0;
    let ghost z = cleared(data@, offset as int);
    assert(z.take(0) =~= Seq::empty());
    while i < n
        invariant
            i <= n == data@.len(),
            offset + 2 <= n,
            z == cleared(data@, offset as int),
            c0 < 255,
            c1 < 255,
            (c0 as int, c1 as int) == fletcher_sums(z.take(i as int)),
        decreases n - i,
    {
        let b: u32 = if i == offset || i == offset + 1 {
            0
        } else {
            data[i] as u32
        };
        assert(z.take(i + 1).drop_last() =~= z.take(i as int));
        assert(z.take(i + 1).last() == b);
        c0 = (c0 + b) % 255;
        c1 = (c1 + c0) % 255;
        i = i + 1;
    }
    assert(z.take(n as int) =~= z);
    let k: u32 = ((n - offset - 1) % 255) as u32;
    assert(k * c0 <= 254 * 254) by (nonlinear_arith)
        requires
            k < 255,
            c0 < 255,
    ;
    let xr: u32 = (k * c0 + 255 - c1) % 255;
    proof {
        lemma_reduced_factor(data@.len() - offset - 1, k as int, c0 as int, c1 as int);
    }
    let x: u32 = if xr == 0 {
        255
    } else {
        xr
    };
    let yr: u32 = (510 + 255 - c0 - x) % 255;
    assert((-(c0 + x)) % 255 == yr);
    let y: u32 = if yr == 0 {
        255
    } else {
        yr
    };
    (x as u8, y as u8)
}

/// Reducing the factor modulo 255 first does not change the residue of the product.
proof fn lemma_reduced_factor(m: int, k: int, c0: int, c1: int)
    requires
        m >= 0,
        k == m % 255,
    ensures
        (m * c0 - c1) % 255 == (k * c0 + 255 - c1) % 255,
{
    let q = m / 255;
    div_mod::lemma_fundamental_div_mod(m, 255);
    assert(m * c0 - c1 == 255 * (q * c0 - 1) + (k * c0 + 255 - c1)) by (nonlinear_arith)
        requires
            m == 255 * q + k,
    ;
    div_mod::lemma_mod_multiples_vanish(q * c0 - 1, k * c0 + 255 - c1, 255);
}

/// The plain sum of the octets.
spec fn sum0(s: Seq<u8>) -> int
    decreases s.len(),
{
    if s.len() == 0 {
        0
    } else {
        sum0(s.drop_last()) + s.last()
    }
}

/// The sum of the plain sums of the prefixes.
spec fn sum1(s: Seq<u8>) -> int
    decreases s.len(),
{
    if s.len() == 0 {
        0
    } else {
        sum1(s.drop_last()) + sum0(s)
    }
}

proof fn lemma_sums(s: Seq<u8>)
    ensures
        fletcher_sums(s) == (sum0(s) % 255, sum1(s) % 255),
    decreases s.len(),
{
    if s.len() > 0 {
        lemma_sums(s.drop_last());
        let a = sum0(s.drop_last());
        let b = sum1(s.drop_last());
        assert((a % 255 + s.last()) % 255 == (a + s.last()) % 255);
        assert((b % 255 + sum0(s) % 255) % 255 == (b + sum0(s)) % 255);
    }
}

/// Replacing one octet moves both sums linearly.
proof fn lemma_sum_update(s: Seq<u8>, i: int, v: u8)
    requires
        0 <= i < s.len(),
    ensures
        sum0(s.update(i, v)) == sum0(s) + v - s[i],
        sum1(s.update(i, v)) == sum1(s) + (s.len() - i) * (v - s[i]),
    decreases s.len(),
{
    let t = s.update(i, v);
    let d = v - s[i];
    let n = s.len() - i;
    if i == s.len() - 1 {
        assert(t.drop_last() =~= s.drop_last());
        assert(n * d == d) by (nonlinear_arith)
            requires
                n == 1,
        ;
        assert(sum0(t) == sum0(s) + d);
    } else {
        let front = s.drop_last();
        lemma_sum_update(front, i, v);
        assert(t.drop_last() =~= front.update(i, v));
        assert(front[i] == s[i]);
        assert((n - 1) * d + d == n * d) by (nonlinear_arith);
        assert(sum0(t) == sum0(s) + d);
        assert(sum1(t.drop_last()) == sum1(front) + (n - 1) * d);
    }
}

/// An octet that is never zero has the residue it stands for.
proof fn lemma_nonzero_octet(r: int)
    requires
        0 <= r < 255,
    ensures
        nonzero_octet(r) as int % 255 == r,
        1 <= nonzero_octet(r) <= 255,
{
}

/// Writing the checksum octets into their place makes both sums vanish, and neither octet is zero.
pub proof fn lemma_fletcher_verifies(s: Seq<u8>, offset: int)
    requires
        0 <= offset,
        offset + 2 <= s.len(),
    ensures
        ({
            let c = fletcher_octets(s, offset);
            &&& fletcher_sums(s.update(offset, c.0).update(offset + 1, c.1)) == (0int, 0int)
            &&& c.0 != 0
            &&& c.1 != 0
        }),
{
    let z = cleared(s, offset);
    let c = fletcher_sums(z);
    let m = s.len() - offset - 1;
    let xr = (m * c.0 - c.1) % 255;
    let x = nonzero_octet(xr);
    let yr = (-(c.0 + x)) % 255;
    let y = nonzero_octet(yr);
    lemma_nonzero_octet(xr);
    lemma_nonzero_octet(yr);
    lemma_sums(z);
    let t = s.update(offset, x).update(offset + 1, y);
    assert(t =~= z.update(offset, x).update(offset + 1, y));
    lemma_sum_update(z, offset, x);
    lemma_sum_update(z.update(offset, x), offset + 1, y);
    lemma_sums(t);
    let s0 = sum0(z);
    let s1 = sum1(z);
    assert(sum0(t) == s0 + x + y);
    assert(sum1(t) == s1 + (m + 1) * x + m * y) by {
        assert((z.len() - offset) * (x - 0) == (m + 1) * x);
        assert((z.len() - (offset + 1)) * (y - 0) == m * y);
    }
    // Quotients that turn the congruences into equations.
    let a = (m * c.0 - c.1) / 255;
    let b = (-(c.0 + x)) / 255;
    let p = s0 / 255;
    let q = s1 / 255;
    div_mod::lemma_fundamental_div_mod(m * c.0 - c.1, 255);
    div_mod::lemma_fundamental_div_mod(-(c.0 + x), 255);
    div_mod::lemma_fundamental_div_mod(s0, 255);
    div_mod::lemma_fundamental_div_mod(s1, 255);
    let dx: int = if xr == 0 {
        1
    } else {
        0
    };
    let dy: int = if yr == 0 {
        1
    } else {
        0
    };
    assert(x == m * c.0 - c.1 - 255 * a + 255 * dx);
    assert(y == -(c.0 + x) - 255 * b + 255 * dy);
    assert(s0 == 255 * p + c.0);
    assert(s1 == 255 * q + c.1);
    assert(sum0(t) == 255 * (p - b + dy) + 0);
    div_mod::lemma_mod_multiples_vanish(p - b + dy, 0, 255);
    assert(sum1(t) == 255 * (q - a + dx + m * (dy - b)) + 0) by (nonlinear_arith)
        requires
            sum1(t) == s1 + (m + 1) * x + m * y,
            x == m * c.0 - c.1 - 255 * a + 255 * dx,
            y == -(c.0 + x) - 255 * b + 255 * dy,
            s1 == 255 * q + c.1,
    ;
    div_mod::lemma_mod_multiples_vanish(q - a + dx + m * (dy - b), 0, 255);
}

} // verus!
