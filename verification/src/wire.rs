//! Big-endian field codecs and the sequence views shared by every module.
use vstd::prelude::*;

verus! {

/// The views of the elements of `s`, in order.
pub open spec fn views<T: View>(s: Seq<T>) -> Seq<T::V> {
    Seq::new(s.len(), |i: int| s[i]@)
}

/// Views of a sequence that grew by one element.
pub broadcast proof fn lemma_views_push<T: View>(s: Seq<T>, x: T)
    ensures
        #[trigger] views(s.push(x)) == views(s).push(x@),
{
    assert(views(s.push(x)) =~= views(s).push(x@));
}

/// Views of a sequence with one element replaced.
pub broadcast proof fn lemma_views_update<T: View>(s: Seq<T>, i: int, x: T)
    requires
        0 <= i < s.len(),
    ensures
        #[trigger] views(s.update(i, x)) == views(s).update(i, x@),
{
    assert(views(s.update(i, x)) =~= views(s).update(i, x@));
}

/// The two octets of `x`, most significant first.
pub open spec fn be16(x: u16) -> Seq<u8> {
    seq![(x / 256) as u8, (x % 256) as u8]
}

/// The low 24 bits of `x` as three octets, most significant first.
pub open spec fn be24(x: u32) -> Seq<u8> {
    seq![(x / 65536 % 256) as u8, (x / 256 % 256) as u8, (x % 256) as u8]
}

/// The four octets of `x`, most significant first.
pub open spec fn be32(x: u32) -> Seq<u8> {
    seq![
        (x / 16777216) as u8,
        (x / 65536 % 256) as u8,
        (x / 256 % 256) as u8,
        (x % 256) as u8,
    ]
}

/// The most significant (`k == 0`) to least significant (`k == 3`) 32-bit word of `x`.
pub open spec fn word128(x: u128, k: int) -> u32 {
    let q1 = x / 0x100000000;
    let q2 = q1 / 0x100000000;
    let q3 = q2 / 0x100000000;
    if k == 0 {
        q3 as u32
    } else if k == 1 {
        (q2 % 0x100000000) as u32
    } else if k == 2 {
        (q1 % 0x100000000) as u32
    } else {
        (x % 0x100000000) as u32
    }
}

/// The sixteen octets of `x`, most significant first.
pub open spec fn be128(x: u128) -> Seq<u8> {
    be32(word128(x, 0)) + be32(word128(x, 1)) + be32(word128(x, 2)) + be32(word128(x, 3))
}

/// The 16-bit value whose octets stand at `i` and `i + 1`.
pub open spec fn u16_at(s: Seq<u8>, i: int) -> u16 {
    (s[i] * 256 + s[i + 1]) as u16
}

/// The 24-bit value whose octets start at `i`.
pub open spec fn u24_at(s: Seq<u8>, i: int) -> u32 {
    (s[i] * 65536 + s[i + 1] * 256 + s[i + 2]) as u32
}

/// The 32-bit value whose octets start at `i`.
pub open spec fn u32_at(s: Seq<u8>, i: int) -> u32 {
    (s[i] * 16777216 + s[i + 1] * 65536 + s[i + 2] * 256 + s[i + 3]) as u32
}

/// The 128-bit value whose octets start at `i`.
pub open spec fn u128_at(s: Seq<u8>, i: int) -> u128 {
    (((u32_at(s, i) * 0x100000000 + u32_at(s, i + 4)) * 0x100000000 + u32_at(s, i + 8))
        * 0x100000000 + u32_at(s, i + 12)) as u128
}

/// The two's complement pattern of a signed 32-bit value.
pub open spec fn i32_bits(x: i32) -> u32 {
    if x >= 0 {
        x as u32
    } else {
        (x + 0x100000000) as u32
    }
}

/// The signed value of a two's complement pattern.
pub open spec fn bits_i32(x: u32) -> i32 {
    if x < 0x80000000 {
        x as i32
    } else {
        (x - 0x100000000) as i32
    }
}

/// A signed value survives the trip through its bit pattern.
pub proof fn lemma_i32_bits_roundtrip(x: i32)
    ensures
        bits_i32(i32_bits(x)) == x,
{
}

/// A 16-bit value is read back from its octets.
pub proof fn lemma_be16_roundtrip(x: u16)
    ensures
        u16_at(be16(x), 0) == x,
{
}

/// A 32-bit value is read back from its octets.
pub proof fn lemma_be32_roundtrip(x: u32)
    ensures
        u32_at(be32(x), 0) == x,
{
}

/// The words of a 128-bit value determine it.
proof fn lemma_words128(x: u128)
    ensures
        x == ((word128(x, 0) * 0x100000000 + word128(x, 1)) * 0x100000000 + word128(x, 2))
            * 0x100000000 + word128(x, 3),
{
    let q1 = x / 0x100000000;
    let q2 = q1 / 0x100000000;
    let q3 = q2 / 0x100000000;
    assert(q1 < 0x1000000000000000000000000);
    assert(q2 < 0x10000000000000000);
    assert(q3 < 0x100000000);
}

/// A 128-bit value is read back from its octets.
pub proof fn lemma_be128_roundtrip(x: u128)
    ensures
        u128_at(be128(x), 0) == x,
{
    let s = be128(x);
    let s0 = be32(word128(x, 0));
    let s1 = be32(word128(x, 1));
    let s2 = be32(word128(x, 2));
    let s3 = be32(word128(x, 3));
    assert(s.subrange(0, 4) =~= s0);
    assert(s.subrange(4, 8) =~= s1);
    assert(s.subrange(8, 12) =~= s2);
    assert(s.subrange(12, 16) =~= s3);
    lemma_be32_inside(s, 0, word128(x, 0));
    lemma_be32_inside(s, 4, word128(x, 1));
    lemma_be32_inside(s, 8, word128(x, 2));
    lemma_be32_inside(s, 12, word128(x, 3));
    lemma_words128(x);
}

/// A 16-bit value is read back from inside a longer sequence.
pub proof fn lemma_be16_inside(s: Seq<u8>, i: int, x: u16)
    requires
        0 <= i,
        i + 2 <= s.len(),
        s.subrange(i, i + 2) == be16(x),
    ensures
        u16_at(s, i) == x,
{
    assert(s[i] == s.subrange(i, i + 2)[0]);
    assert(s[i + 1] == s.subrange(i, i + 2)[1]);
    lemma_be16_roundtrip(x);
}

/// A 24-bit value is read back from inside a longer sequence.
pub proof fn lemma_be24_inside(s: Seq<u8>, i: int, x: u32)
    requires
        0 <= i,
        i + 3 <= s.len(),
        s.subrange(i, i + 3) == be24(x),
        x < 0x1000000,
    ensures
        u24_at(s, i) == x,
{
    assert(s[i] == s.subrange(i, i + 3)[0]);
    assert(s[i + 1] == s.subrange(i, i + 3)[1]);
    assert(s[i + 2] == s.subrange(i, i + 3)[2]);
}

/// A 32-bit value is read back from inside a longer sequence.
pub proof fn lemma_be32_inside(s: Seq<u8>, i: int, x: u32)
    requires
        0 <= i,
        i + 4 <= s.len(),
        s.subrange(i, i + 4) == be32(x),
    ensures
        u32_at(s, i) == x,
{
    assert(s[i] == s.subrange(i, i + 4)[0]);
    assert(s[i + 1] == s.subrange(i, i + 4)[1]);
    assert(s[i + 2] == s.subrange(i, i + 4)[2]);
    assert(s[i + 3] == s.subrange(i, i + 4)[3]);
    lemma_be32_roundtrip(x);
}

/// Appends the octets of `x`.
pub fn put_u16(buf: &mut Vec<u8>, x: u16)
    ensures
        final(buf)@ == old(buf)@ + be16(x),
{
    buf.push((x / 256) as u8);
    buf.push((x % 256) as u8);
    assert(buf@ =~= old(buf)@ + be16(x));
}

/// Appends the low three octets of `x`.
pub fn put_u24(buf: &mut Vec<u8>, x: u32)
    ensures
        final(buf)@ == old(buf)@ + be24(x),
{
    buf.push((x / 65536 % 256) as u8);
    buf.push((x / 256 % 256) as u8);
    buf.push((x % 256) as u8);
    assert(buf@ =~= old(buf)@ + be24(x));
}

/// Appends the octets of `x`.
pub fn put_u32(buf: &mut Vec<u8>, x: u32)
    ensures
        final(buf)@ == old(buf)@ + be32(x),
{
    buf.push((x / 16777216) as u8);
    buf.push((x / 65536 % 256) as u8);
    buf.push((x / 256 % 256) as u8);
    buf.push((x % 256) as u8);
    assert(buf@ =~= old(buf)@ + be32(x));
}

/// The four octets of `x`, least significant first.
pub open spec fn le32(x: u32) -> Seq<u8> {
    seq![
        (x % 256) as u8,
        (x / 256 % 256) as u8,
        (x / 65536 % 256) as u8,
        (x / 16777216) as u8,
    ]
}

/// The 32-bit value whose octets start at `i`, least significant first.
pub open spec fn le32_at(s: Seq<u8>, i: int) -> u32 {
    (s[i] + s[i + 1] * 256 + s[i + 2] * 65536 + s[i + 3] * 16777216) as u32
}

/// Appends the octets of `x`, least significant first.
pub fn put_le32(buf: &mut Vec<u8>, x: u32)
    ensures
        final(buf)@ == old(buf)@ + le32(x),
{
    buf.push((x % 256) as u8);
    buf.push((x / 256 % 256) as u8);
    buf.push((x / 65536 % 256) as u8);
    buf.push((x / 16777216) as u8);
    assert(buf@ =~= old(buf)@ + le32(x));
}

/// Reads four octets, least significant first.
pub fn get_le32(buf: &[u8], i: usize) -> (x: u32)
    requires
        i + 4 <= buf@.len(),
    ensures
        x == le32_at(buf@, i as int),
{
    (buf[i] as u32) + (buf[i + 1] as u32) * 256 + (buf[i + 2] as u32) * 65536 + (buf[i + 3] as u32)
        * 16777216
}

/// Appends the octets of `x`.
pub fn put_u128(buf: &mut Vec<u8>, x: u128)
    ensures
        final(buf)@ == old(buf)@ + be128(x),
{
    let q1: u128 = x / 0x100000000;
    let q2: u128 = q1 / 0x100000000;
    let q3: u128 = q2 / 0x100000000;
    put_u32(buf, q3 as u32);
    put_u32(buf, (q2 % 0x100000000) as u32);
    put_u32(buf, (q1 % 0x100000000) as u32);
    put_u32(buf, (x % 0x100000000) as u32);
    assert(buf@ =~= old(buf)@ + be128(x));
}

/// Appends a copy of `tail`.
pub fn put_bytes(buf: &mut Vec<u8>, tail: &[u8])
    ensures
        final(buf)@ == old(buf)@ + tail@,
{
    let mut i: usize = 0;
    while i < tail.len()
        invariant
            i <= tail.len(),
            buf@ == old(buf)@ + tail@.subrange(0, i as int),
        decreases tail.len() - i,
    {
        buf.push(tail[i]);
        i = i + 1;
        assert(buf@ =~= old(buf)@ + tail@.subrange(0, i as int));
    }
    assert(tail@.subrange(0, i as int) =~= tail@);
}

/// Reads two octets.
pub fn get_u16(buf: &[u8], i: usize) -> (x: u16)
    requires
        i + 2 <= buf@.len(),
    ensures
        x == u16_at(buf@, i as int),
{
    (buf[i] as u16) * 256 + (buf[i + 1] as u16)
}

/// Reads three octets.
pub fn get_u24(buf: &[u8], i: usize) -> (x: u32)
    requires
        i + 3 <= buf@.len(),
    ensures
        x == u24_at(buf@, i as int),
{
    (buf[i] as u32) * 65536 + (buf[i + 1] as u32) * 256 + (buf[i + 2] as u32)
}

/// Reads four octets.
pub fn get_u32(buf: &[u8], i: usize) -> (x: u32)
    requires
        i + 4 <= buf@.len(),
    ensures
        x == u32_at(buf@, i as int),
{
    (buf[i] as u32) * 16777216 + (buf[i + 1] as u32) * 65536 + (buf[i + 2] as u32) * 256 + (buf[i
        + 3] as u32)
}

/// Reads sixteen octets.
pub fn get_u128(buf: &[u8], i: usize) -> (x: u128)
    requires
        i + 16 <= buf@.len(),
    ensures
        x == u128_at(buf@, i as int),
{
    let _total: usize = buf.len();
    let w0: u32 = get_u32(buf, i);
    let w1: u32 = get_u32(buf, i + 4);
    let w2: u32 = get_u32(buf, i + 8);
    let w3: u32 = get_u32(buf, i + 12);
    let a: u128 = (w0 as u128) * 0x100000000 + w1 as u128;
    let b: u128 = a * 0x100000000 + w2 as u128;
    b * 0x100000000 + w3 as u128
}

/// The two's complement pattern of `x`.
pub fn to_bits(x: i32) -> (r: u32)
    ensures
        r == i32_bits(x),
{
    if x >= 0 {
        x as u32
    } else {
        (x as i64 + 0x100000000) as u32
    }
}

/// The signed value of the pattern `x`.
pub fn from_bits(x: u32) -> (r: i32)
    ensures
        r == bits_i32(x),
{
    if x < 0x80000000 {
        x as i32
    } else {
        (x as i64 - 0x100000000) as i32
    }
}

/// A copy of a run of octets.
pub fn copy_range(buf: &[u8], from: usize, to: usize) -> (r: Vec<u8>)
    requires
        from <= to <= buf@.len(),
    ensures
        r@ == buf@.subrange(from as int, to as int),
{
    let mut r: Vec<u8> = Vec::new();
    let mut i: usize = from;
    while i < to
        invariant
            from <= i <= to <= buf@.len(),
            r@ == buf@.subrange(from as int, i as int),
        decreases to - i,
    {
        r.push(buf[i]);
        i = i + 1;
        assert(r@ =~= buf@.subrange(from as int, i as int));
    }
    r
}

/// A copy of the octets of `v`.
pub fn copy_bytes(v: &Vec<u8>) -> (r: Vec<u8>)
    ensures
        r@ == v@,
{
    let r = copy_range(v.as_slice(), 0, v.len());
    assert(r@ =~= v@);
    r
}

/// Whether the two texts hold the same characters.
pub fn same_text(a: &str, b: &str) -> (r: bool)
    ensures
        r == (a@ == b@),
{
    let x: String = a.to_owned();
    let y: String = b.to_owned();
    x == y
}

} // verus!
