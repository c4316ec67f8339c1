//! Address prefixes.
use vstd::prelude::*;

verus! {

/// The mask of a prefix of `len` bits: `len` ones, then zeros; all ones from 32 on.
pub open spec fn mask_v4(len: int) -> u32 {
    if len <= 0 {
        0
    } else if len >= 32 {
        0xffffffff
    } else {
        (0x100000000 - vstd::arithmetic::power2::pow2((32 - len) as nat)) as u32
    }
}

/// The mask of a prefix of `len` bits.
pub fn prefix_len_to_mask(len: u8) -> (m: u32)
    requires
        len <= 32,
    ensures
        m == mask_v4(len as int),
{
    if len == 0 {
        return 0;
    }
    let s: u32 = 32 - len as u32;
    proof {
        lemma_shifted_ones(s);
    }
    0xffffffffu32 << s
}

/// Ones shifted left by `s` are the mask that leaves `s` bits free.
proof fn lemma_shifted_ones(s: u32)
    requires
        s < 32,
    ensures
        0xffffffffu32 << s == mask_v4(32 - s),
{
    vstd::bits::lemma_u32_pow2_no_overflow(s as nat);
    vstd::bits::lemma_u32_shl_is_mul(1, s);
    assert(0xffffffffu32 << s == 0xffffffff - ((1u32 << s) - 1)) by (bit_vector)
        requires
            s < 32,
    ;
    vstd::arithmetic::power2::lemma2_to64();
}

/// How many ones the mask starts with.
pub fn mask_to_prefix_len_v4(mask: u32) -> (n: u8)
    ensures
        n == vstd::std_specs::bits::u32_leading_ones(mask),
        n <= 32,
{
    proof {
        vstd::std_specs::bits::axiom_u32_leading_ones(mask);
    }
    mask.leading_ones() as u8
}

/// The network that `addr` lies in.
pub fn apply_mask(addr: u32, mask: u32) -> (r: u32)
    ensures
        r == addr & mask,
{
    addr & mask
}

/// Whether `addr` lies in the range `prefix/len`: both agree in their first `len` bits. A length
/// above 32 covers nothing.
pub open spec fn covered_v4(addr: u32, prefix: u32, len: u8) -> bool {
    len <= 32 && addr as int / vstd::arithmetic::power2::pow2((32 - len) as nat) as int
        == prefix as int / vstd::arithmetic::power2::pow2((32 - len) as nat) as int
}

/// Whether `addr` lies in the range `prefix/len`.
pub fn prefix_covered_by(addr: u32, prefix: u32, len: u8) -> (r: bool)
    ensures
        r == covered_v4(addr, prefix, len),
{
    if len == 0 {
        proof {
            vstd::arithmetic::power2::lemma2_to64();
            assert(addr as int / 0x100000000int == 0);
            assert(prefix as int / 0x100000000int == 0);
        }
        return true;
    }
    if len > 32 {
        return false;
    }
    let s: u32 = 32 - len as u32;
    proof {
        vstd::bits::lemma_u32_shr_is_div(addr, s);
        vstd::bits::lemma_u32_shr_is_div(prefix, s);
    }
    (addr >> s) == (prefix >> s)
}

/// The length of a prefix can be read back from its mask.
pub proof fn lemma_mask_roundtrip(len: u8)
    requires
        len <= 32,
    ensures
        vstd::std_specs::bits::u32_leading_ones(mask_v4(len as int)) == len,
{
    let m = mask_v4(len as int);
    let n = vstd::std_specs::bits::u32_leading_ones(m);
    vstd::std_specs::bits::axiom_u32_leading_ones(m);
    if len > 0 {
        let s = (32 - len) as u32;
        lemma_shifted_ones(s);
        if n < len {
            let k = (31 - n) as u32;
            assert(((0xffffffffu32 << s) >> k) & 1 == 1) by (bit_vector)
                requires
                    s <= k < 32,
            ;
        }
        if n > len {
            let k = (31 - len) as u32;
            assert((m >> k) & 1u32 == 1u32);
            assert(((0xffffffffu32 << s) >> k) & 1 == 0) by (bit_vector)
                requires
                    k < s < 32,
            ;
        }
    } else if n > 0 {
        assert((m >> 31u32) & 1u32 == 1u32);
        assert((0u32 >> 31u32) & 1 == 0) by (bit_vector);
    }
}

/// An address and its network fall into the same range.
pub proof fn lemma_network_covered(addr: u32, len: u8)
    requires
        len <= 32,
    ensures
        covered_v4(addr & mask_v4(len as int), addr, len),
{
    let m = mask_v4(len as int);
    if len > 0 {
        let s = (32 - len) as u32;
        lemma_shifted_ones(s);
        vstd::bits::lemma_u32_shr_is_div(addr, s);
        vstd::bits::lemma_u32_shr_is_div(addr & m, s);
        assert((addr & (0xffffffffu32 << s)) >> s == addr >> s) by (bit_vector)
            requires
                s < 32,
        ;
    } else {
        vstd::arithmetic::power2::lemma2_to64();
        assert(addr as int / 0x100000000int == 0);
        assert((addr & m) as int / 0x100000000int == 0);
    }
}

/// Whether `addr` lies in the range `prefix/len`: both agree in their first `len` bits. A length
/// above 128 covers nothing.
pub open spec fn covered_v6(addr: u128, prefix: u128, len: u8) -> bool {
    len <= 128 && addr as int / vstd::arithmetic::power2::pow2((128 - len) as nat) as int
        == prefix as int / vstd::arithmetic::power2::pow2((128 - len) as nat) as int
}

/// Whether `addr` lies in the range `prefix/len`.
pub fn prefix_covered_by_v6(addr: u128, prefix: u128, len: u8) -> (r: bool)
    ensures
        r == covered_v6(addr, prefix, len),
{
    if len > 128 {
        return false;
    }
    if len == 0 {
        proof {
            vstd::arithmetic::power2::lemma2_to64();
            vstd::arithmetic::power2::lemma_pow2_adds(64, 64);
            assert(vstd::arithmetic::power2::pow2(128) == 0x100000000000000000000000000000000int);
            assert(addr as int / 0x100000000000000000000000000000000int == 0);
            assert(prefix as int / 0x100000000000000000000000000000000int == 0);
        }
        return true;
    }
    let shift: u32 = 128 - len as u32;
    proof {
        vstd::bits::lemma_u128_shr_is_div(addr, shift as u128);
        vstd::bits::lemma_u128_shr_is_div(prefix, shift as u128);
    }
    (addr >> shift) == (prefix >> shift)
}

} // verus!
