//! The Internet checksum.
use vstd::prelude::*;

verus! {

/// The sum of the 16-bit words of `s`, a last single octet counting as the upper half of a word.
pub open spec fn word_sum(s: Seq<u8>) -> int
    decreases s.len(),
{
    if s.len() == 0 {
        0
    } else if s.len() % 2 == 1 {
        word_sum(s.drop_last()) + s.last() * 256
    } else {
        word_sum(s.drop_last()) + s.last()
    }
}

/// A sum with its carries added back until it fits into 16 bits.
pub open spec fn folded(total: int) -> int {
    if total == 0 {
        0
    } else {
        1 + (total - 1) % 65535
    }
}

/// The Internet checksum of `s`: the complement of the one's-complement sum of its words.
pub open spec fn inet_checksum(s: Seq<u8>) -> u16 {
    (65535 - folded(word_sum(s))) as u16
}

/// The Internet checksum of `data`.
pub fn checksum_of(data: &[u8]) -> (r: u16)
    ensures
        r == inet_checksum(data@),
{
    let mut sum: u32 = 0;
    let mut i: usize = 0;
    let ghost mut total: int = 0;
    assert(data@.take(0) =~= Seq::empty());
    while i < data.len()
        invariant
            i <= data@.len(),
            total == word_sum(data@.take(i as int)),
            total >= 0,
            sum == folded(total),
            sum <= 65535,
        decreases data.len() - i,
    {
        assert(data@.take(i + 1).drop_last() =~= data@.take(i as int));
        let add: u32 = if i % 2 == 0 {
            (data[i] as u32) * 256
        } else {
            data[i] as u32
        };
        let ghost before = total;
        proof {
            total = total + add;
        }
        sum = sum + add;
        if sum > 65535 {
            sum = sum - 65535;
        }
        assert(sum == folded(total)) by {
            lemma_fold_step(before, add as int);
        }
        i = i + 1;
    }
    assert(data@.take(i as int) =~= data@);
    (65535 - sum) as u16
}

/// Adding to a folded sum and adding the carry back folds the longer sum.
proof fn lemma_fold_step(total: int, more: int)
    requires
        total >= 0,
        0 <= more <= 65535,
    ensures
        folded(total + more) == (if folded(total) + more > 65535 {
            folded(total) + more - 65535
        } else {
            folded(total) + more
        }),
{
    if total > 0 {
        let r = (total - 1) % 65535;
        let q = (total - 1) / 65535;
        vstd::arithmetic::div_mod::lemma_fundamental_div_mod(total - 1, 65535);
        if r + more >= 65535 {
            assert(total + more - 1 == 65535 * (q + 1) + (r + more - 65535));
            vstd::arithmetic::div_mod::lemma_fundamental_div_mod_converse(
                total + more - 1,
                65535,
                q + 1,
                r + more - 65535,
            );
        } else {
            assert(total + more - 1 == 65535 * q + (r + more));
            vstd::arithmetic::div_mod::lemma_fundamental_div_mod_converse(
                total + more - 1,
                65535,
                q,
                r + more,
            );
        }
    }
}

/// Replacing a word that starts at an even position moves the sum by the difference.
pub proof fn lemma_word_sum_update(s: Seq<u8>, i: int, hi: u8, lo: u8)
    requires
        0 <= i,
        i + 1 < s.len(),
        i % 2 == 0,
    ensures
        word_sum(s.update(i, hi).update(i + 1, lo)) == word_sum(s) + (hi - s[i]) * 256 + (lo - s[i
            + 1]),
    decreases s.len(),
{
    let t = s.update(i, hi).update(i + 1, lo);
    if i + 2 == s.len() {
        let a = s.drop_last();
        let b = t.drop_last();
        assert(a.drop_last() =~= b.drop_last());
        assert(word_sum(s) == word_sum(a) + s[i + 1]);
        assert(word_sum(a) == word_sum(a.drop_last()) + s[i] * 256);
        assert(word_sum(t) == word_sum(b) + lo);
        assert(word_sum(b) == word_sum(b.drop_last()) + hi * 256);
    } else {
        lemma_word_sum_update(s.drop_last(), i, hi, lo);
        assert(t.drop_last() =~= s.drop_last().update(i, hi).update(i + 1, lo));
    }
}

/// The sum of octets is not negative.
pub proof fn lemma_word_sum_nonneg(s: Seq<u8>)
    ensures
        word_sum(s) >= 0,
    decreases s.len(),
{
    if s.len() > 0 {
        lemma_word_sum_nonneg(s.drop_last());
    }
}

/// Writing the checksum over a zero word at an even position makes the checksum of the whole vanish.
pub proof fn lemma_checksum_verifies(s: Seq<u8>, i: int)
    requires
        0 <= i,
        i + 1 < s.len(),
        i % 2 == 0,
        s[i] == 0,
        s[i + 1] == 0,
    ensures
        ({
            let c = inet_checksum(s);
            inet_checksum(s.update(i, (c / 256) as u8).update(i + 1, (c % 256) as u8))
        }) == 0,
{
    let c = inet_checksum(s);
    let total = word_sum(s);
    lemma_word_sum_nonneg(s);
    lemma_word_sum_update(s, i, (c / 256) as u8, (c % 256) as u8);
    if total > 0 {
        let r = (total - 1) % 65535;
        let q = (total - 1) / 65535;
        vstd::arithmetic::div_mod::lemma_fundamental_div_mod(total - 1, 65535);
        assert(c == 65534 - r);
        assert(total + c - 1 == 65535 * q + 65534);
        vstd::arithmetic::div_mod::lemma_fundamental_div_mod_converse(total + c - 1, 65535, q, 65534);
    }
}

} // verus!
