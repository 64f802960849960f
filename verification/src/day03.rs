//! Rucksack item priorities, with items kept as bits of a `u64`.
use vstd::prelude::*;

verus! {

/// Priority of an item letter: 1-26 for `a`-`z`, 27-52 for `A`-`Z`.
pub open spec fn spec_item_prio(letter: u8) -> int {
    if 97 <= letter <= 122 {
        letter - 96
    } else {
        letter - 65 + 27
    }
}

/// Priority of an item letter: 1-26 for `a`-`z`, 27-52 for `A`-`Z`.
pub fn item_prio(letter: u8) -> (p: u8)
    requires
        (97 <= letter <= 122) || (65 <= letter <= 90),
    ensures
        p == spec_item_prio(letter),
{
    if letter >= 97 {
        letter - 97 + 1
    } else {
        letter - 65 + 27
    }
}

/// The bitset a slice of item letters builds up: one bit per letter, offset
/// by 64 so that `A`-`z` fit the word.
pub open spec fn spec_item_set(items: Seq<u8>) -> u64
    decreases items.len(),
{
    if items.len() == 0 {
        0u64
    } else {
        spec_item_set(items.drop_last()) | (1u64 << ((items.last() - 64) as u64))
    }
}

/// Collects the items of a slice into a bitset, one bit per letter.
#[verifier::loop_isolation(false)]
pub fn make_set(items: &[u8]) -> (set: u64)
    requires
        forall|k: int| 0 <= k < items@.len() ==> 64 < #[trigger] items@[k] < 128,
    ensures
        set == spec_item_set(items@),
{
    let mut set: u64 = 0;
    let mut i: usize = 0;
    proof {
        assert(items@.take(0) =~= Seq::<u8>::empty());
    }
    while i < items.len()
        invariant
            i <= items@.len(),
            set == spec_item_set(items@.take(i as int)),
        decreases items@.len() - i,
    {
        proof {
            assert(items@.take(i + 1).drop_last() =~= items@.take(i as int));
            assert(items@.take(i + 1).last() == items@[i as int]);
        }
        set = set | (1u64 << ((items[i] - 64) as u64));
        i = i + 1;
    }
    proof {
        assert(items@.take(items@.len() as int) =~= items@);
    }
    set
}

/// Position of the highest set bit (0 for inputs 0 and 1).
pub open spec fn spec_high_bit(bitset: u64) -> int
    decreases bitset,
{
    if bitset <= 1 {
        0
    } else {
        1 + spec_high_bit(bitset / 2)
    }
}

/// The highest bit position is never negative.
pub proof fn lemma_high_bit_nonneg(b: u64)
    ensures
        spec_high_bit(b) >= 0,
    decreases b,
{
    if b > 1 {
        lemma_high_bit_nonneg(b / 2);
    }
}

/// A value below `2^(k+1)` has its highest bit at position `k` or below.
pub proof fn lemma_high_bit_le(b: u64, k: int)
    requires
        0 <= k,
        b < vstd::arithmetic::power2::pow2((k + 1) as nat),
    ensures
        spec_high_bit(b) <= k,
    decreases b,
{
    if b > 1 {
        vstd::arithmetic::power2::lemma_pow2_unfold((k + 1) as nat);
        if k == 0 {
            vstd::arithmetic::power2::lemma2_to64();
            assert(false);
        }
        lemma_high_bit_le(b / 2, k - 1);
    }
}

/// The highest bit position of a 64-bit value is at most 63.
pub proof fn lemma_high_bit_small(b: u64)
    ensures
        0 <= spec_high_bit(b) <= 63,
{
    lemma_high_bit_nonneg(b);
    vstd::arithmetic::power2::lemma2_to64();
    vstd::arithmetic::power2::lemma2_to64_rest();
    lemma_high_bit_le(b, 63);
}

/// Recovers an item letter from its bit: 64 plus the highest set bit's
/// position.
pub fn bit_to_item(bitset: u64) -> (item: u8)
    ensures
        item == 64 + spec_high_bit(bitset),
{
    let ghost orig = bitset;
    let mut bitset = bitset;
    let mut item: u8 = 0;
    proof {
        lemma_high_bit_small(orig);
    }
    while bitset > 1
        invariant
            0 <= spec_high_bit(bitset),
            item + spec_high_bit(bitset) == spec_high_bit(orig),
            spec_high_bit(orig) <= 63,
        decreases bitset,
    {
        proof {
            assert(bitset >> 1u64 == bitset / 2) by (bit_vector);
            lemma_high_bit_nonneg(bitset / 2);
        }
        bitset = bitset >> 1u64;
        item = item + 1;
    }
    item + 64
}

} // verus!
