//! 128-bit sets held as two 64-bit words: the dirty marks of one channel's
//! row of controllers or of polyphonic pressures.

use vstd::prelude::*;

verus! {

/// Number of bits in a set.
pub const BITS: usize = 128;

/// Whether bit `i` of a 128-bit set is on. Bit `i` lives in word `i / 64`
/// at position `i % 64`.
pub open spec fn bit(bits: [u64; 2], i: int) -> bool {
    (bits[i / 64] >> ((i % 64) as u64)) & 1 == 1
}

/// The indices below `upto` whose bit is on, ascending.
pub open spec fn set_bits(bits: [u64; 2], upto: int) -> Seq<u8>
    decreases upto,
{
    if upto <= 0 {
        Seq::empty()
    } else if bit(bits, upto - 1) {
        set_bits(bits, upto - 1).push((upto - 1) as u8)
    } else {
        set_bits(bits, upto - 1)
    }
}

/// Or-ing bit `s` into a word turns that bit on and no other.
proof fn lemma_set_bit_word(w: u64, s: u64, j: u64)
    requires
        s < 64,
        j < 64,
    ensures
        ((w | (1u64 << s)) >> j) & 1 == 1 <==> (j == s || (w >> j) & 1 == 1),
{
    assert(((w | (1u64 << s)) >> j) & 1 == 1 <==> (j == s || (w >> j) & 1 == 1)) by (bit_vector)
        requires
            s < 64,
            j < 64,
    ;
}

/// Whether bit `index` is on.
pub fn test_bit(bits: &[u64; 2], index: u8) -> (on: bool)
    requires
        index < BITS,
    ensures
        on == bit(*bits, index as int),
{
    let idx: usize = (index as usize) / 64;
    let shift: u64 = (index % 64) as u64;
    (bits[idx] >> shift) & 1 == 1
}

/// Turns bit `index` on and leaves every other bit as it was.
pub fn set_bit(bits: &mut [u64; 2], index: u8)
    requires
        index < BITS,
    ensures
        forall|j: int| 0 <= j < BITS ==> (bit(*final(bits), j) <==> (j == index || bit(*old(bits), j))),
{
    let idx: usize = (index as usize) / 64;
    let shift: usize = (index as usize) % 64;
    let word: u64 = bits[idx];
    bits[idx] = word | (1u64 << shift);
    proof {
        assert forall|j: int| 0 <= j < BITS implies (bit(*bits, j) <==> (j == index || bit(
            *old(bits),
            j,
        ))) by {
            if j / 64 == idx as int {
                lemma_set_bit_word(word, shift as u64, (j % 64) as u64);
            }
        }
    }
}

/// `val & (val - 1)` turns the lowest set bit of `val` off and no other.
proof fn lemma_clear_lowest(val: u64, tz: u64, j: u64)
    requires
        tz < 64,
        j < 64,
        (val >> tz) & 1 == 1,
        val << ((64 - tz) as u64) == 0,
    ensures
        ((val & ((val - 1) as u64)) >> j) & 1 == 1 <==> (j != tz && (val >> j) & 1 == 1),
{
    assert(((val & ((val - 1) as u64)) >> j) & 1 == 1 <==> (j != tz && (val >> j) & 1 == 1))
        by (bit_vector)
        requires
            tz < 64,
            j < 64,
            (val >> tz) & 1 == 1,
            val << ((64 - tz) as u64) == 0,
    ;
}

/// The zero word has no bit on.
proof fn lemma_zero_word(j: u64)
    requires
        j < 64,
    ensures
        (0u64 >> j) & 1 == 0,
{
    assert((0u64 >> j) & 1 == 0) by (bit_vector);
}

/// No bit on between `from` and `to`: the index list does not grow.
proof fn lemma_set_bits_gap(bits: [u64; 2], from: int, to: int)
    requires
        0 <= from <= to,
        forall|j: int| from <= j < to ==> !bit(bits, j),
    ensures
        set_bits(bits, to) == set_bits(bits, from),
    decreases to - from,
{
    if from < to {
        lemma_set_bits_gap(bits, from, to - 1);
    }
}

/// The indices of the bits that are on, ascending, found by scanning each
/// word for its lowest set bit.
pub fn collect_bitset(bits: [u64; 2]) -> (indices: Vec<u8>)
    ensures
        indices@ == set_bits(bits, BITS as int),
{
    let mut indices: Vec<u8> = Vec::new();
    let mut block: usize = 0;
    while block < 2
        invariant
            block <= 2,
            indices@ == set_bits(bits, 64 * block),
        decreases 2 - block,
    {
        let word: u64 = bits[block];
        let mut val: u64 = word;
        let ghost mut low: int = 0;
        while val != 0
            invariant
                block < 2,
                word == bits[block as int],
                0 <= low <= 64,
                forall|j: u64|
                    j < 64 ==> (#[trigger] ((val >> j) & 1) == 1 <==> (j >= low && (word >> j) & 1
                        == 1)),
                indices@ == set_bits(bits, 64 * block + low),
            decreases 64 - low, val,
        {
            let tz: u32 = val.trailing_zeros();
            proof {
                vstd::std_specs::bits::axiom_u64_trailing_zeros(val);
                assert(tz < 64);
                let t = tz as u64;
                assert((val >> t) & 1 == 1);
                assert(t >= low);
                assert forall|j: int| 64 * block + low <= j < 64 * block + tz implies !bit(
                    bits,
                    j,
                ) by {
                    let k = (j % 64) as u64;
                    assert(j / 64 == block);
                    assert((val >> k) & 1 == 0);
                }
                lemma_set_bits_gap(bits, 64 * block + low, 64 * block + tz);
                assert(bit(bits, 64 * block + tz)) by {
                    assert((64 * block + tz) / 64 == block as int);
                    assert((64 * block + tz) % 64 == tz as int);
                }
                assert forall|j: u64| j < 64 implies (#[trigger] ((((val & ((val - 1) as u64))
                    >> j) & 1)) == 1 <==> (j >= tz + 1 && (word >> j) & 1 == 1)) by {
                    lemma_clear_lowest(val, t, j);
                    assert((val >> j) & 1 == 1 <==> (j >= low && (word >> j) & 1 == 1));
                    if j < t {
                        assert((val >> j) & 1 == 0);
                    }
                }
            }
            let idx: u8 = (block * 64 + tz as usize) as u8;
            indices.push(idx);
            val = val & (val - 1);
            proof {
                low = tz + 1;
            }
        }
        proof {
            assert forall|j: int| 64 * block + low <= j < 64 * block + 64 implies !bit(bits, j) by {
                let k = (j % 64) as u64;
                assert(j / 64 == block);
                assert((val >> k) & 1 == 0) by {
                    lemma_zero_word(k);
                }
            }
            lemma_set_bits_gap(bits, 64 * block + low, 64 * block + 64);
        }
        block = block + 1;
    }
    indices
}

/// Every index listed is below the bound.
pub proof fn lemma_set_bits_below(bits: [u64; 2], upto: int, k: int)
    requires
        0 <= upto <= 128,
        0 <= k < set_bits(bits, upto).len(),
    ensures
        set_bits(bits, upto)[k] < upto,
    decreases upto,
{
    if upto > 0 {
        if k < set_bits(bits, upto - 1).len() {
            lemma_set_bits_below(bits, upto - 1, k);
        }
    }
}

/// A set of two zero words has no bit on.
pub proof fn lemma_no_bit_in_zero(bits: [u64; 2], i: int)
    requires
        0 <= i < BITS,
        bits[0] == 0,
        bits[1] == 0,
    ensures
        !bit(bits, i),
{
    lemma_zero_word((i % 64) as u64);
}

} // verus!
