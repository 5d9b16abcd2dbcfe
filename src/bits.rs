use vstd::prelude::*;
use vstd::std_specs::bits::{axiom_u64_trailing_ones, u64_trailing_ones};

verus! {

/// A bitmap word with every bit in use.
pub const FULL_WORD: u64 = 0xffff_ffff_ffff_ffff;

/// The number of initialization bits in one bitmap word.
pub const WORD_BITS: u32 = 64;

/// Whether bit `bit` of `word` is set.
pub open spec fn bit_set(word: u64, bit: u32) -> bool {
    (word >> (bit as u64)) & 1u64 == 1u64
}

/// The lowest clear bit of `word` (64 when every bit is set).
pub open spec fn lowest_clear(word: u64) -> u32 {
    u64_trailing_ones(word)
}

/// Setting bit `b` sets exactly that bit and keeps every other one.
pub proof fn lemma_set_bit(word: u64, b: u32, c: u32)
    requires
        b < 64,
        c < 64,
    ensures
        bit_set(word | (1u64 << (b as u64)), c) <==> (c == b || bit_set(word, c)),
{
    let bb = b as u64;
    let cc = c as u64;
    assert(((word | (1u64 << bb)) >> cc) & 1u64 == 1u64 <==> (cc == bb || (word >> cc) & 1u64
        == 1u64)) by (bit_vector)
        requires
            bb < 64,
            cc < 64,
    ;
}

/// No bit of the empty word is set.
pub proof fn lemma_zero_word(c: u32)
    requires
        c < 64,
    ensures
        !bit_set(0u64, c),
{
    let cc = c as u64;
    assert((0u64 >> cc) & 1u64 == 0u64) by (bit_vector);
}

/// The lowest clear bit of a word that is not full lies below 64, is clear, and every bit
/// under it is set.
pub proof fn lemma_lowest_clear(word: u64)
    requires
        word != FULL_WORD,
    ensures
        lowest_clear(word) < 64,
        !bit_set(word, lowest_clear(word)),
        forall|c: u32| c < lowest_clear(word) ==> bit_set(word, c),
{
    axiom_u64_trailing_ones(word);
    assert forall|c: u32| c < lowest_clear(word) implies bit_set(word, c) by {
        assert(0 <= (c as u64) < u64_trailing_ones(word));
    }
}

/// The lowest clear bit of `word`, which must not be full.
pub fn find_clear_bit(word: u64) -> (b: u32)
    requires
        word != FULL_WORD,
    ensures
        b == lowest_clear(word),
        b < WORD_BITS,
        !bit_set(word, b),
        forall|c: u32| c < b ==> bit_set(word, c),
{
    proof {
        lemma_lowest_clear(word);
    }
    word.trailing_ones()
}

/// Whether bit `b` of `word` is set.
pub fn test_bit(word: u64, b: u32) -> (r: bool)
    requires
        b < WORD_BITS,
    ensures
        r == bit_set(word, b),
{
    (word >> (b as u64)) & 1u64 == 1u64
}

/// `word` with bit `b` set.
pub fn with_bit(word: u64, b: u32) -> (r: u64)
    requires
        b < WORD_BITS,
    ensures
        r == word | (1u64 << (b as u64)),
        forall|c: u32| c < 64 ==> (bit_set(r, c) <==> (c == b || bit_set(word, c))),
{
    let r = word | (1u64 << (b as u64));
    proof {
        assert forall|c: u32| c < 64 implies (bit_set(r, c) <==> (c == b || bit_set(word, c))) by {
            lemma_set_bit(word, b, c);
        }
    }
    r
}

} // verus!
