//! Fixed-seed 64-bit multiply-xor-rotate hashing.
//!
//! The hash is deterministic across runs and fast for small keys. It is not
//! collision-hardened: the keys it is fed are expected to come from the
//! embedding application rather than from an adversary.

use vstd::prelude::*;

verus! {

/// The odd multiplier that every word is scrambled with.
pub const FX_SEED: u64 = 0x51_7c_c1_b7_27_22_0a_95;

/// The inverse of [`FX_SEED`] modulo the number of words.
const FX_INVERSE: u64 = 0x20_40_00_3d_78_09_70_bd;

/// `hash` with its bits rotated left by five.
pub open spec fn rotated(hash: u64) -> u64 {
    (hash << 5) | (hash >> 59)
}

/// The state after one more word.
pub open spec fn fx_add(hash: u64, word: u64) -> u64 {
    (rotated(hash) ^ word).wrapping_mul(FX_SEED)
}

/// The little-endian value of a byte string.
pub open spec fn le_value(bytes: Seq<u8>) -> nat
    decreases bytes.len(),
{
    if bytes.len() == 0 {
        0
    } else {
        bytes[0] as nat + 256 * le_value(bytes.skip(1))
    }
}

/// How many bytes the next word takes from `bytes`: eight, or all that is left.
pub open spec fn chunk_len(bytes: Seq<u8>) -> int {
    if bytes.len() < 8 {
        bytes.len() as int
    } else {
        8
    }
}

/// The state after a byte string: eight bytes to a word, the last word padded
/// with zero bytes, which leave its little-endian value as it is.
pub open spec fn fx_write(hash: u64, bytes: Seq<u8>) -> u64
    decreases bytes.len(),
{
    if bytes.len() == 0 {
        hash
    } else {
        let n = chunk_len(bytes);
        fx_write(fx_add(hash, le_value(bytes.take(n)) as u64), bytes.skip(n))
    }
}

/// A byte string of at most eight bytes has a value that fits in a word.
proof fn lemma_le_value_bound(bytes: Seq<u8>)
    requires
        bytes.len() <= 8,
    ensures
        bytes.len() == 0 ==> le_value(bytes) < 0x1,
        bytes.len() == 1 ==> le_value(bytes) < 0x100,
        bytes.len() == 2 ==> le_value(bytes) < 0x1_0000,
        bytes.len() == 3 ==> le_value(bytes) < 0x100_0000,
        bytes.len() == 4 ==> le_value(bytes) < 0x1_0000_0000,
        bytes.len() == 5 ==> le_value(bytes) < 0x100_0000_0000,
        bytes.len() == 6 ==> le_value(bytes) < 0x1_0000_0000_0000,
        bytes.len() == 7 ==> le_value(bytes) < 0x100_0000_0000_0000,
        bytes.len() == 8 ==> le_value(bytes) < 0x1_0000_0000_0000_0000,
    decreases bytes.len(),
{
    if bytes.len() > 0 {
        lemma_le_value_bound(bytes.skip(1));
    }
}

/// A zero byte at the end changes nothing.
proof fn lemma_le_value_zero(bytes: Seq<u8>)
    ensures
        le_value(bytes.push(0)) == le_value(bytes),
    decreases bytes.len(),
{
    if bytes.len() > 0 {
        lemma_le_value_zero(bytes.skip(1));
        assert(bytes.push(0).skip(1) == bytes.skip(1).push(0));
    } else {
        assert(bytes.push(0).skip(1).len() == 0);
        assert(le_value(bytes.push(0).skip(1)) == 0);
    }
}

/// Padding a short tail with zero bytes to a full word does not change the
/// hash of that tail.
pub proof fn law_padding_is_unobservable(hash: u64, tail: Seq<u8>)
    requires
        0 < tail.len() < 8,
    ensures
        fx_write(hash, tail.push(0)) == fx_write(hash, tail),
{
    lemma_le_value_zero(tail);
    let padded = tail.push(0);
    assert(tail.take(tail.len() as int) == tail);
    assert(padded.take(padded.len() as int) == padded);
    assert(fx_write(fx_add(hash, le_value(tail) as u64), tail.skip(tail.len() as int)) == fx_add(
        hash,
        le_value(tail) as u64,
    ));
    assert(fx_write(fx_add(hash, le_value(padded) as u64), padded.skip(padded.len() as int))
        == fx_add(hash, le_value(padded) as u64));
}

/// Writing whole words first and the rest after hashes as writing all at once.
pub proof fn law_write_splits_at_words(hash: u64, head: Seq<u8>, rest: Seq<u8>)
    requires
        head.len() % 8 == 0,
    ensures
        fx_write(hash, head + rest) == fx_write(fx_write(hash, head), rest),
    decreases head.len(),
{
    if head.len() == 0 {
        assert(head + rest == rest);
    } else {
        let all = head + rest;
        assert(all.take(8) == head.take(8));
        assert(all.skip(8) == head.skip(8) + rest);
        law_write_splits_at_words(
            fx_add(hash, le_value(head.take(8)) as u64),
            head.skip(8),
            rest,
        );
    }
}

/// Writing the eight little-endian bytes of a word is adding that word.
pub proof fn law_word_bytes_are_the_word(hash: u64, bytes: Seq<u8>)
    requires
        bytes.len() == 8,
    ensures
        le_value(bytes) <= u64::MAX,
        fx_write(hash, bytes) == fx_add(hash, le_value(bytes) as u64),
{
    lemma_le_value_bound(bytes);
    assert(bytes.take(8) == bytes);
    assert(bytes.skip(8).len() == 0);
    assert(fx_write(fx_add(hash, le_value(bytes) as u64), bytes.skip(8)) == fx_add(
        hash,
        le_value(bytes) as u64,
    ));
}

/// Multiplying by the multiplier can be undone: its inverse gives the word back.
proof fn lemma_multiplier_has_inverse(word: u64)
    ensures
        word.wrapping_mul(FX_SEED).wrapping_mul(FX_INVERSE) == word,
{
    let modulus = 0x1_0000_0000_0000_0000int;
    let product = word * FX_SEED;
    vstd::arithmetic::div_mod::lemma_mul_mod_noop_left(product, FX_INVERSE as int, modulus);
    assert(product * FX_INVERSE == word * (FX_SEED * FX_INVERSE)) by (nonlinear_arith)
        requires
            product == word * FX_SEED,
    ;
    assert(FX_SEED * FX_INVERSE == modulus * 739706870995725965 + 1);
    assert(word * (modulus * 739706870995725965 + 1) == modulus * (word * 739706870995725965)
        + word) by (nonlinear_arith);
    vstd::arithmetic::div_mod::lemma_mod_multiples_vanish(
        word * 739706870995725965,
        word as int,
        modulus,
    );
    vstd::arithmetic::div_mod::lemma_small_mod(word as nat, modulus as nat);
}

/// No two words lead from one state to the same state.
pub proof fn law_adding_is_injective_in_the_word(hash: u64, word: u64, other: u64)
    requires
        fx_add(hash, word) == fx_add(hash, other),
    ensures
        word == other,
{
    let start = rotated(hash);
    lemma_multiplier_has_inverse(start ^ word);
    lemma_multiplier_has_inverse(start ^ other);
    assert(word == other) by (bit_vector)
        requires
            start ^ word == start ^ other,
    ;
}

/// A running hash.
#[derive(Debug, Clone, Copy)]
pub struct FxHasher {
    hash: u64,
}

impl View for FxHasher {
    type V = u64;

    closed spec fn view(&self) -> u64 {
        self.hash
    }
}

impl Default for FxHasher {
    fn default() -> (hasher: Self)
        ensures
            hasher@ == 0,
    {
        FxHasher { hash: 0 }
    }
}

/// The little-endian value of `bytes[start..end]`, at most eight bytes.
fn read_word(bytes: &[u8], start: usize, end: usize) -> (word: u64)
    requires
        start <= end <= bytes@.len(),
        end - start <= 8,
    ensures
        word == le_value(bytes@.subrange(start as int, end as int)),
{
    let mut word: u64 = 0;
    let mut at: usize = end;
    while at > start
        invariant
            start <= at <= end <= bytes@.len(),
            end - start <= 8,
            word == le_value(bytes@.subrange(at as int, end as int)),
        decreases at,
    {
        let ghost before = bytes@.subrange(at as int, end as int);
        at = at - 1;
        proof {
            let now = bytes@.subrange(at as int, end as int);
            assert(now.skip(1) == before);
            lemma_le_value_bound(now);
        }
        word = bytes[at] as u64 + 256 * word;
    }
    word
}

impl FxHasher {
    /// Mixes one word into the state.
    pub fn add(&mut self, word: u64)
        ensures
            final(self)@ == fx_add(old(self)@, word),
    {
        self.hash = (((self.hash << 5) | (self.hash >> 59)) ^ word).wrapping_mul(FX_SEED);
    }
}

impl core::hash::Hasher for FxHasher {
    /// Mixes a byte string into the state.
    fn write(&mut self, bytes: &[u8])
        ensures
            final(self)@ == fx_write(old(self)@, bytes@),
    {
        proof {
            assert(bytes@.skip(0) == bytes@);
        }
        let mut at: usize = 0;
        while at < bytes.len()
            invariant
                at <= bytes@.len(),
                fx_write(self@, bytes@.skip(at as int)) == fx_write(old(self)@, bytes@),
            decreases bytes@.len() - at,
        {
            let end: usize = if bytes.len() - at < 8 {
                bytes.len()
            } else {
                at + 8
            };
            let word: u64 = read_word(bytes, at, end);
            proof {
                let rest = bytes@.skip(at as int);
                assert(rest.take(chunk_len(rest)) == bytes@.subrange(at as int, end as int));
                assert(rest.skip(chunk_len(rest)) == bytes@.skip(end as int));
            }
            self.add(word);
            at = end;
        }
        proof {
            assert(bytes@.skip(at as int).len() == 0);
        }
    }

    /// Mixes a 64-bit word into the state.
    fn write_u64(&mut self, value: u64)
        ensures
            final(self)@ == fx_add(old(self)@, value),
    {
        self.add(value);
    }

    /// Mixes a machine word into the state, widened to 64 bits.
    fn write_usize(&mut self, value: usize)
        ensures
            final(self)@ == fx_add(old(self)@, value as u64),
    {
        self.add(value as u64);
    }

    /// The hash of everything mixed in so far.
    fn finish(&self) -> (hash: u64)
        ensures
            hash == self@,
    {
        self.hash
    }
}

} // verus!
