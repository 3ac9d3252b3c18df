//! The incremental accumulator.

use vstd::prelude::*;
use crate::fnv1a::{digest, fold, lemma_fold_concat, OFFSET_BASIS, PRIME};

verus! {

/// A byte-incremental FNV-1a accumulator over a 64-bit state.
///
/// Its view is the running state, which is also its current digest.
pub struct FnvHasher(u64);

impl View for FnvHasher {
    type V = u64;

    closed spec fn view(&self) -> u64 {
        self.0
    }
}

impl Default for FnvHasher {
    /// A fresh accumulator, whose state is the offset basis.
    #[inline]
    fn default() -> (hasher: FnvHasher)
        ensures
            hasher@ == OFFSET_BASIS,
    {
        FnvHasher(OFFSET_BASIS)
    }
}

impl core::hash::Hasher for FnvHasher {
    /// The current digest: the state itself. Reading leaves the accumulator
    /// as it is, so more bytes may follow.
    #[inline]
    fn finish(&self) -> (digest: u64)
        ensures
            digest == self@,
    {
        self.0
    }

    /// Absorbs `bytes` in order: each byte is XORed into the state, which is
    /// then multiplied by the prime modulo 2^64. An empty slice changes
    /// nothing.
    #[inline]
    fn write(&mut self, bytes: &[u8])
        ensures
            final(self)@ == fold(old(self)@, bytes@),
            bytes@.len() == 0 ==> final(self)@ == old(self)@,
    {
        let mut hash: u64 = self.0;
        let mut i: usize = 0;
        while i < bytes.len()
            invariant
                i <= bytes@.len(),
                hash == fold(old(self)@, bytes@.take(i as int)),
            decreases bytes@.len() - i,
        {
            proof {
                assert(bytes@.take(i + 1).drop_last() =~= bytes@.take(i as int));
            }
            hash = (hash ^ (bytes[i] as u64)).wrapping_mul(PRIME);
            i += 1;
        }
        proof {
            assert(bytes@.take(i as int) =~= bytes@);
        }
        self.0 = hash;
    }
}

/// Hashing is deterministic: two accumulators that start in the same state and
/// absorb the same bytes end in the same state. Two fresh ones both end in
/// `digest(bytes)`.
pub proof fn lemma_same_bytes_same_digest(first: FnvHasher, second: FnvHasher, bytes: Seq<u8>)
    requires
        first@ == second@,
    ensures
        fold(first@, bytes) == fold(second@, bytes),
        first@ == OFFSET_BASIS ==> fold(second@, bytes) == digest(bytes),
{
}

/// Writes compose: from any accumulator, absorbing `head` and then `tail`
/// ends in the state that absorbing `head + tail` in one write ends in.
pub proof fn lemma_write_composes(hasher: FnvHasher, head: Seq<u8>, tail: Seq<u8>)
    ensures
        fold(fold(hasher@, head), tail) == fold(hasher@, head + tail),
{
    lemma_fold_concat(hasher@, head, tail);
}

/// Reading does not reset: two digests read from one accumulator with no write
/// between them are the same value, the state itself.
pub proof fn lemma_finish_repeats(hasher: FnvHasher, first: u64, second: u64)
    requires
        first == hasher@,
        second == hasher@,
    ensures
        first == second,
{
}

} // verus!
