//! The FNV-1a hash over 64 bits, as a mathematical function on byte sequences.

use vstd::prelude::*;

verus! {

/// The 64-bit FNV offset basis: the state before any byte has been absorbed.
pub const OFFSET_BASIS: u64 = 0xcbf29ce484222325;

/// The 64-bit FNV prime, by which every step multiplies.
pub const PRIME: u64 = 0x100000001b3;

/// The inverse of the prime modulo 2^64. The prime is odd, so it has one.
pub const PRIME_INVERSE: u64 = 0xce965057aff6957b;

/// The product of two 64-bit values modulo 2^64.
pub open spec fn mul_mod64(x: u64, y: u64) -> u64 {
    ((x as nat * y as nat) % (0x1_0000_0000_0000_0000 as nat)) as u64
}

/// One step of FNV-1a: the byte, zero-extended, is XORed into the state, and
/// the outcome is multiplied by the prime modulo 2^64.
pub open spec fn mix(state: u64, byte: u8) -> u64 {
    mul_mod64(state ^ (byte as u64), PRIME)
}

/// The state reached from `state` after absorbing `bytes` in order.
pub open spec fn fold(state: u64, bytes: Seq<u8>) -> u64
    decreases bytes.len(),
{
    if bytes.len() == 0 {
        state
    } else {
        mix(fold(state, bytes.drop_last()), bytes.last())
    }
}

/// The FNV-1a digest of `bytes`.
pub open spec fn digest(bytes: Seq<u8>) -> u64 {
    fold(OFFSET_BASIS, bytes)
}

/// Multiplying by the prime and then by its inverse, both modulo 2^64, gives
/// back the value one started from.
pub proof fn lemma_prime_inverse(x: u64)
    ensures
        mul_mod64(mul_mod64(x, PRIME), PRIME_INVERSE) == x,
{
    assert(mul_mod64(mul_mod64(x, PRIME), PRIME_INVERSE) == x) by (bit_vector);
}

/// A step loses nothing of the state: with the same byte, different states
/// lead to different states.
pub proof fn lemma_mix_injective_in_state(first: u64, second: u64, byte: u8)
    requires
        mix(first, byte) == mix(second, byte),
    ensures
        first == second,
{
    let b: u64 = byte as u64;
    lemma_prime_inverse(first ^ b);
    lemma_prime_inverse(second ^ b);
    assert(first ^ b == second ^ b);
    assert(first == second) by (bit_vector)
        requires
            first ^ b == second ^ b,
    ;
}

/// A step loses nothing of the byte: from the same state, different bytes
/// lead to different states.
pub proof fn lemma_mix_injective_in_byte(state: u64, first: u8, second: u8)
    requires
        mix(state, first) == mix(state, second),
    ensures
        first == second,
{
    lemma_prime_inverse(state ^ (first as u64));
    lemma_prime_inverse(state ^ (second as u64));
    assert(first == second) by (bit_vector)
        requires
            state ^ (first as u64) == state ^ (second as u64),
    ;
}

/// Absorbing nothing leaves the state as it is, and the digest of the empty
/// sequence is the offset basis.
pub proof fn lemma_fold_empty(state: u64)
    ensures
        fold(state, Seq::<u8>::empty()) == state,
        digest(Seq::<u8>::empty()) == OFFSET_BASIS,
{
}

/// Absorbing one more byte is one more step.
pub proof fn lemma_fold_push(state: u64, bytes: Seq<u8>, byte: u8)
    ensures
        fold(state, bytes.push(byte)) == mix(fold(state, bytes), byte),
{
    assert(bytes.push(byte).drop_last() =~= bytes);
}

/// The definition agrees with the published FNV-1a vectors for the empty
/// input, for the single byte `a` and for `foobar`.
pub proof fn lemma_known_digests()
    ensures
        digest(Seq::<u8>::empty()) == 0xcbf29ce484222325,
        digest(seq![0x61u8]) == 0xaf63dc4c8601ec8c,
        digest(seq![0x66u8, 0x6fu8, 0x6fu8, 0x62u8, 0x61u8, 0x72u8]) == 0x85944171f73967e8,
{
    let empty = Seq::<u8>::empty();
    assert(seq![0x61u8] =~= empty.push(0x61u8));
    lemma_fold_push(OFFSET_BASIS, empty, 0x61u8);
    assert(mix(OFFSET_BASIS, 0x61u8) == 0xaf63dc4c8601ec8c) by (bit_vector);

    let f = empty.push(0x66u8);
    let fo = f.push(0x6fu8);
    let foo = fo.push(0x6fu8);
    let foob = foo.push(0x62u8);
    let fooba = foob.push(0x61u8);
    let foobar = fooba.push(0x72u8);
    assert(seq![0x66u8, 0x6fu8, 0x6fu8, 0x62u8, 0x61u8, 0x72u8] =~= foobar);
    lemma_fold_push(OFFSET_BASIS, empty, 0x66u8);
    assert(mix(OFFSET_BASIS, 0x66u8) == 0xaf63db4c8601ead9) by (bit_vector);
    lemma_fold_push(OFFSET_BASIS, f, 0x6fu8);
    assert(mix(0xaf63db4c8601ead9, 0x6fu8) == 0x08985907b541d342) by (bit_vector);
    lemma_fold_push(OFFSET_BASIS, fo, 0x6fu8);
    assert(mix(0x08985907b541d342, 0x6fu8) == 0xdcb27518fed9d577) by (bit_vector);
    lemma_fold_push(OFFSET_BASIS, foo, 0x62u8);
    assert(mix(0xdcb27518fed9d577, 0x62u8) == 0xdd120e790c2512af) by (bit_vector);
    lemma_fold_push(OFFSET_BASIS, foob, 0x61u8);
    assert(mix(0xdd120e790c2512af, 0x61u8) == 0xcac165afa2fef40a) by (bit_vector);
    lemma_fold_push(OFFSET_BASIS, fooba, 0x72u8);
    assert(mix(0xcac165afa2fef40a, 0x72u8) == 0x85944171f73967e8) by (bit_vector);
}

/// Absorbing `head` and then `tail` reaches the same state as absorbing their
/// concatenation at once.
pub proof fn lemma_fold_concat(state: u64, head: Seq<u8>, tail: Seq<u8>)
    ensures
        fold(fold(state, head), tail) == fold(state, head + tail),
    decreases tail.len(),
{
    if tail.len() == 0 {
        assert(head + tail =~= head);
    } else {
        lemma_fold_concat(state, head, tail.drop_last());
        assert((head + tail).drop_last() =~= head + tail.drop_last());
    }
}

/// Absorbing the same bytes from different states leads to different states.
pub proof fn lemma_fold_injective_in_state(first: u64, second: u64, bytes: Seq<u8>)
    requires
        fold(first, bytes) == fold(second, bytes),
    ensures
        first == second,
    decreases bytes.len(),
{
    if bytes.len() > 0 {
        lemma_mix_injective_in_state(
            fold(first, bytes.drop_last()),
            fold(second, bytes.drop_last()),
            bytes.last(),
        );
        lemma_fold_injective_in_state(first, second, bytes.drop_last());
    }
}

/// Two sequences of the same length that differ at exactly one position lead
/// from the same state to different states. In particular their digests
/// differ.
pub proof fn lemma_single_byte_sensitivity(state: u64, first: Seq<u8>, second: Seq<u8>, at: int)
    requires
        first.len() == second.len(),
        0 <= at < first.len(),
        first[at] != second[at],
        forall|j: int| 0 <= j < first.len() && j != at ==> first[j] == second[j],
    ensures
        fold(state, first) != fold(state, second),
{
    let head = first.take(at);
    let tail = first.skip(at + 1);
    assert(first =~= head.push(first[at]) + tail);
    assert(second =~= head.push(second[at]) + tail);
    lemma_fold_concat(state, head.push(first[at]), tail);
    lemma_fold_concat(state, head.push(second[at]), tail);
    lemma_fold_push(state, head, first[at]);
    lemma_fold_push(state, head, second[at]);
    if fold(state, first) == fold(state, second) {
        lemma_fold_injective_in_state(
            fold(state, head.push(first[at])),
            fold(state, head.push(second[at])),
            tail,
        );
        lemma_mix_injective_in_byte(fold(state, head), first[at], second[at]);
    }
}

} // verus!
