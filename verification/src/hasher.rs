//! The accumulator behind the incremental fingerprint: FNV-1a over 64 bits.

use vstd::prelude::*;

verus! {

/// The state of an accumulator that has seen no byte.
pub const FNV_OFFSET_BASIS: u64 = 0xcbf2_9ce4_8422_2325;

/// The multiplier of every step.
pub const FNV_PRIME: u64 = 0x0000_0100_0000_01b3;

/// One step: fold `byte` into `state`.
pub open spec fn mix(state: u64, byte: u8) -> u64 {
    (state ^ (byte as u64)).wrapping_mul(FNV_PRIME)
}

/// The state after `bytes` were fed, first to last, into `state`.
pub open spec fn absorb(state: u64, bytes: Seq<u8>) -> u64
    decreases bytes.len(),
{
    if bytes.len() == 0 {
        state
    } else {
        mix(absorb(state, bytes.drop_last()), bytes.last())
    }
}

/// The fingerprint of a whole byte stream.
pub open spec fn fingerprint(bytes: Seq<u8>) -> u64 {
    absorb(FNV_OFFSET_BASIS, bytes)
}

/// Feeding `a` and then `b` is feeding `a + b`: the state does not depend on
/// how a stream is cut into writes.
pub proof fn lemma_absorb_concat(state: u64, a: Seq<u8>, b: Seq<u8>)
    ensures
        absorb(state, a + b) == absorb(absorb(state, a), b),
    decreases b.len(),
{
    if b.len() == 0 {
        assert(a + b =~= a);
    } else {
        lemma_absorb_concat(state, a, b.drop_last());
        assert((a + b).drop_last() =~= a + b.drop_last());
        assert((a + b).last() == b.last());
    }
}

/// A fast, non-cryptographic accumulator of bytes into 64 bits.
pub struct IncrementalHasher {
    state: u64,
}

impl IncrementalHasher {
    /// What `finish` would return now.
    pub closed spec fn digest(&self) -> u64 {
        self.state
    }

    pub fn new() -> (hasher: Self)
        ensures
            hasher.digest() == FNV_OFFSET_BASIS,
    {
        IncrementalHasher { state: FNV_OFFSET_BASIS }
    }

    pub fn write_u8(&mut self, byte: u8)
        ensures
            final(self).digest() == mix(old(self).digest(), byte),
            final(self).digest() == absorb(old(self).digest(), seq![byte]),
    {
        proof {
            assert(seq![byte].drop_last() =~= Seq::<u8>::empty());
            assert(absorb(self.state, seq![byte]) == mix(absorb(self.state, seq![byte].drop_last()), byte));
        }
        self.state = (self.state ^ (byte as u64)).wrapping_mul(FNV_PRIME);
    }

    pub fn write(&mut self, bytes: &[u8])
        ensures
            final(self).digest() == absorb(old(self).digest(), bytes@),
    {
        let mut i: usize = 0;
        while i < bytes.len()
            invariant
                i <= bytes.len(),
                self.state == absorb(old(self).state, bytes@.take(i as int)),
            decreases bytes.len() - i,
        {
            proof {
                let next = bytes@.take(i + 1);
                assert(next.drop_last() =~= bytes@.take(i as int));
                assert(next.last() == bytes@[i as int]);
            }
            self.state = (self.state ^ (bytes[i] as u64)).wrapping_mul(FNV_PRIME);
            i += 1;
        }
        proof {
            assert(bytes@.take(i as int) =~= bytes@);
        }
    }

    pub fn finish(&self) -> (value: u64)
        ensures
            value == self.digest(),
    {
        self.state
    }
}

} // verus!
