//! Account identifiers.
use crate::le_bytes::{
    le_value, lemma_le_value_bound, lemma_le_value_injective, lemma_pow256_16, LeBytes,
};
use crate::math::{Max, Min, One, Zero};
use vstd::prelude::*;

verus! {

/// The identifier of an account: 256 bits, held as two halves of 128 bits. In
/// its 32 bytes the low half comes first, each half least significant byte
/// first.
///
/// The identifier of all zero bits is no account: a transfer to it burns.
#[derive(Clone, Copy, Debug, PartialEq, Eq, Structural, Hash)]
pub struct ActorId {
    low: u128,
    high: u128,
}

impl ActorId {
    /// The two halves, low half first: the key under which a ledger files
    /// the account.
    pub closed spec fn key_spec(self) -> (u128, u128) {
        (self.low, self.high)
    }

    /// The halves determine the identifier.
    pub proof fn lemma_key_injective(self, other: Self)
        ensures
            self.key_spec() == other.key_spec() <==> self == other,
    {
    }

    /// The identifier with the given halves.
    pub fn new(low: u128, high: u128) -> (r: Self)
        ensures
            r.key_spec() == (low, high),
    {
        ActorId { low, high }
    }

    /// The two halves, low half first.
    pub fn key(&self) -> (k: (u128, u128))
        ensures
            k == self.key_spec(),
    {
        (self.low, self.high)
    }

    /// The identifier that the 32 bytes stand for.
    pub fn from_bytes(bytes: [u8; 32]) -> (r: Self)
        ensures
            r.key_spec().0 == le_value(bytes@.subrange(0, 16)),
            r.key_spec().1 == le_value(bytes@.subrange(16, 32)),
    {
        let mut low = [0u8; 16];
        let mut high = [0u8; 16];
        let mut i: usize = 0;
        while i < 16
            invariant
                i <= 16,
                forall|j: int| 0 <= j < i ==> low@[j] == bytes@[j] && high@[j] == bytes@[16 + j],
            decreases 16 - i,
        {
            low[i] = bytes[i];
            high[i] = bytes[16 + i];
            i += 1;
        }
        let low = LeBytes::<16>::new(low);
        let high = LeBytes::<16>::new(high);
        proof {
            assert(low@ =~= bytes@.subrange(0, 16));
            assert(high@ =~= bytes@.subrange(16, 32));
            lemma_le_value_bound(low@);
            lemma_le_value_bound(high@);
            lemma_pow256_16();
        }
        match (low.try_into_u128(), high.try_into_u128()) {
            (Ok(low), Ok(high)) => ActorId { low, high },
            _ => ActorId { low: 0, high: 0 },
        }
    }

    /// The 32 bytes of the identifier.
    pub fn to_bytes(&self) -> (bytes: [u8; 32])
        ensures
            le_value(bytes@.subrange(0, 16)) == self.key_spec().0,
            le_value(bytes@.subrange(16, 32)) == self.key_spec().1,
    {
        proof {
            lemma_pow256_16();
        }
        let mut bytes = [0u8; 32];
        match (LeBytes::<16>::try_from_u128(self.low), LeBytes::<16>::try_from_u128(self.high)) {
            (Ok(low), Ok(high)) => {
                let low_bytes = low.into_inner();
                let high_bytes = high.into_inner();
                let mut i: usize = 0;
                while i < 16
                    invariant
                        i <= 16,
                        forall|j: int|
                            0 <= j < i ==> bytes@[j] == low_bytes@[j] && bytes@[16 + j]
                                == high_bytes@[j],
                    decreases 16 - i,
                {
                    bytes[i] = low_bytes[i];
                    bytes[16 + i] = high_bytes[i];
                    i += 1;
                }
                proof {
                    assert(bytes@.subrange(0, 16) =~= low@);
                    assert(bytes@.subrange(16, 32) =~= high@);
                }
            },
            _ => {},
        }
        bytes
    }

    /// Two strings of 32 bytes whose halves stand for the same numbers, and
    /// so give the same identifier, are the same string.
    pub proof fn lemma_bytes_determine(a: Seq<u8>, b: Seq<u8>)
        requires
            a.len() == 32,
            b.len() == 32,
            le_value(a.subrange(0, 16)) == le_value(b.subrange(0, 16)),
            le_value(a.subrange(16, 32)) == le_value(b.subrange(16, 32)),
        ensures
            a == b,
    {
        lemma_le_value_injective(a.subrange(0, 16), b.subrange(0, 16));
        lemma_le_value_injective(a.subrange(16, 32), b.subrange(16, 32));
        assert forall|i: int| 0 <= i < 32 implies a[i] == b[i] by {
            if i < 16 {
                assert(a[i] == a.subrange(0, 16)[i]);
                assert(b[i] == b.subrange(0, 16)[i]);
            } else {
                assert(a[i] == a.subrange(16, 32)[i - 16]);
                assert(b[i] == b.subrange(16, 32)[i - 16]);
            }
        }
        assert(a =~= b);
    }
}

impl Zero for ActorId {
    /// The identifier of all zero bits.
    closed spec fn zero_spec() -> Self {
        ActorId { low: 0, high: 0 }
    }

    fn zero() -> (z: Self) {
        ActorId { low: 0, high: 0 }
    }

    fn is_zero(&self) -> (b: bool) {
        self.low == 0 && self.high == 0
    }
}

impl Min for ActorId {
    /// The identifier of all zero bits.
    closed spec fn min_spec() -> Self {
        ActorId { low: 0, high: 0 }
    }

    fn min_value() -> (m: Self) {
        ActorId { low: 0, high: 0 }
    }

    fn is_min(&self) -> (b: bool) {
        self.low == 0 && self.high == 0
    }
}

impl Max for ActorId {
    /// The identifier of all one bits.
    closed spec fn max_spec() -> Self {
        ActorId { low: u128::MAX, high: u128::MAX }
    }

    fn max_value() -> (m: Self) {
        ActorId { low: u128::MAX, high: u128::MAX }
    }

    fn is_max(&self) -> (b: bool) {
        self.low == u128::MAX && self.high == u128::MAX
    }
}

impl One for ActorId {
    /// The identifier whose byte 12 is `1` and whose other bytes are zero.
    closed spec fn one_spec() -> Self {
        ActorId { low: 0x1_0000_0000_0000_0000_0000_0000, high: 0 }
    }

    fn one() -> (o: Self) {
        ActorId { low: 0x1_0000_0000_0000_0000_0000_0000, high: 0 }
    }

    fn is_one(&self) -> (b: bool) {
        self.low == 0x1_0000_0000_0000_0000_0000_0000 && self.high == 0
    }
}

impl ActorId {
    /// The zero identifier is the one whose halves are both zero.
    pub proof fn lemma_zero_key()
        ensures
            Self::zero_spec().key_spec() == (0u128, 0u128),
    {
    }
}

} // verus!
