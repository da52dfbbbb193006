//! The amount types of the ledgers.
//!
//! Inside, a ledger keeps amounts in a narrow type picked for the deployment;
//! its totals are kept in [`U256`], which is wide enough for any sum that the
//! ledger can reach. An [`Amount`] is a type that can be kept inside: unsigned,
//! and convertible to [`U256`] without loss.
use crate::le_bytes::{lemma_pow256_16, lemma_pow256_monotonic, pow256, LeBytes};
use crate::math::{CheckedMath, Math, Zero};
use vstd::prelude::*;

verus! {

/// The wide integer of the totals: 256 bits.
pub type U256 = LeBytes<32>;

/// The amount type of balances: 80 bits.
pub type Balance = LeBytes<10>;

/// The amount type of allowances: 72 bits.
pub type Allowance = LeBytes<9>;

/// An unsigned numeric type no wider than [`U256`].
pub trait Amount: Math {
    /// No amount is negative.
    proof fn lemma_unsigned()
        ensures
            Self::min_int() == 0,
    ;

    /// The same number as a [`U256`].
    fn widen(self) -> (w: U256)
        ensures
            w.value() == self.as_int(),
    ;
}

/// A number of at most 32 bytes, padded with zero bytes to 32.
fn widen_bytes<const N: usize>(v: LeBytes<N>) -> (w: U256)
    requires
        N <= 32,
    ensures
        w.value() == v.value(),
{
    match v.try_resize::<32>() {
        Ok(w) => w,
        Err(_) => U256::zero(),
    }
}

/// A number of 128 bits as a [`U256`].
fn widen_u128(v: u128) -> (w: U256)
    ensures
        w.value() == v,
{
    proof {
        lemma_pow256_16();
        lemma_pow256_monotonic(16, 32);
    }
    match U256::try_from_u128(v) {
        Ok(w) => w,
        Err(_) => U256::zero(),
    }
}

impl Amount for LeBytes<32> {
    proof fn lemma_unsigned() {
    }

    fn widen(self) -> (w: U256) {
        self
    }
}

impl Amount for LeBytes<10> {
    proof fn lemma_unsigned() {
    }

    fn widen(self) -> (w: U256) {
        widen_bytes(self)
    }
}

impl Amount for LeBytes<9> {
    proof fn lemma_unsigned() {
    }

    fn widen(self) -> (w: U256) {
        widen_bytes(self)
    }
}

impl Amount for u8 {
    proof fn lemma_unsigned() {
    }

    fn widen(self) -> (w: U256) {
        widen_u128(self as u128)
    }
}

impl Amount for u16 {
    proof fn lemma_unsigned() {
    }

    fn widen(self) -> (w: U256) {
        widen_u128(self as u128)
    }
}

impl Amount for u32 {
    proof fn lemma_unsigned() {
    }

    fn widen(self) -> (w: U256) {
        widen_u128(self as u128)
    }
}

impl Amount for u64 {
    proof fn lemma_unsigned() {
    }

    fn widen(self) -> (w: U256) {
        widen_u128(self as u128)
    }
}

impl Amount for usize {
    proof fn lemma_unsigned() {
    }

    fn widen(self) -> (w: U256) {
        widen_u128(self as u128)
    }
}

impl Amount for u128 {
    proof fn lemma_unsigned() {
    }

    fn widen(self) -> (w: U256) {
        widen_u128(self)
    }
}

/// The allowance that stands for a balance: the same number where it fits in
/// an [`Allowance`], else the greatest allowance, which means "without limit".
pub fn allowance_from_balance(value: Balance) -> (r: Allowance)
    ensures
        r.value() == (if value.value() < pow256(9) {
            value.value()
        } else {
            (pow256(9) - 1) as nat
        }),
{
    match value.try_resize::<9>() {
        Ok(r) => r,
        Err(_) => {
            proof {
                <Allowance as Math>::lemma_constants();
            }
            <Allowance as crate::math::Max>::max_value()
        },
    }
}

/// The balance that stands for a number of 64 bits.
pub fn balance_from_u64(value: u64) -> (r: Balance)
    ensures
        r.value() == value,
{
    proof {
        lemma_pow256_16();
        lemma_pow256_monotonic(8, 10);
    }
    match Balance::try_from_u128(value as u128) {
        Ok(r) => r,
        Err(_) => Balance::zero(),
    }
}

} // verus!
