//! Values that carry the proof that they are not zero.
//!
//! A ledger keeps no entry for a zero amount, so that "there is an entry" and
//! "the amount is positive" are one fact. [`NonZero`] is the type of such
//! amounts, and of account identifiers other than the zero account.
use crate::math::{CheckedMath, MathError, OverflowError, UnderflowError, Zero, ZeroError};
use core::cmp::Ordering;
use vstd::prelude::*;
use vstd::std_specs::cmp::{PartialEqSpec, PartialOrdSpec};
use vstd::std_specs::convert::{FromSpec, TryFromSpec};

verus! {

/// A value of `T` that is not the zero of `T`.
#[derive(Debug, Hash)]
pub struct NonZero<T: Zero>(T);

impl<T: Zero + Copy> Clone for NonZero<T> {
    fn clone(&self) -> (r: Self)
        ensures
            r == *self,
    {
        *self
    }
}

impl<T: Zero + Copy> Copy for NonZero<T> {

}

impl<T: Zero> NonZero<T> {
    #[verifier::type_invariant]
    spec fn is_non_zero(self) -> bool {
        self.0 != T::zero_spec()
    }

    /// The value inside.
    pub closed spec fn value(self) -> T {
        self.0
    }

    /// The wrapped form of `value`.
    pub open spec fn with_value(value: T) -> Self {
        choose|x: Self| x.value() == value
    }

    /// A wrapped value is the wrapped form of the value inside.
    pub proof fn lemma_with_value(self)
        ensures
            Self::with_value(self.value()) == self,
    {
    }

    /// Wraps `value`, or fails with [`ZeroError`] where it is zero.
    pub fn try_new(value: T) -> (r: Result<Self, ZeroError>)
        ensures
            r is Ok <==> value != T::zero_spec(),
            r is Ok ==> r->Ok_0.value() == value,
    {
        if value.is_zero() {
            Err(ZeroError)
        } else {
            Ok(NonZero(value))
        }
    }

    /// The value inside, which is not zero.
    pub fn into_inner(self) -> (v: T)
        ensures
            v == self.value(),
            v != T::zero_spec(),
    {
        proof {
            use_type_invariant(&self);
        }
        self.0
    }

    /// The value inside, converted to `U`.
    pub fn cast<U: From<T>>(self) -> (u: U)
        ensures
            <U as FromSpec<T>>::obeys_from_spec() ==> u == <U as FromSpec<T>>::from_spec(
                self.value(),
            ),
    {
        U::from(self.0)
    }

    /// The value inside, converted to `U` where the conversion succeeds.
    pub fn try_cast<U: TryFrom<T>>(self) -> (r: Result<U, U::Error>)
        ensures
            <U as TryFromSpec<T>>::obeys_try_from_spec() ==> r == <U as TryFromSpec<
                T,
            >>::try_from_spec(self.value()),
    {
        U::try_from(self.0)
    }

    /// The same non-zero value in the type `U`. The conversion must be one
    /// that sends no value but zero to zero.
    pub fn non_zero_cast<U: Zero + From<T>>(self) -> (r: NonZero<U>)
        requires
            <U as FromSpec<T>>::obeys_from_spec(),
            <U as FromSpec<T>>::from_spec(self.value()) != U::zero_spec(),
        ensures
            r.value() == <U as FromSpec<T>>::from_spec(self.value()),
    {
        NonZero(U::from(self.0))
    }
}

impl<T: Zero + CheckedMath> NonZero<T> {
    /// The integer that the value inside stands for.
    pub open spec fn as_int(self) -> int {
        self.value().as_int()
    }

    /// The sum of two non-zero values: [`MathError::Overflow`] where it leaves
    /// the range of `T`, [`MathError::Zero`] where it is zero.
    pub fn try_add(self, rhs: Self) -> (r: Result<Self, MathError>)
        ensures
            r is Ok <==> T::min_int() <= self.as_int() + rhs.as_int() <= T::max_int()
                && self.as_int() + rhs.as_int() != T::zero_spec().as_int(),
            r is Ok ==> r->Ok_0.as_int() == self.as_int() + rhs.as_int(),
            r is Err ==> r->Err_0 == (if T::min_int() <= self.as_int() + rhs.as_int()
                <= T::max_int() {
                MathError::Zero(ZeroError)
            } else {
                MathError::Overflow(OverflowError)
            }),
    {
        match self.0.checked_add(rhs.0) {
            None => Err(MathError::Overflow(OverflowError)),
            Some(sum) => {
                if sum.is_zero() {
                    Err(MathError::Zero(ZeroError))
                } else {
                    proof {
                        if sum.as_int() == T::zero_spec().as_int() {
                            T::lemma_as_int_injective(sum, T::zero_spec());
                        }
                    }
                    Ok(NonZero(sum))
                }
            },
        }
    }

    /// The difference of two non-zero values: [`MathError::Underflow`] where
    /// it leaves the range of `T`, [`MathError::Zero`] where the two are equal.
    pub fn try_sub(self, rhs: Self) -> (r: Result<Self, MathError>)
        ensures
            r is Ok <==> T::min_int() <= self.as_int() - rhs.as_int() <= T::max_int()
                && self.as_int() - rhs.as_int() != T::zero_spec().as_int(),
            r is Ok ==> r->Ok_0.as_int() == self.as_int() - rhs.as_int(),
            r is Err ==> r->Err_0 == (if T::min_int() <= self.as_int() - rhs.as_int()
                <= T::max_int() {
                MathError::Zero(ZeroError)
            } else {
                MathError::Underflow(UnderflowError)
            }),
    {
        match self.0.checked_sub(rhs.0) {
            None => Err(MathError::Underflow(UnderflowError)),
            Some(difference) => {
                if difference.is_zero() {
                    Err(MathError::Zero(ZeroError))
                } else {
                    proof {
                        if difference.as_int() == T::zero_spec().as_int() {
                            T::lemma_as_int_injective(difference, T::zero_spec());
                        }
                    }
                    Ok(NonZero(difference))
                }
            },
        }
    }
}

impl<T: Zero + PartialOrd> PartialOrd for NonZero<T> {
    /// The order of the values inside.
    fn partial_cmp(&self, other: &Self) -> (r: Option<Ordering>) {
        self.0.partial_cmp(&other.0)
    }
}

impl<T: Zero + PartialOrd> vstd::std_specs::cmp::PartialOrdSpecImpl for NonZero<T> {
    open spec fn obeys_partial_cmp_spec() -> bool {
        T::obeys_partial_cmp_spec()
    }

    open spec fn partial_cmp_spec(&self, other: &Self) -> Option<Ordering> {
        self.value().partial_cmp_spec(&other.value())
    }
}

impl<T: Zero + PartialEq> PartialEq for NonZero<T> {
    /// Whether the values inside are equal.
    fn eq(&self, other: &Self) -> (r: bool) {
        self.0.eq(&other.0)
    }
}

impl<T: Zero + PartialEq> vstd::std_specs::cmp::PartialEqSpecImpl for NonZero<T> {
    open spec fn obeys_eq_spec() -> bool {
        T::obeys_eq_spec()
    }

    open spec fn eq_spec(&self, other: &Self) -> bool {
        self.value().eq_spec(&other.value())
    }
}

impl<T: Zero + Eq> Eq for NonZero<T> {

}

impl<T: Zero + PartialEq> PartialEq<T> for NonZero<T> {
    /// Whether the value inside is equal to `other`.
    fn eq(&self, other: &T) -> (r: bool) {
        self.0.eq(other)
    }
}

impl<T: Zero + PartialEq> vstd::std_specs::cmp::PartialEqSpecImpl<T> for NonZero<T> {
    open spec fn obeys_eq_spec() -> bool {
        T::obeys_eq_spec()
    }

    open spec fn eq_spec(&self, other: &T) -> bool {
        self.value().eq_spec(other)
    }
}

impl<T: Zero + PartialOrd> PartialOrd<T> for NonZero<T> {
    /// The order of the value inside and `other`.
    fn partial_cmp(&self, other: &T) -> (r: Option<Ordering>) {
        self.0.partial_cmp(other)
    }
}

impl<T: Zero + PartialOrd> vstd::std_specs::cmp::PartialOrdSpecImpl<T> for NonZero<T> {
    open spec fn obeys_partial_cmp_spec() -> bool {
        T::obeys_partial_cmp_spec()
    }

    open spec fn partial_cmp_spec(&self, other: &T) -> Option<Ordering> {
        self.value().partial_cmp_spec(other)
    }
}

} // verus!
