//! Conversions between values and values known not to be zero.
use crate::actor::ActorId;
use crate::le_bytes::LeBytes;
use crate::math::{Zero, ZeroError};
use crate::non_zero::NonZero;
use vstd::prelude::*;

verus! {

impl TryFrom<u8> for NonZero<u8> {
    type Error = ZeroError;

    /// Wraps `value`, or fails with [`ZeroError`] where it is zero.
    fn try_from(value: u8) -> (r: Result<Self, ZeroError>) {
        match NonZero::try_new(value) {
            Ok(wrapped) => {
                proof {
                    wrapped.lemma_with_value();
                }
                Ok(wrapped)
            },
            Err(_) => Err(ZeroError),
        }
    }
}

impl vstd::std_specs::convert::TryFromSpecImpl<u8> for NonZero<u8> {
    open spec fn obeys_try_from_spec() -> bool {
        true
    }

    open spec fn try_from_spec(value: u8) -> Result<Self, Self::Error> {
        if value == <u8 as Zero>::zero_spec() {
            Err(ZeroError)
        } else {
            Ok(NonZero::with_value(value))
        }
    }
}

impl From<NonZero<u8>> for u8 {
    /// The value inside.
    fn from(value: NonZero<u8>) -> (r: Self) {
        value.into_inner()
    }
}

impl vstd::std_specs::convert::FromSpecImpl<NonZero<u8>> for u8 {
    open spec fn obeys_from_spec() -> bool {
        true
    }

    open spec fn from_spec(value: NonZero<u8>) -> Self {
        value.value()
    }
}

impl TryFrom<u16> for NonZero<u16> {
    type Error = ZeroError;

    /// Wraps `value`, or fails with [`ZeroError`] where it is zero.
    fn try_from(value: u16) -> (r: Result<Self, ZeroError>) {
        match NonZero::try_new(value) {
            Ok(wrapped) => {
                proof {
                    wrapped.lemma_with_value();
                }
                Ok(wrapped)
            },
            Err(_) => Err(ZeroError),
        }
    }
}

impl vstd::std_specs::convert::TryFromSpecImpl<u16> for NonZero<u16> {
    open spec fn obeys_try_from_spec() -> bool {
        true
    }

    open spec fn try_from_spec(value: u16) -> Result<Self, Self::Error> {
        if value == <u16 as Zero>::zero_spec() {
            Err(ZeroError)
        } else {
            Ok(NonZero::with_value(value))
        }
    }
}

impl From<NonZero<u16>> for u16 {
    /// The value inside.
    fn from(value: NonZero<u16>) -> (r: Self) {
        value.into_inner()
    }
}

impl vstd::std_specs::convert::FromSpecImpl<NonZero<u16>> for u16 {
    open spec fn obeys_from_spec() -> bool {
        true
    }

    open spec fn from_spec(value: NonZero<u16>) -> Self {
        value.value()
    }
}

impl TryFrom<u32> for NonZero<u32> {
    type Error = ZeroError;

    /// Wraps `value`, or fails with [`ZeroError`] where it is zero.
    fn try_from(value: u32) -> (r: Result<Self, ZeroError>) {
        match NonZero::try_new(value) {
            Ok(wrapped) => {
                proof {
                    wrapped.lemma_with_value();
                }
                Ok(wrapped)
            },
            Err(_) => Err(ZeroError),
        }
    }
}

impl vstd::std_specs::convert::TryFromSpecImpl<u32> for NonZero<u32> {
    open spec fn obeys_try_from_spec() -> bool {
        true
    }

    open spec fn try_from_spec(value: u32) -> Result<Self, Self::Error> {
        if value == <u32 as Zero>::zero_spec() {
            Err(ZeroError)
        } else {
            Ok(NonZero::with_value(value))
        }
    }
}

impl From<NonZero<u32>> for u32 {
    /// The value inside.
    fn from(value: NonZero<u32>) -> (r: Self) {
        value.into_inner()
    }
}

impl vstd::std_specs::convert::FromSpecImpl<NonZero<u32>> for u32 {
    open spec fn obeys_from_spec() -> bool {
        true
    }

    open spec fn from_spec(value: NonZero<u32>) -> Self {
        value.value()
    }
}

impl TryFrom<u64> for NonZero<u64> {
    type Error = ZeroError;

    /// Wraps `value`, or fails with [`ZeroError`] where it is zero.
    fn try_from(value: u64) -> (r: Result<Self, ZeroError>) {
        match NonZero::try_new(value) {
            Ok(wrapped) => {
                proof {
                    wrapped.lemma_with_value();
                }
                Ok(wrapped)
            },
            Err(_) => Err(ZeroError),
        }
    }
}

impl vstd::std_specs::convert::TryFromSpecImpl<u64> for NonZero<u64> {
    open spec fn obeys_try_from_spec() -> bool {
        true
    }

    open spec fn try_from_spec(value: u64) -> Result<Self, Self::Error> {
        if value == <u64 as Zero>::zero_spec() {
            Err(ZeroError)
        } else {
            Ok(NonZero::with_value(value))
        }
    }
}

impl From<NonZero<u64>> for u64 {
    /// The value inside.
    fn from(value: NonZero<u64>) -> (r: Self) {
        value.into_inner()
    }
}

impl vstd::std_specs::convert::FromSpecImpl<NonZero<u64>> for u64 {
    open spec fn obeys_from_spec() -> bool {
        true
    }

    open spec fn from_spec(value: NonZero<u64>) -> Self {
        value.value()
    }
}

impl TryFrom<u128> for NonZero<u128> {
    type Error = ZeroError;

    /// Wraps `value`, or fails with [`ZeroError`] where it is zero.
    fn try_from(value: u128) -> (r: Result<Self, ZeroError>) {
        match NonZero::try_new(value) {
            Ok(wrapped) => {
                proof {
                    wrapped.lemma_with_value();
                }
                Ok(wrapped)
            },
            Err(_) => Err(ZeroError),
        }
    }
}

impl vstd::std_specs::convert::TryFromSpecImpl<u128> for NonZero<u128> {
    open spec fn obeys_try_from_spec() -> bool {
        true
    }

    open spec fn try_from_spec(value: u128) -> Result<Self, Self::Error> {
        if value == <u128 as Zero>::zero_spec() {
            Err(ZeroError)
        } else {
            Ok(NonZero::with_value(value))
        }
    }
}

impl From<NonZero<u128>> for u128 {
    /// The value inside.
    fn from(value: NonZero<u128>) -> (r: Self) {
        value.into_inner()
    }
}

impl vstd::std_specs::convert::FromSpecImpl<NonZero<u128>> for u128 {
    open spec fn obeys_from_spec() -> bool {
        true
    }

    open spec fn from_spec(value: NonZero<u128>) -> Self {
        value.value()
    }
}

impl TryFrom<usize> for NonZero<usize> {
    type Error = ZeroError;

    /// Wraps `value`, or fails with [`ZeroError`] where it is zero.
    fn try_from(value: usize) -> (r: Result<Self, ZeroError>) {
        match NonZero::try_new(value) {
            Ok(wrapped) => {
                proof {
                    wrapped.lemma_with_value();
                }
                Ok(wrapped)
            },
            Err(_) => Err(ZeroError),
        }
    }
}

impl vstd::std_specs::convert::TryFromSpecImpl<usize> for NonZero<usize> {
    open spec fn obeys_try_from_spec() -> bool {
        true
    }

    open spec fn try_from_spec(value: usize) -> Result<Self, Self::Error> {
        if value == <usize as Zero>::zero_spec() {
            Err(ZeroError)
        } else {
            Ok(NonZero::with_value(value))
        }
    }
}

impl From<NonZero<usize>> for usize {
    /// The value inside.
    fn from(value: NonZero<usize>) -> (r: Self) {
        value.into_inner()
    }
}

impl vstd::std_specs::convert::FromSpecImpl<NonZero<usize>> for usize {
    open spec fn obeys_from_spec() -> bool {
        true
    }

    open spec fn from_spec(value: NonZero<usize>) -> Self {
        value.value()
    }
}

impl TryFrom<i8> for NonZero<i8> {
    type Error = ZeroError;

    /// Wraps `value`, or fails with [`ZeroError`] where it is zero.
    fn try_from(value: i8) -> (r: Result<Self, ZeroError>) {
        match NonZero::try_new(value) {
            Ok(wrapped) => {
                proof {
                    wrapped.lemma_with_value();
                }
                Ok(wrapped)
            },
            Err(_) => Err(ZeroError),
        }
    }
}

impl vstd::std_specs::convert::TryFromSpecImpl<i8> for NonZero<i8> {
    open spec fn obeys_try_from_spec() -> bool {
        true
    }

    open spec fn try_from_spec(value: i8) -> Result<Self, Self::Error> {
        if value == <i8 as Zero>::zero_spec() {
            Err(ZeroError)
        } else {
            Ok(NonZero::with_value(value))
        }
    }
}

impl From<NonZero<i8>> for i8 {
    /// The value inside.
    fn from(value: NonZero<i8>) -> (r: Self) {
        value.into_inner()
    }
}

impl vstd::std_specs::convert::FromSpecImpl<NonZero<i8>> for i8 {
    open spec fn obeys_from_spec() -> bool {
        true
    }

    open spec fn from_spec(value: NonZero<i8>) -> Self {
        value.value()
    }
}

impl TryFrom<i16> for NonZero<i16> {
    type Error = ZeroError;

    /// Wraps `value`, or fails with [`ZeroError`] where it is zero.
    fn try_from(value: i16) -> (r: Result<Self, ZeroError>) {
        match NonZero::try_new(value) {
            Ok(wrapped) => {
                proof {
                    wrapped.lemma_with_value();
                }
                Ok(wrapped)
            },
            Err(_) => Err(ZeroError),
        }
    }
}

impl vstd::std_specs::convert::TryFromSpecImpl<i16> for NonZero<i16> {
    open spec fn obeys_try_from_spec() -> bool {
        true
    }

    open spec fn try_from_spec(value: i16) -> Result<Self, Self::Error> {
        if value == <i16 as Zero>::zero_spec() {
            Err(ZeroError)
        } else {
            Ok(NonZero::with_value(value))
        }
    }
}

impl From<NonZero<i16>> for i16 {
    /// The value inside.
    fn from(value: NonZero<i16>) -> (r: Self) {
        value.into_inner()
    }
}

impl vstd::std_specs::convert::FromSpecImpl<NonZero<i16>> for i16 {
    open spec fn obeys_from_spec() -> bool {
        true
    }

    open spec fn from_spec(value: NonZero<i16>) -> Self {
        value.value()
    }
}

impl TryFrom<i32> for NonZero<i32> {
    type Error = ZeroError;

    /// Wraps `value`, or fails with [`ZeroError`] where it is zero.
    fn try_from(value: i32) -> (r: Result<Self, ZeroError>) {
        match NonZero::try_new(value) {
            Ok(wrapped) => {
                proof {
                    wrapped.lemma_with_value();
                }
                Ok(wrapped)
            },
            Err(_) => Err(ZeroError),
        }
    }
}

impl vstd::std_specs::convert::TryFromSpecImpl<i32> for NonZero<i32> {
    open spec fn obeys_try_from_spec() -> bool {
        true
    }

    open spec fn try_from_spec(value: i32) -> Result<Self, Self::Error> {
        if value == <i32 as Zero>::zero_spec() {
            Err(ZeroError)
        } else {
            Ok(NonZero::with_value(value))
        }
    }
}

impl From<NonZero<i32>> for i32 {
    /// The value inside.
    fn from(value: NonZero<i32>) -> (r: Self) {
        value.into_inner()
    }
}

impl vstd::std_specs::convert::FromSpecImpl<NonZero<i32>> for i32 {
    open spec fn obeys_from_spec() -> bool {
        true
    }

    open spec fn from_spec(value: NonZero<i32>) -> Self {
        value.value()
    }
}

impl TryFrom<i64> for NonZero<i64> {
    type Error = ZeroError;

    /// Wraps `value`, or fails with [`ZeroError`] where it is zero.
    fn try_from(value: i64) -> (r: Result<Self, ZeroError>) {
        match NonZero::try_new(value) {
            Ok(wrapped) => {
                proof {
                    wrapped.lemma_with_value();
                }
                Ok(wrapped)
            },
            Err(_) => Err(ZeroError),
        }
    }
}

impl vstd::std_specs::convert::TryFromSpecImpl<i64> for NonZero<i64> {
    open spec fn obeys_try_from_spec() -> bool {
        true
    }

    open spec fn try_from_spec(value: i64) -> Result<Self, Self::Error> {
        if value == <i64 as Zero>::zero_spec() {
            Err(ZeroError)
        } else {
            Ok(NonZero::with_value(value))
        }
    }
}

impl From<NonZero<i64>> for i64 {
    /// The value inside.
    fn from(value: NonZero<i64>) -> (r: Self) {
        value.into_inner()
    }
}

impl vstd::std_specs::convert::FromSpecImpl<NonZero<i64>> for i64 {
    open spec fn obeys_from_spec() -> bool {
        true
    }

    open spec fn from_spec(value: NonZero<i64>) -> Self {
        value.value()
    }
}

impl TryFrom<i128> for NonZero<i128> {
    type Error = ZeroError;

    /// Wraps `value`, or fails with [`ZeroError`] where it is zero.
    fn try_from(value: i128) -> (r: Result<Self, ZeroError>) {
        match NonZero::try_new(value) {
            Ok(wrapped) => {
                proof {
                    wrapped.lemma_with_value();
                }
                Ok(wrapped)
            },
            Err(_) => Err(ZeroError),
        }
    }
}

impl vstd::std_specs::convert::TryFromSpecImpl<i128> for NonZero<i128> {
    open spec fn obeys_try_from_spec() -> bool {
        true
    }

    open spec fn try_from_spec(value: i128) -> Result<Self, Self::Error> {
        if value == <i128 as Zero>::zero_spec() {
            Err(ZeroError)
        } else {
            Ok(NonZero::with_value(value))
        }
    }
}

impl From<NonZero<i128>> for i128 {
    /// The value inside.
    fn from(value: NonZero<i128>) -> (r: Self) {
        value.into_inner()
    }
}

impl vstd::std_specs::convert::FromSpecImpl<NonZero<i128>> for i128 {
    open spec fn obeys_from_spec() -> bool {
        true
    }

    open spec fn from_spec(value: NonZero<i128>) -> Self {
        value.value()
    }
}

impl TryFrom<isize> for NonZero<isize> {
    type Error = ZeroError;

    /// Wraps `value`, or fails with [`ZeroError`] where it is zero.
    fn try_from(value: isize) -> (r: Result<Self, ZeroError>) {
        match NonZero::try_new(value) {
            Ok(wrapped) => {
                proof {
                    wrapped.lemma_with_value();
                }
                Ok(wrapped)
            },
            Err(_) => Err(ZeroError),
        }
    }
}

impl vstd::std_specs::convert::TryFromSpecImpl<isize> for NonZero<isize> {
    open spec fn obeys_try_from_spec() -> bool {
        true
    }

    open spec fn try_from_spec(value: isize) -> Result<Self, Self::Error> {
        if value == <isize as Zero>::zero_spec() {
            Err(ZeroError)
        } else {
            Ok(NonZero::with_value(value))
        }
    }
}

impl From<NonZero<isize>> for isize {
    /// The value inside.
    fn from(value: NonZero<isize>) -> (r: Self) {
        value.into_inner()
    }
}

impl vstd::std_specs::convert::FromSpecImpl<NonZero<isize>> for isize {
    open spec fn obeys_from_spec() -> bool {
        true
    }

    open spec fn from_spec(value: NonZero<isize>) -> Self {
        value.value()
    }
}

impl TryFrom<ActorId> for NonZero<ActorId> {
    type Error = ZeroError;

    /// Wraps `value`, or fails with [`ZeroError`] where it is zero.
    fn try_from(value: ActorId) -> (r: Result<Self, ZeroError>) {
        match NonZero::try_new(value) {
            Ok(wrapped) => {
                proof {
                    wrapped.lemma_with_value();
                }
                Ok(wrapped)
            },
            Err(_) => Err(ZeroError),
        }
    }
}

impl vstd::std_specs::convert::TryFromSpecImpl<ActorId> for NonZero<ActorId> {
    open spec fn obeys_try_from_spec() -> bool {
        true
    }

    open spec fn try_from_spec(value: ActorId) -> Result<Self, Self::Error> {
        if value == <ActorId as Zero>::zero_spec() {
            Err(ZeroError)
        } else {
            Ok(NonZero::with_value(value))
        }
    }
}

impl From<NonZero<ActorId>> for ActorId {
    /// The value inside.
    fn from(value: NonZero<ActorId>) -> (r: Self) {
        value.into_inner()
    }
}

impl vstd::std_specs::convert::FromSpecImpl<NonZero<ActorId>> for ActorId {
    open spec fn obeys_from_spec() -> bool {
        true
    }

    open spec fn from_spec(value: NonZero<ActorId>) -> Self {
        value.value()
    }
}

impl<const N: usize> TryFrom<LeBytes<N>> for NonZero<LeBytes<N>> {
    type Error = ZeroError;

    /// Wraps `value`, or fails with [`ZeroError`] where it is zero.
    fn try_from(value: LeBytes<N>) -> (r: Result<Self, ZeroError>) {
        match NonZero::try_new(value) {
            Ok(wrapped) => {
                proof {
                    wrapped.lemma_with_value();
                }
                Ok(wrapped)
            },
            Err(_) => Err(ZeroError),
        }
    }
}

impl<const N: usize> vstd::std_specs::convert::TryFromSpecImpl<LeBytes<N>> for NonZero<LeBytes<N>> {
    open spec fn obeys_try_from_spec() -> bool {
        true
    }

    open spec fn try_from_spec(value: LeBytes<N>) -> Result<Self, Self::Error> {
        if value == <LeBytes<N> as Zero>::zero_spec() {
            Err(ZeroError)
        } else {
            Ok(NonZero::with_value(value))
        }
    }
}

impl<const N: usize> From<NonZero<LeBytes<N>>> for LeBytes<N> {
    /// The value inside.
    fn from(value: NonZero<LeBytes<N>>) -> (r: Self) {
        value.into_inner()
    }
}

impl<const N: usize> vstd::std_specs::convert::FromSpecImpl<NonZero<LeBytes<N>>> for LeBytes<N> {
    open spec fn obeys_from_spec() -> bool {
        true
    }

    open spec fn from_spec(value: NonZero<LeBytes<N>>) -> Self {
        value.value()
    }
}

} // verus!
