//! Checked arithmetic over an integer model.
//!
//! Every numeric type of the ledger stands for a mathematical integer
//! ([`CheckedMath::as_int`]) inside a closed range. The checked operations are
//! stated over that integer, so that code generic in the amount type can be
//! verified once.
use vstd::prelude::*;

verus! {

/// An addition or a conversion left the representable range at its upper end.
#[derive(Clone, Copy, Debug, Default, PartialEq, Eq, Structural, PartialOrd, Ord, Hash)]
pub struct OverflowError;

/// A subtraction left the representable range at its lower end.
#[derive(Clone, Copy, Debug, Default, PartialEq, Eq, Structural, PartialOrd, Ord, Hash)]
pub struct UnderflowError;

/// A value that must not be zero was zero.
#[derive(Clone, Copy, Debug, Default, PartialEq, Eq, Structural, PartialOrd, Ord, Hash)]
pub struct ZeroError;

/// Any failure of arithmetic on non-zero values.
#[derive(Clone, Copy, Debug, PartialEq, Eq, Structural, PartialOrd, Ord, Hash)]
pub enum MathError {
    Overflow(OverflowError),
    Underflow(UnderflowError),
    Zero(ZeroError),
}

impl OverflowError {
    /// The text shown for this error.
    pub fn message(&self) -> (s: String)
        ensures
            s@ == "mathematical overflow"@,
    {
        "mathematical overflow".to_string()
    }
}

impl UnderflowError {
    /// The text shown for this error.
    pub fn message(&self) -> (s: String)
        ensures
            s@ == "mathematical underflow"@,
    {
        "mathematical underflow".to_string()
    }
}

impl ZeroError {
    /// The text shown for this error.
    pub fn message(&self) -> (s: String)
        ensures
            s@ == "zero error"@,
    {
        "zero error".to_string()
    }
}

impl MathError {
    /// The text of the error that this one wraps.
    pub fn message(&self) -> (s: String)
        ensures
            s@ == match *self {
                MathError::Overflow(_) => "mathematical overflow"@,
                MathError::Underflow(_) => "mathematical underflow"@,
                MathError::Zero(_) => "zero error"@,
            },
    {
        match self {
            MathError::Overflow(e) => e.message(),
            MathError::Underflow(e) => e.message(),
            MathError::Zero(e) => e.message(),
        }
    }
}

/// A type with a greatest value.
pub trait Max: Sized {
    /// The greatest value of the type.
    spec fn max_spec() -> Self;

    /// Returns the greatest value of the type.
    fn max_value() -> (m: Self)
        ensures
            m == Self::max_spec(),
    ;

    /// Whether `self` is the greatest value.
    fn is_max(&self) -> (b: bool)
        ensures
            b == (*self == Self::max_spec()),
    ;
}

/// A type with a least value.
pub trait Min: Sized {
    /// The least value of the type.
    spec fn min_spec() -> Self;

    /// Returns the least value of the type.
    fn min_value() -> (m: Self)
        ensures
            m == Self::min_spec(),
    ;

    /// Whether `self` is the least value.
    fn is_min(&self) -> (b: bool)
        ensures
            b == (*self == Self::min_spec()),
    ;
}

/// A type with a distinguished unit value.
pub trait One: Sized {
    /// The unit value of the type.
    spec fn one_spec() -> Self;

    /// Returns the unit value of the type.
    fn one() -> (o: Self)
        ensures
            o == Self::one_spec(),
    ;

    /// Whether `self` is the unit value.
    fn is_one(&self) -> (b: bool)
        ensures
            b == (*self == Self::one_spec()),
    ;
}

/// A type with a distinguished zero value.
pub trait Zero: Sized {
    /// The zero value of the type.
    spec fn zero_spec() -> Self;

    /// Returns the zero value of the type.
    fn zero() -> (z: Self)
        ensures
            z == Self::zero_spec(),
    ;

    /// Whether `self` is the zero value.
    fn is_zero(&self) -> (b: bool)
        ensures
            b == (*self == Self::zero_spec()),
    ;
}

/// Addition and subtraction that report leaving the type's range instead of
/// wrapping.
///
/// A value stands for the integer [`as_int`](CheckedMath::as_int), which lies
/// between [`min_int`](CheckedMath::min_int) and
/// [`max_int`](CheckedMath::max_int) and determines the value.
pub trait CheckedMath: Sized {
    /// The integer that `self` stands for.
    spec fn as_int(self) -> int;

    /// The least integer that the type can hold.
    spec fn min_int() -> int;

    /// The greatest integer that the type can hold.
    spec fn max_int() -> int;

    /// Every value lies in the range of its type.
    proof fn lemma_in_range(self)
        ensures
            Self::min_int() <= self.as_int() <= Self::max_int(),
    ;

    /// Two values that stand for the same integer are the same value.
    proof fn lemma_as_int_injective(a: Self, b: Self)
        requires
            a.as_int() == b.as_int(),
        ensures
            a == b,
    ;

    /// `self + rhs`, or `None` where the sum leaves the range.
    fn checked_add(self, rhs: Self) -> (r: Option<Self>)
        ensures
            r is Some <==> Self::min_int() <= self.as_int() + rhs.as_int() <= Self::max_int(),
            r is Some ==> r->0.as_int() == self.as_int() + rhs.as_int(),
    ;

    /// `self - rhs`, or `None` where the difference leaves the range.
    fn checked_sub(self, rhs: Self) -> (r: Option<Self>)
        ensures
            r is Some <==> Self::min_int() <= self.as_int() - rhs.as_int() <= Self::max_int(),
            r is Some ==> r->0.as_int() == self.as_int() - rhs.as_int(),
    ;

    /// `self + rhs`, or [`OverflowError`] where the sum leaves the range.
    fn checked_add_err(self, rhs: Self) -> (r: Result<Self, OverflowError>)
        ensures
            r is Ok <==> Self::min_int() <= self.as_int() + rhs.as_int() <= Self::max_int(),
            r is Ok ==> r->Ok_0.as_int() == self.as_int() + rhs.as_int(),
    {
        match self.checked_add(rhs) {
            Some(sum) => Ok(sum),
            None => Err(OverflowError),
        }
    }

    /// `self - rhs`, or [`UnderflowError`] where the difference leaves the range.
    fn checked_sub_err(self, rhs: Self) -> (r: Result<Self, UnderflowError>)
        ensures
            r is Ok <==> Self::min_int() <= self.as_int() - rhs.as_int() <= Self::max_int(),
            r is Ok ==> r->Ok_0.as_int() == self.as_int() - rhs.as_int(),
    {
        match self.checked_sub(rhs) {
            Some(difference) => Ok(difference),
            None => Err(UnderflowError),
        }
    }
}

/// The numeric types of the ledger: checked arithmetic whose distinguished
/// values are the integers one expects, ordered as integers are.
pub trait Math: Max + Min + One + Zero + CheckedMath + Copy {
    /// Zero stands for 0, the extremes for the ends of the range, and the unit
    /// for 1 wherever the range holds 1.
    proof fn lemma_constants()
        ensures
            Self::zero_spec().as_int() == 0,
            Self::min_spec().as_int() == Self::min_int(),
            Self::max_spec().as_int() == Self::max_int(),
            Self::max_int() >= 1 ==> Self::one_spec().as_int() == 1,
    ;

    /// Whether `self` is not less than `floor`.
    fn at_least(&self, floor: &Self) -> (b: bool)
        ensures
            b == (self.as_int() >= floor.as_int()),
    ;
}

impl Max for u8 {
    open spec fn max_spec() -> Self {
        u8::MAX
    }

    fn max_value() -> (m: Self) {
        u8::MAX
    }

    fn is_max(&self) -> (b: bool) {
        *self == u8::MAX
    }
}

impl Min for u8 {
    open spec fn min_spec() -> Self {
        u8::MIN
    }

    fn min_value() -> (m: Self) {
        u8::MIN
    }

    fn is_min(&self) -> (b: bool) {
        *self == u8::MIN
    }
}

impl One for u8 {
    open spec fn one_spec() -> Self {
        1
    }

    fn one() -> (o: Self) {
        1
    }

    fn is_one(&self) -> (b: bool) {
        *self == 1
    }
}

impl Zero for u8 {
    open spec fn zero_spec() -> Self {
        0
    }

    fn zero() -> (z: Self) {
        0
    }

    fn is_zero(&self) -> (b: bool) {
        *self == 0
    }
}

impl CheckedMath for u8 {
    open spec fn as_int(self) -> int {
        self as int
    }

    open spec fn min_int() -> int {
        u8::MIN as int
    }

    open spec fn max_int() -> int {
        u8::MAX as int
    }

    proof fn lemma_in_range(self) {
    }

    proof fn lemma_as_int_injective(a: Self, b: Self) {
    }

    fn checked_add(self, rhs: Self) -> (r: Option<Self>) {
        self.checked_add(rhs)
    }

    fn checked_sub(self, rhs: Self) -> (r: Option<Self>) {
        self.checked_sub(rhs)
    }
}

impl Math for u8 {
    proof fn lemma_constants() {
    }

    fn at_least(&self, floor: &Self) -> (b: bool) {
        *self >= *floor
    }
}

impl Max for u16 {
    open spec fn max_spec() -> Self {
        u16::MAX
    }

    fn max_value() -> (m: Self) {
        u16::MAX
    }

    fn is_max(&self) -> (b: bool) {
        *self == u16::MAX
    }
}

impl Min for u16 {
    open spec fn min_spec() -> Self {
        u16::MIN
    }

    fn min_value() -> (m: Self) {
        u16::MIN
    }

    fn is_min(&self) -> (b: bool) {
        *self == u16::MIN
    }
}

impl One for u16 {
    open spec fn one_spec() -> Self {
        1
    }

    fn one() -> (o: Self) {
        1
    }

    fn is_one(&self) -> (b: bool) {
        *self == 1
    }
}

impl Zero for u16 {
    open spec fn zero_spec() -> Self {
        0
    }

    fn zero() -> (z: Self) {
        0
    }

    fn is_zero(&self) -> (b: bool) {
        *self == 0
    }
}

impl CheckedMath for u16 {
    open spec fn as_int(self) -> int {
        self as int
    }

    open spec fn min_int() -> int {
        u16::MIN as int
    }

    open spec fn max_int() -> int {
        u16::MAX as int
    }

    proof fn lemma_in_range(self) {
    }

    proof fn lemma_as_int_injective(a: Self, b: Self) {
    }

    fn checked_add(self, rhs: Self) -> (r: Option<Self>) {
        self.checked_add(rhs)
    }

    fn checked_sub(self, rhs: Self) -> (r: Option<Self>) {
        self.checked_sub(rhs)
    }
}

impl Math for u16 {
    proof fn lemma_constants() {
    }

    fn at_least(&self, floor: &Self) -> (b: bool) {
        *self >= *floor
    }
}

impl Max for u32 {
    open spec fn max_spec() -> Self {
        u32::MAX
    }

    fn max_value() -> (m: Self) {
        u32::MAX
    }

    fn is_max(&self) -> (b: bool) {
        *self == u32::MAX
    }
}

impl Min for u32 {
    open spec fn min_spec() -> Self {
        u32::MIN
    }

    fn min_value() -> (m: Self) {
        u32::MIN
    }

    fn is_min(&self) -> (b: bool) {
        *self == u32::MIN
    }
}

impl One for u32 {
    open spec fn one_spec() -> Self {
        1
    }

    fn one() -> (o: Self) {
        1
    }

    fn is_one(&self) -> (b: bool) {
        *self == 1
    }
}

impl Zero for u32 {
    open spec fn zero_spec() -> Self {
        0
    }

    fn zero() -> (z: Self) {
        0
    }

    fn is_zero(&self) -> (b: bool) {
        *self == 0
    }
}

impl CheckedMath for u32 {
    open spec fn as_int(self) -> int {
        self as int
    }

    open spec fn min_int() -> int {
        u32::MIN as int
    }

    open spec fn max_int() -> int {
        u32::MAX as int
    }

    proof fn lemma_in_range(self) {
    }

    proof fn lemma_as_int_injective(a: Self, b: Self) {
    }

    fn checked_add(self, rhs: Self) -> (r: Option<Self>) {
        self.checked_add(rhs)
    }

    fn checked_sub(self, rhs: Self) -> (r: Option<Self>) {
        self.checked_sub(rhs)
    }
}

impl Math for u32 {
    proof fn lemma_constants() {
    }

    fn at_least(&self, floor: &Self) -> (b: bool) {
        *self >= *floor
    }
}

impl Max for u64 {
    open spec fn max_spec() -> Self {
        u64::MAX
    }

    fn max_value() -> (m: Self) {
        u64::MAX
    }

    fn is_max(&self) -> (b: bool) {
        *self == u64::MAX
    }
}

impl Min for u64 {
    open spec fn min_spec() -> Self {
        u64::MIN
    }

    fn min_value() -> (m: Self) {
        u64::MIN
    }

    fn is_min(&self) -> (b: bool) {
        *self == u64::MIN
    }
}

impl One for u64 {
    open spec fn one_spec() -> Self {
        1
    }

    fn one() -> (o: Self) {
        1
    }

    fn is_one(&self) -> (b: bool) {
        *self == 1
    }
}

impl Zero for u64 {
    open spec fn zero_spec() -> Self {
        0
    }

    fn zero() -> (z: Self) {
        0
    }

    fn is_zero(&self) -> (b: bool) {
        *self == 0
    }
}

impl CheckedMath for u64 {
    open spec fn as_int(self) -> int {
        self as int
    }

    open spec fn min_int() -> int {
        u64::MIN as int
    }

    open spec fn max_int() -> int {
        u64::MAX as int
    }

    proof fn lemma_in_range(self) {
    }

    proof fn lemma_as_int_injective(a: Self, b: Self) {
    }

    fn checked_add(self, rhs: Self) -> (r: Option<Self>) {
        self.checked_add(rhs)
    }

    fn checked_sub(self, rhs: Self) -> (r: Option<Self>) {
        self.checked_sub(rhs)
    }
}

impl Math for u64 {
    proof fn lemma_constants() {
    }

    fn at_least(&self, floor: &Self) -> (b: bool) {
        *self >= *floor
    }
}

impl Max for u128 {
    open spec fn max_spec() -> Self {
        u128::MAX
    }

    fn max_value() -> (m: Self) {
        u128::MAX
    }

    fn is_max(&self) -> (b: bool) {
        *self == u128::MAX
    }
}

impl Min for u128 {
    open spec fn min_spec() -> Self {
        u128::MIN
    }

    fn min_value() -> (m: Self) {
        u128::MIN
    }

    fn is_min(&self) -> (b: bool) {
        *self == u128::MIN
    }
}

impl One for u128 {
    open spec fn one_spec() -> Self {
        1
    }

    fn one() -> (o: Self) {
        1
    }

    fn is_one(&self) -> (b: bool) {
        *self == 1
    }
}

impl Zero for u128 {
    open spec fn zero_spec() -> Self {
        0
    }

    fn zero() -> (z: Self) {
        0
    }

    fn is_zero(&self) -> (b: bool) {
        *self == 0
    }
}

impl CheckedMath for u128 {
    open spec fn as_int(self) -> int {
        self as int
    }

    open spec fn min_int() -> int {
        u128::MIN as int
    }

    open spec fn max_int() -> int {
        u128::MAX as int
    }

    proof fn lemma_in_range(self) {
    }

    proof fn lemma_as_int_injective(a: Self, b: Self) {
    }

    fn checked_add(self, rhs: Self) -> (r: Option<Self>) {
        self.checked_add(rhs)
    }

    fn checked_sub(self, rhs: Self) -> (r: Option<Self>) {
        self.checked_sub(rhs)
    }
}

impl Math for u128 {
    proof fn lemma_constants() {
    }

    fn at_least(&self, floor: &Self) -> (b: bool) {
        *self >= *floor
    }
}

impl Max for usize {
    open spec fn max_spec() -> Self {
        usize::MAX
    }

    fn max_value() -> (m: Self) {
        usize::MAX
    }

    fn is_max(&self) -> (b: bool) {
        *self == usize::MAX
    }
}

impl Min for usize {
    open spec fn min_spec() -> Self {
        usize::MIN
    }

    fn min_value() -> (m: Self) {
        usize::MIN
    }

    fn is_min(&self) -> (b: bool) {
        *self == usize::MIN
    }
}

impl One for usize {
    open spec fn one_spec() -> Self {
        1
    }

    fn one() -> (o: Self) {
        1
    }

    fn is_one(&self) -> (b: bool) {
        *self == 1
    }
}

impl Zero for usize {
    open spec fn zero_spec() -> Self {
        0
    }

    fn zero() -> (z: Self) {
        0
    }

    fn is_zero(&self) -> (b: bool) {
        *self == 0
    }
}

impl CheckedMath for usize {
    open spec fn as_int(self) -> int {
        self as int
    }

    open spec fn min_int() -> int {
        usize::MIN as int
    }

    open spec fn max_int() -> int {
        usize::MAX as int
    }

    proof fn lemma_in_range(self) {
    }

    proof fn lemma_as_int_injective(a: Self, b: Self) {
    }

    fn checked_add(self, rhs: Self) -> (r: Option<Self>) {
        self.checked_add(rhs)
    }

    fn checked_sub(self, rhs: Self) -> (r: Option<Self>) {
        self.checked_sub(rhs)
    }
}

impl Math for usize {
    proof fn lemma_constants() {
    }

    fn at_least(&self, floor: &Self) -> (b: bool) {
        *self >= *floor
    }
}

impl Max for i8 {
    open spec fn max_spec() -> Self {
        i8::MAX
    }

    fn max_value() -> (m: Self) {
        i8::MAX
    }

    fn is_max(&self) -> (b: bool) {
        *self == i8::MAX
    }
}

impl Min for i8 {
    open spec fn min_spec() -> Self {
        i8::MIN
    }

    fn min_value() -> (m: Self) {
        i8::MIN
    }

    fn is_min(&self) -> (b: bool) {
        *self == i8::MIN
    }
}

impl One for i8 {
    open spec fn one_spec() -> Self {
        1
    }

    fn one() -> (o: Self) {
        1
    }

    fn is_one(&self) -> (b: bool) {
        *self == 1
    }
}

impl Zero for i8 {
    open spec fn zero_spec() -> Self {
        0
    }

    fn zero() -> (z: Self) {
        0
    }

    fn is_zero(&self) -> (b: bool) {
        *self == 0
    }
}

impl CheckedMath for i8 {
    open spec fn as_int(self) -> int {
        self as int
    }

    open spec fn min_int() -> int {
        i8::MIN as int
    }

    open spec fn max_int() -> int {
        i8::MAX as int
    }

    proof fn lemma_in_range(self) {
    }

    proof fn lemma_as_int_injective(a: Self, b: Self) {
    }

    fn checked_add(self, rhs: Self) -> (r: Option<Self>) {
        self.checked_add(rhs)
    }

    fn checked_sub(self, rhs: Self) -> (r: Option<Self>) {
        self.checked_sub(rhs)
    }
}

impl Math for i8 {
    proof fn lemma_constants() {
    }

    fn at_least(&self, floor: &Self) -> (b: bool) {
        *self >= *floor
    }
}

impl Max for i16 {
    open spec fn max_spec() -> Self {
        i16::MAX
    }

    fn max_value() -> (m: Self) {
        i16::MAX
    }

    fn is_max(&self) -> (b: bool) {
        *self == i16::MAX
    }
}

impl Min for i16 {
    open spec fn min_spec() -> Self {
        i16::MIN
    }

    fn min_value() -> (m: Self) {
        i16::MIN
    }

    fn is_min(&self) -> (b: bool) {
        *self == i16::MIN
    }
}

impl One for i16 {
    open spec fn one_spec() -> Self {
        1
    }

    fn one() -> (o: Self) {
        1
    }

    fn is_one(&self) -> (b: bool) {
        *self == 1
    }
}

impl Zero for i16 {
    open spec fn zero_spec() -> Self {
        0
    }

    fn zero() -> (z: Self) {
        0
    }

    fn is_zero(&self) -> (b: bool) {
        *self == 0
    }
}

impl CheckedMath for i16 {
    open spec fn as_int(self) -> int {
        self as int
    }

    open spec fn min_int() -> int {
        i16::MIN as int
    }

    open spec fn max_int() -> int {
        i16::MAX as int
    }

    proof fn lemma_in_range(self) {
    }

    proof fn lemma_as_int_injective(a: Self, b: Self) {
    }

    fn checked_add(self, rhs: Self) -> (r: Option<Self>) {
        self.checked_add(rhs)
    }

    fn checked_sub(self, rhs: Self) -> (r: Option<Self>) {
        self.checked_sub(rhs)
    }
}

impl Math for i16 {
    proof fn lemma_constants() {
    }

    fn at_least(&self, floor: &Self) -> (b: bool) {
        *self >= *floor
    }
}

impl Max for i32 {
    open spec fn max_spec() -> Self {
        i32::MAX
    }

    fn max_value() -> (m: Self) {
        i32::MAX
    }

    fn is_max(&self) -> (b: bool) {
        *self == i32::MAX
    }
}

impl Min for i32 {
    open spec fn min_spec() -> Self {
        i32::MIN
    }

    fn min_value() -> (m: Self) {
        i32::MIN
    }

    fn is_min(&self) -> (b: bool) {
        *self == i32::MIN
    }
}

impl One for i32 {
    open spec fn one_spec() -> Self {
        1
    }

    fn one() -> (o: Self) {
        1
    }

    fn is_one(&self) -> (b: bool) {
        *self == 1
    }
}

impl Zero for i32 {
    open spec fn zero_spec() -> Self {
        0
    }

    fn zero() -> (z: Self) {
        0
    }

    fn is_zero(&self) -> (b: bool) {
        *self == 0
    }
}

impl CheckedMath for i32 {
    open spec fn as_int(self) -> int {
        self as int
    }

    open spec fn min_int() -> int {
        i32::MIN as int
    }

    open spec fn max_int() -> int {
        i32::MAX as int
    }

    proof fn lemma_in_range(self) {
    }

    proof fn lemma_as_int_injective(a: Self, b: Self) {
    }

    fn checked_add(self, rhs: Self) -> (r: Option<Self>) {
        self.checked_add(rhs)
    }

    fn checked_sub(self, rhs: Self) -> (r: Option<Self>) {
        self.checked_sub(rhs)
    }
}

impl Math for i32 {
    proof fn lemma_constants() {
    }

    fn at_least(&self, floor: &Self) -> (b: bool) {
        *self >= *floor
    }
}

impl Max for i64 {
    open spec fn max_spec() -> Self {
        i64::MAX
    }

    fn max_value() -> (m: Self) {
        i64::MAX
    }

    fn is_max(&self) -> (b: bool) {
        *self == i64::MAX
    }
}

impl Min for i64 {
    open spec fn min_spec() -> Self {
        i64::MIN
    }

    fn min_value() -> (m: Self) {
        i64::MIN
    }

    fn is_min(&self) -> (b: bool) {
        *self == i64::MIN
    }
}

impl One for i64 {
    open spec fn one_spec() -> Self {
        1
    }

    fn one() -> (o: Self) {
        1
    }

    fn is_one(&self) -> (b: bool) {
        *self == 1
    }
}

impl Zero for i64 {
    open spec fn zero_spec() -> Self {
        0
    }

    fn zero() -> (z: Self) {
        0
    }

    fn is_zero(&self) -> (b: bool) {
        *self == 0
    }
}

impl CheckedMath for i64 {
    open spec fn as_int(self) -> int {
        self as int
    }

    open spec fn min_int() -> int {
        i64::MIN as int
    }

    open spec fn max_int() -> int {
        i64::MAX as int
    }

    proof fn lemma_in_range(self) {
    }

    proof fn lemma_as_int_injective(a: Self, b: Self) {
    }

    fn checked_add(self, rhs: Self) -> (r: Option<Self>) {
        self.checked_add(rhs)
    }

    fn checked_sub(self, rhs: Self) -> (r: Option<Self>) {
        self.checked_sub(rhs)
    }
}

impl Math for i64 {
    proof fn lemma_constants() {
    }

    fn at_least(&self, floor: &Self) -> (b: bool) {
        *self >= *floor
    }
}

impl Max for i128 {
    open spec fn max_spec() -> Self {
        i128::MAX
    }

    fn max_value() -> (m: Self) {
        i128::MAX
    }

    fn is_max(&self) -> (b: bool) {
        *self == i128::MAX
    }
}

impl Min for i128 {
    open spec fn min_spec() -> Self {
        i128::MIN
    }

    fn min_value() -> (m: Self) {
        i128::MIN
    }

    fn is_min(&self) -> (b: bool) {
        *self == i128::MIN
    }
}

impl One for i128 {
    open spec fn one_spec() -> Self {
        1
    }

    fn one() -> (o: Self) {
        1
    }

    fn is_one(&self) -> (b: bool) {
        *self == 1
    }
}

impl Zero for i128 {
    open spec fn zero_spec() -> Self {
        0
    }

    fn zero() -> (z: Self) {
        0
    }

    fn is_zero(&self) -> (b: bool) {
        *self == 0
    }
}

impl CheckedMath for i128 {
    open spec fn as_int(self) -> int {
        self as int
    }

    open spec fn min_int() -> int {
        i128::MIN as int
    }

    open spec fn max_int() -> int {
        i128::MAX as int
    }

    proof fn lemma_in_range(self) {
    }

    proof fn lemma_as_int_injective(a: Self, b: Self) {
    }

    fn checked_add(self, rhs: Self) -> (r: Option<Self>) {
        self.checked_add(rhs)
    }

    fn checked_sub(self, rhs: Self) -> (r: Option<Self>) {
        self.checked_sub(rhs)
    }
}

impl Math for i128 {
    proof fn lemma_constants() {
    }

    fn at_least(&self, floor: &Self) -> (b: bool) {
        *self >= *floor
    }
}

impl Max for isize {
    open spec fn max_spec() -> Self {
        isize::MAX
    }

    fn max_value() -> (m: Self) {
        isize::MAX
    }

    fn is_max(&self) -> (b: bool) {
        *self == isize::MAX
    }
}

impl Min for isize {
    open spec fn min_spec() -> Self {
        isize::MIN
    }

    fn min_value() -> (m: Self) {
        isize::MIN
    }

    fn is_min(&self) -> (b: bool) {
        *self == isize::MIN
    }
}

impl One for isize {
    open spec fn one_spec() -> Self {
        1
    }

    fn one() -> (o: Self) {
        1
    }

    fn is_one(&self) -> (b: bool) {
        *self == 1
    }
}

impl Zero for isize {
    open spec fn zero_spec() -> Self {
        0
    }

    fn zero() -> (z: Self) {
        0
    }

    fn is_zero(&self) -> (b: bool) {
        *self == 0
    }
}

impl CheckedMath for isize {
    open spec fn as_int(self) -> int {
        self as int
    }

    open spec fn min_int() -> int {
        isize::MIN as int
    }

    open spec fn max_int() -> int {
        isize::MAX as int
    }

    proof fn lemma_in_range(self) {
    }

    proof fn lemma_as_int_injective(a: Self, b: Self) {
    }

    fn checked_add(self, rhs: Self) -> (r: Option<Self>) {
        self.checked_add(rhs)
    }

    fn checked_sub(self, rhs: Self) -> (r: Option<Self>) {
        self.checked_sub(rhs)
    }
}

impl Math for isize {
    proof fn lemma_constants() {
    }

    fn at_least(&self, floor: &Self) -> (b: bool) {
        *self >= *floor
    }
}

impl From<OverflowError> for MathError {
    /// An overflow as an error of arithmetic.
    fn from(e: OverflowError) -> (r: Self) {
        MathError::Overflow(e)
    }
}

impl vstd::std_specs::convert::FromSpecImpl<OverflowError> for MathError {
    open spec fn obeys_from_spec() -> bool {
        true
    }

    open spec fn from_spec(e: OverflowError) -> Self {
        MathError::Overflow(e)
    }
}

impl From<UnderflowError> for MathError {
    /// An underflow as an error of arithmetic.
    fn from(e: UnderflowError) -> (r: Self) {
        MathError::Underflow(e)
    }
}

impl vstd::std_specs::convert::FromSpecImpl<UnderflowError> for MathError {
    open spec fn obeys_from_spec() -> bool {
        true
    }

    open spec fn from_spec(e: UnderflowError) -> Self {
        MathError::Underflow(e)
    }
}

impl From<ZeroError> for MathError {
    /// A zero as an error of arithmetic.
    fn from(e: ZeroError) -> (r: Self) {
        MathError::Zero(e)
    }
}

impl vstd::std_specs::convert::FromSpecImpl<ZeroError> for MathError {
    open spec fn obeys_from_spec() -> bool {
        true
    }

    open spec fn from_spec(e: ZeroError) -> Self {
        MathError::Zero(e)
    }
}

} // verus!
