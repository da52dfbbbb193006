use awesome_sails::amount::{balance_from_u64, Amount, Balance, U256};
use awesome_sails::le_bytes::LeBytes;
use awesome_sails::math::{
    CheckedMath, Math, Max, Min, One, OverflowError, UnderflowError, Zero, ZeroError,
};
use awesome_sails::non_zero::NonZero;

type Uint64 = LeBytes<8>;
type Uint72 = LeBytes<9>;
type Uint80 = LeBytes<10>;
type Uint128 = LeBytes<16>;
type Uint256 = LeBytes<32>;
type Uint512 = LeBytes<64>;
type Uint1024 = LeBytes<128>;

#[test]
fn test_edges() {
    let max = U256::max_value();
    let one = U256::one();

    assert_eq!(max.checked_add(one), None);
    assert_eq!(U256::zero().checked_sub(one), None);

    assert_eq!(max.checked_add_err(one), Err(OverflowError));
    assert_eq!(U256::zero().checked_sub_err(one), Err(UnderflowError));
}

#[test]
fn test_exact_sizes() {
    assert_eq!(Uint64::default().encode().len(), 8);
    assert_eq!(Uint72::default().encode().len(), 9);
    assert_eq!(Uint80::default().encode().len(), 10);
    assert_eq!(Uint128::default().encode().len(), 16);
    assert_eq!(Uint256::default().encode().len(), 32);
    assert_eq!(Uint512::default().encode().len(), 64);
    assert_eq!(Uint1024::default().encode().len(), 128);
}

#[test]
fn test_basic_logic() {
    assert!(NonZero::try_new(Uint64::zero()).is_err());
    let one = NonZero::try_new(Uint64::one()).unwrap();
    let two = one.try_add(one).unwrap();

    assert_eq!(two.into_inner(), Uint64::try_from(2u128).unwrap());
    assert!(one < two);
}

#[test]
fn test_casting() {
    let one = NonZero::try_new(Uint64::one()).unwrap();

    let as_u64: u64 = one.try_cast().unwrap();
    assert_eq!(as_u64, 1);

    let as_custom: Uint64 = one.cast();
    assert_eq!(as_custom, Uint64::one());
}

#[test]
fn primitive_constants_are_the_expected_numbers() {
    assert!(u8::MAX.is_max());
    assert!(0u8.is_min());
    assert!(1u8.is_one());
    assert!(0u8.is_zero());
    assert!(i64::MIN.is_min());
    assert!(!i64::MIN.is_zero());
    assert_eq!(<u32 as Zero>::zero(), 0);
    assert_eq!(<u32 as One>::one(), 1);
    assert_eq!(<i16 as Min>::min_value(), i16::MIN);
    assert_eq!(<u128 as Max>::max_value(), u128::MAX);
}

#[test]
fn primitive_checked_math_edges() {
    assert_eq!(CheckedMath::checked_add(u8::MAX, 1), None);
    assert_eq!(CheckedMath::checked_sub(u8::MIN, 1), None);
    assert_eq!(CheckedMath::checked_add_err(u64::MAX, 1), Err(OverflowError));
    assert_eq!(CheckedMath::checked_sub_err(0u64, 1), Err(UnderflowError));
    assert_eq!(CheckedMath::checked_sub(u16::MAX, 1), Some(u16::MAX - 1));
    assert_eq!(CheckedMath::checked_add(i32::MIN, 1), Some(i32::MIN + 1));
    assert_eq!(CheckedMath::checked_add(i8::MAX, 1), None);
    assert_eq!(CheckedMath::checked_sub(i8::MIN, 1), None);
    assert_eq!(CheckedMath::checked_add_err(200u8, 55), Ok(255));
    assert_eq!(CheckedMath::checked_sub_err(-5i32, -7), Ok(2));
}

#[test]
fn primitive_order_is_the_order_of_numbers() {
    assert!(5u64.at_least(&5));
    assert!(6u64.at_least(&5));
    assert!(!4u64.at_least(&5));
    assert!((-1i8).at_least(&-2));
    assert!(!(-3i8).at_least(&-2));
}

#[test]
fn non_zero_refuses_zero_and_keeps_the_rest() {
    assert_eq!(NonZero::try_new(0u64), Err(ZeroError));
    assert_eq!(NonZero::try_new(7u64).unwrap().into_inner(), 7);
}

#[test]
fn non_zero_sum_reports_overflow() {
    let max = NonZero::try_new(u8::MAX).unwrap();
    let one = NonZero::try_new(1u8).unwrap();
    assert_eq!(
        max.try_add(one),
        Err(awesome_sails::math::MathError::Overflow(OverflowError))
    );
    assert_eq!(one.try_add(one).unwrap().into_inner(), 2);
}

#[test]
fn non_zero_sum_of_opposites_is_zero() {
    let plus = NonZero::try_new(5i32).unwrap();
    let minus = NonZero::try_new(-5i32).unwrap();
    assert_eq!(
        plus.try_add(minus),
        Err(awesome_sails::math::MathError::Zero(ZeroError))
    );
}

#[test]
fn non_zero_difference_tells_zero_from_underflow() {
    let five = NonZero::try_new(5u32).unwrap();
    let three = NonZero::try_new(3u32).unwrap();
    assert_eq!(five.try_sub(three).unwrap().into_inner(), 2);
    assert_eq!(
        five.try_sub(five),
        Err(awesome_sails::math::MathError::Zero(ZeroError))
    );
    assert_eq!(
        three.try_sub(five),
        Err(awesome_sails::math::MathError::Underflow(UnderflowError))
    );
}

#[test]
fn non_zero_casts_widen() {
    let seven = NonZero::try_new(7u32).unwrap();
    let wide: u64 = seven.cast();
    assert_eq!(wide, 7);
    let still: NonZero<u64> = seven.non_zero_cast();
    assert_eq!(still.into_inner(), 7);
    let narrow: Result<u8, _> = NonZero::try_new(300u32).unwrap().try_cast();
    assert!(narrow.is_err());
}

#[test]
fn error_texts() {
    assert_eq!(OverflowError.message(), "mathematical overflow");
    assert_eq!(UnderflowError.message(), "mathematical underflow");
    assert_eq!(ZeroError.message(), "zero error");
    assert_eq!(
        awesome_sails::math::MathError::from(ZeroError).message(),
        "zero error"
    );
    assert_eq!(
        awesome_sails::math::MathError::from(OverflowError),
        awesome_sails::math::MathError::Overflow(OverflowError)
    );
    assert_eq!(
        awesome_sails::math::MathError::from(UnderflowError),
        awesome_sails::math::MathError::Underflow(UnderflowError)
    );
}

#[test]
fn non_zero_converts_from_and_to_the_value() {
    let seven: NonZero<u64> = 7u64.try_into().unwrap();
    assert_eq!(seven.into_inner(), 7);
    assert_eq!(NonZero::<u64>::try_from(0), Err(ZeroError));
    assert_eq!(NonZero::<i8>::try_from(0), Err(ZeroError));
    assert_eq!(NonZero::<i8>::try_from(-1).map(i8::from), Ok(-1));
    let back: u64 = seven.into();
    assert_eq!(back, 7);
    let wide = NonZero::<Uint72>::try_from(Uint72::one()).unwrap();
    assert_eq!(Uint72::from(wide), Uint72::one());
    assert_eq!(NonZero::<Uint72>::try_from(Uint72::zero()), Err(ZeroError));
}

#[test]
fn non_zero_compares_with_values() {
    let ten = NonZero::try_new(10u64).unwrap();
    assert!(ten == 10u64);
    assert!(ten < 20u64);
    assert!(ten != 20u64);
    assert!(ten == NonZero::try_new(10u64).unwrap());
    assert!(ten > NonZero::try_new(9u64).unwrap());
}

#[test]
fn test_auto_try_from() {
    let w = Balance::try_from(100u128).unwrap();

    let as_u128: u128 = w.try_into().unwrap();
    assert_eq!(as_u128, 100);

    let as_u256: U256 = w.try_resize().unwrap();
    assert_eq!(as_u256, U256::try_from(100u128).unwrap());
    assert_eq!(w.widen(), as_u256);
}

#[test]
fn test_math_ops() {
    let a = Balance::try_from(10u128).unwrap();
    let b = Balance::try_from(20u128).unwrap();
    assert_eq!(a.checked_add(b).unwrap().try_into_u128(), Ok(30));

    assert_eq!(
        Balance::max_value().checked_add_err(Balance::try_from(1u128).unwrap()),
        Err(OverflowError)
    );
}

#[test]
fn test_comparisons_inner() {
    let a = NonZero::try_new(Balance::try_from(10u128).unwrap()).unwrap();
    assert!(a == Balance::try_from(10u128).unwrap());
    assert!(a < Balance::try_from(20u128).unwrap());
    assert!(a != Balance::try_from(20u128).unwrap());
}

#[test]
fn test_manual_from_works() {
    let w = balance_from_u64(42);

    let as_u128: u128 = w.try_into().unwrap();
    assert_eq!(as_u128, 42);

    let as_u256: U256 = w.widen();
    assert_eq!(as_u256, U256::try_from(42u128).unwrap());
}

#[test]
fn test_non_zero_integration() {
    let one = NonZero::try_new(balance_from_u64(1)).unwrap();
    let back: Balance = one.into();
    assert_eq!(back.try_into_u64(), Ok(1));
}
