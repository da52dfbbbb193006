use awesome_sails::actor::ActorId;
use awesome_sails::math::{Max, Min, One, Zero};
use awesome_sails::non_zero::NonZero;

#[test]
fn halves_come_from_the_bytes() {
    let mut bytes = [0u8; 32];
    bytes[0] = 1;
    bytes[15] = 2;
    bytes[16] = 3;
    bytes[31] = 4;
    let id = ActorId::from_bytes(bytes);
    assert_eq!(id.key(), (1 | 2 << 120, 3 | 4 << 120));
    assert_eq!(id.to_bytes(), bytes);
    assert_eq!(ActorId::new(1 | 2 << 120, 3 | 4 << 120), id);
}

#[test]
fn bytes_round_trip() {
    let bytes: [u8; 32] = core::array::from_fn(|i| (i as u8).wrapping_mul(73).wrapping_add(5));
    assert_eq!(ActorId::from_bytes(bytes).to_bytes(), bytes);
    let id = ActorId::new(u128::MAX - 5, 77);
    assert_eq!(ActorId::from_bytes(id.to_bytes()), id);
}

#[test]
fn distinguished_identifiers() {
    assert_eq!(ActorId::zero().to_bytes(), [0u8; 32]);
    assert_eq!(ActorId::min_value(), ActorId::zero());
    assert_eq!(ActorId::max_value().to_bytes(), [255u8; 32]);
    let mut one = [0u8; 32];
    one[12] = 1;
    assert_eq!(ActorId::one().to_bytes(), one);
    assert!(ActorId::zero().is_zero());
    assert!(ActorId::zero().is_min());
    assert!(ActorId::one().is_one());
    assert!(ActorId::max_value().is_max());
    assert!(!ActorId::new(0, 1).is_zero());
    assert!(!ActorId::new(1, 0).is_zero());
}

#[test]
fn the_zero_identifier_is_no_account() {
    assert!(NonZero::try_new(ActorId::zero()).is_err());
    assert_eq!(
        NonZero::try_new(ActorId::new(0, 1)).unwrap().into_inner(),
        ActorId::new(0, 1)
    );
}

#[test]
fn accounts_convert_to_and_from_non_zero() {
    let id = ActorId::new(5, 6);
    let account = NonZero::<ActorId>::try_from(id).unwrap();
    assert_eq!(ActorId::from(account), id);
    assert!(NonZero::<ActorId>::try_from(ActorId::zero()).is_err());
}
