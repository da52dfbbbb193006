use awesome_sails::actor::ActorId;
use awesome_sails::allowances::{Allowances, AllowancesError};
use awesome_sails::amount::Allowance;
use awesome_sails::map::ShardedMapError;
use awesome_sails::math::{Max, UnderflowError, Zero};
use awesome_sails::non_zero::NonZero;

fn account(n: u128) -> NonZero<ActorId> {
    NonZero::try_new(ActorId::new(n, n << 3)).unwrap()
}

fn amount(n: u64) -> NonZero<u64> {
    NonZero::try_new(n).unwrap()
}

fn ledger(capacities: Vec<usize>, expiry_period: u32) -> Allowances<u64> {
    let mut allowances = Allowances::try_new(capacities, expiry_period).unwrap();
    while allowances.allocate_next_shard() {}
    allowances
}

fn expiry(allowances: &Allowances<u64>, owner: NonZero<ActorId>, spender: NonZero<ActorId>) -> Option<u32> {
    let key = (owner.into_inner().key(), spender.into_inner().key());
    allowances.store().get(&key).map(|(_, entry)| entry.1)
}

#[test]
fn allowance_without_limit_is_not_spent() {
    let mut allowances = ledger(vec![7], 30);
    let (a, b) = (account(1), account(2));
    assert_eq!(allowances.set(a, b, u64::MAX, 5), Ok(None));
    assert_eq!(allowances.get(a, b), u64::MAX);
    assert_eq!(expiry(&allowances, a, b), Some(35));
    assert_eq!(allowances.decrease(a, b, amount(5), 100), Ok(()));
    assert_eq!(allowances.get(a, b), u64::MAX);
    assert_eq!(expiry(&allowances, a, b), Some(130));
}

#[test]
fn allowance_without_limit_in_seventy_two_bits() {
    let mut allowances: Allowances<Allowance> = Allowances::try_new(vec![7], 10).unwrap();
    assert!(!allowances.allocate_next_shard());
    let (a, b) = (account(1), account(2));
    let five = NonZero::try_new(Allowance::try_from_u128(5).unwrap()).unwrap();
    assert_eq!(allowances.set(a, b, Allowance::max_value(), 1), Ok(None));
    assert_eq!(allowances.decrease(a, b, five, 100), Ok(()));
    assert!(allowances.get(a, b).is_max());
    let key = (a.into_inner().key(), b.into_inner().key());
    assert_eq!(allowances.store().get(&key).map(|(_, e)| e.1), Some(110));
}

#[test]
fn allowances_construction_checks_capacities() {
    assert_eq!(
        Allowances::<u64>::try_new(vec![7, 0], 1).err(),
        Some(AllowancesError::ShardedMap(ShardedMapError::InvalidCapacity))
    );
    let mut allowances = Allowances::<u64>::try_new(vec![7], 12).unwrap();
    assert_eq!(allowances.expiry_period(), 12);
    allowances.set_expiry_period(13);
    assert_eq!(allowances.expiry_period(), 13);
    assert_eq!(
        allowances.try_append_shard(5),
        Err(AllowancesError::ShardedMap(ShardedMapError::InvalidCapacity))
    );
    assert_eq!(allowances.try_append_shard(4), Ok(()));
    assert_eq!(allowances.store().max_capacity(), 11);
    assert!(allowances.allocate_next_shard());
    assert!(!allowances.allocate_next_shard());
    assert_eq!(allowances.store().capacity(), 11);
}

#[test]
fn default_allowances() {
    let allowances: Allowances<Allowance> = Allowances::default();
    assert_eq!(allowances.expiry_period(), u32::MAX);
    assert_eq!(
        allowances.store().max_capacity(),
        Allowances::<Allowance>::DEFAULT_MAX_SHARD
    );
    assert_eq!(Allowances::<Allowance>::DEFAULT_MAX_SHARD, 7 << 20);
    assert_eq!(allowances.store().capacity(), 0);
}

#[test]
fn set_returns_what_was_there() {
    let mut allowances = ledger(vec![7], 10);
    let (a, b) = (account(1), account(2));
    assert_eq!(allowances.get(a, b), 0);
    assert_eq!(allowances.set(a, b, 50, 1), Ok(None));
    assert_eq!(allowances.get(a, b), 50);
    assert_eq!(allowances.get(b, a), 0);
    assert_eq!(expiry(&allowances, a, b), Some(11));
    assert_eq!(allowances.set(a, b, 70, 2), Ok(Some(amount(50))));
    assert_eq!(allowances.get(a, b), 70);
    assert_eq!(expiry(&allowances, a, b), Some(12));
    assert_eq!(allowances.store().len(), 1);
}

#[test]
fn setting_zero_takes_the_entry_away() {
    let mut allowances = ledger(vec![7], 10);
    let (a, b) = (account(1), account(2));
    assert_eq!(allowances.set(a, b, 0, 1), Ok(None));
    assert_eq!(allowances.store().len(), 0);
    allowances.set(a, b, 50, 1).unwrap();
    assert_eq!(allowances.set(a, b, 0, 2), Ok(Some(amount(50))));
    assert_eq!(allowances.get(a, b), 0);
    assert_eq!(allowances.store().len(), 0);
}

#[test]
fn no_allowance_on_oneself() {
    let mut allowances = ledger(vec![7], 10);
    let a = account(1);
    assert_eq!(allowances.set(a, a, 50, 1), Ok(None));
    assert_eq!(allowances.get(a, a), 0);
    assert_eq!(allowances.store().len(), 0);
    assert_eq!(allowances.decrease(a, a, amount(5), 1), Ok(()));
    assert_eq!(allowances.store().len(), 0);
    // Not even where the map has no room.
    let mut full = Allowances::<u64>::try_new(vec![1], 10).unwrap();
    assert_eq!(full.set(a, a, 50, 1), Ok(None));
}

#[test]
fn set_without_room_is_refused() {
    let mut allowances = ledger(vec![1], 10);
    let (a, b, c) = (account(1), account(2), account(3));
    assert_eq!(allowances.set(a, b, 5, 1), Ok(None));
    assert_eq!(
        allowances.set(a, c, 5, 1),
        Err(AllowancesError::ShardedMap(ShardedMapError::CapacityOverflow))
    );
    assert_eq!(allowances.get(a, c), 0);
    assert_eq!(allowances.get(a, b), 5);
    // An entry that is there can be set, and zero needs no room.
    assert_eq!(allowances.set(a, b, 6, 1), Ok(Some(amount(5))));
    assert_eq!(allowances.set(a, c, 0, 1), Ok(None));
}

#[test]
fn decrease_spends_and_moves_the_expiry() {
    let mut allowances = ledger(vec![7], 10);
    let (a, b) = (account(1), account(2));
    allowances.set(a, b, 50, 1).unwrap();
    assert_eq!(allowances.decrease(a, b, amount(20), 7), Ok(()));
    assert_eq!(allowances.get(a, b), 30);
    assert_eq!(expiry(&allowances, a, b), Some(17));
    assert_eq!(
        allowances.decrease(a, b, amount(31), 8),
        Err(AllowancesError::Insufficient(UnderflowError))
    );
    assert_eq!(allowances.get(a, b), 30);
    assert_eq!(expiry(&allowances, a, b), Some(17));
    assert_eq!(allowances.decrease(a, b, amount(30), 9), Ok(()));
    assert_eq!(allowances.get(a, b), 0);
    assert_eq!(allowances.store().len(), 0);
    assert_eq!(
        allowances.decrease(a, b, amount(1), 10),
        Err(AllowancesError::Insufficient(UnderflowError))
    );
}

#[test]
fn expiry_stops_at_the_last_block() {
    let mut allowances = ledger(vec![7], u32::MAX - 5);
    let (a, b) = (account(1), account(2));
    allowances.set(a, b, 50, 5).unwrap();
    assert_eq!(expiry(&allowances, a, b), Some(u32::MAX));
    allowances.set(a, b, 50, 6).unwrap();
    assert_eq!(expiry(&allowances, a, b), Some(u32::MAX));
    allowances.set(a, b, 50, 4).unwrap();
    assert_eq!(expiry(&allowances, a, b), Some(u32::MAX - 1));
}

#[test]
fn remove_returns_the_entry() {
    let mut allowances = ledger(vec![7], 10);
    let (a, b) = (account(1), account(2));
    assert_eq!(allowances.remove(a, b), None);
    allowances.set(a, b, 50, 1).unwrap();
    allowances.set(b, a, 60, 2).unwrap();
    assert_eq!(allowances.remove(a, b), Some((amount(50), 11)));
    assert_eq!(allowances.get(a, b), 0);
    assert_eq!(allowances.get(b, a), 60);
    assert_eq!(allowances.remove(a, b), None);
}

#[test]
fn pairs_are_told_apart() {
    let mut allowances = ledger(vec![7], 10);
    let a = NonZero::try_new(ActorId::new(1, 2)).unwrap();
    let b = NonZero::try_new(ActorId::new(2, 1)).unwrap();
    let c = NonZero::try_new(ActorId::new(1, 1)).unwrap();
    allowances.set(a, b, 1, 0).unwrap();
    allowances.set(b, a, 2, 0).unwrap();
    allowances.set(a, c, 3, 0).unwrap();
    allowances.set(c, b, 4, 0).unwrap();
    assert_eq!(allowances.get(a, b), 1);
    assert_eq!(allowances.get(b, a), 2);
    assert_eq!(allowances.get(a, c), 3);
    assert_eq!(allowances.get(c, b), 4);
    assert_eq!(allowances.get(c, a), 0);
    assert!(allowances.get(b, c).is_zero());
    assert_eq!(allowances.store().len(), 4);
}

#[test]
fn allowances_errors() {
    assert_eq!(
        AllowancesError::from(UnderflowError),
        AllowancesError::Insufficient(UnderflowError)
    );
    assert_eq!(
        AllowancesError::from(ShardedMapError::InvalidCapacity),
        AllowancesError::ShardedMap(ShardedMapError::InvalidCapacity)
    );
    assert_eq!(
        AllowancesError::Insufficient(UnderflowError).message(),
        "insufficient allowance"
    );
    assert_eq!(
        AllowancesError::ShardedMap(ShardedMapError::CapacityOverflow).message(),
        "sharded map error: capacity overflow"
    );
    assert_eq!(
        AllowancesError::ShardedMap(ShardedMapError::InvalidCapacity).message(),
        "sharded map error: invalid capacity"
    );
}

#[test]
fn asking_whether_an_allowance_suffices_changes_nothing() {
    let mut allowances = ledger(vec![7], 10);
    let (a, b, c) = (account(1), account(2), account(3));
    allowances.set(a, b, 50, 1).unwrap();
    allowances.set(a, c, u64::MAX, 1).unwrap();
    assert_eq!(allowances.can_decrease(a, b, amount(50)), Ok(()));
    assert_eq!(allowances.can_decrease(a, b, amount(20)), Ok(()));
    assert_eq!(
        allowances.can_decrease(a, b, amount(51)),
        Err(AllowancesError::Insufficient(UnderflowError))
    );
    assert_eq!(
        allowances.can_decrease(b, a, amount(1)),
        Err(AllowancesError::Insufficient(UnderflowError))
    );
    assert_eq!(allowances.can_decrease(a, c, amount(u64::MAX)), Ok(()));
    assert_eq!(allowances.can_decrease(a, a, amount(1)), Ok(()));
    assert_eq!(allowances.get(a, b), 50);
    assert_eq!(expiry(&allowances, a, b), Some(11));
    assert_eq!(
        allowances.can_decrease(a, b, amount(51)),
        allowances.decrease(a, b, amount(51), 5)
    );
    assert_eq!(
        allowances.can_decrease(a, b, amount(20)),
        allowances.decrease(a, b, amount(20), 5)
    );
    assert_eq!(allowances.get(a, b), 30);
}
