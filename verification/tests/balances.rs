use awesome_sails::actor::ActorId;
use awesome_sails::amount::{balance_from_u64, Balance};
use awesome_sails::balances::{Balances, BalancesError};
use awesome_sails::map::ShardedMapError;
use awesome_sails::math::{MathError, OverflowError, UnderflowError, Zero, ZeroError};
use awesome_sails::non_zero::NonZero;

fn account(n: u128) -> NonZero<ActorId> {
    NonZero::try_new(ActorId::new(n, 0)).unwrap()
}

fn amount(n: u64) -> NonZero<u64> {
    NonZero::try_new(n).unwrap()
}

fn ledger(capacities: Vec<usize>, minimum: u64) -> Balances<u64> {
    let mut balances = Balances::try_new(capacities, minimum).unwrap();
    while balances.allocate_next_shard() {}
    balances
}

fn total(balances: &Balances<u64>) -> u128 {
    balances.total_supply().try_into_u128().unwrap()
}

fn unused(balances: &Balances<u64>) -> u128 {
    balances.unused_value().try_into_u128().unwrap()
}

/// The balances of the accounts 1 to 9 and the dust add up to the total supply.
fn supply_is_conserved(balances: &Balances<u64>) -> bool {
    let held: u128 = (1..10u128).map(|n| balances.get(account(n)) as u128).sum();
    held + unused(balances) == total(balances)
}

#[test]
fn mint_then_transfer() {
    let mut balances = ledger(vec![7], 0);
    let (a, b) = (account(1), account(2));
    assert_eq!(balances.mint(a, amount(100)), Ok(()));
    assert_eq!(balances.get(a), 100);
    assert_eq!(total(&balances), 100);
    assert_eq!(balances.transfer(a, b.into_inner(), amount(40)), Ok(()));
    assert_eq!(balances.get(a), 60);
    assert_eq!(balances.get(b), 40);
    assert_eq!(total(&balances), 100);
    assert_eq!(unused(&balances), 0);
    assert!(supply_is_conserved(&balances));
}

#[test]
fn burn_sweeps_dust() {
    let mut balances = ledger(vec![7], 10);
    let a = account(1);
    balances.mint(a, amount(12)).unwrap();
    assert_eq!(balances.get(a), 12);
    assert_eq!(balances.burn(a, amount(5)), Ok(()));
    assert_eq!(balances.get(a), 0);
    assert_eq!(unused(&balances), 7);
    assert_eq!(total(&balances), 7);
    assert_eq!(balances.store().len(), 0);
    assert!(supply_is_conserved(&balances));
}

#[test]
fn balances_construction_checks_capacities() {
    assert_eq!(
        Balances::<u64>::try_new(vec![0], 0).err(),
        Some(BalancesError::ShardedMap(ShardedMapError::InvalidCapacity))
    );
    let balances = Balances::<u64>::try_new(vec![7, 14], 3).unwrap();
    assert_eq!(*balances.minimum_balance(), 3);
    assert_eq!(total(&balances), 0);
    assert_eq!(unused(&balances), 0);
    assert_eq!(balances.store().max_capacity(), 21);
    assert_eq!(balances.store().capacity(), 0);
}

#[test]
fn default_balances() {
    let mut balances: Balances<Balance> = Balances::default();
    assert!(balances.minimum_balance().is_zero());
    assert_eq!(
        balances.store().max_capacity(),
        2 * Balances::<Balance>::DEFAULT_MAX_SHARD
    );
    assert_eq!(Balances::<Balance>::DEFAULT_MAX_SHARD, 7 << 21);
    assert_eq!(balances.store().capacity(), 0);
    assert!(balances.allocate_next_shard());
    assert!(!balances.allocate_next_shard());
    let a = account(1);
    let value = NonZero::try_new(balance_from_u64(500)).unwrap();
    assert_eq!(balances.mint(a, value), Ok(()));
    assert_eq!(balances.get(a).try_into_u64(), Ok(500));
    assert_eq!(balances.total_supply().try_into_u128(), Ok(500));
}

#[test]
fn mint_needs_an_allocated_shard_with_room() {
    let mut balances = Balances::<u64>::try_new(vec![1], 0).unwrap();
    let (a, b) = (account(1), account(2));
    assert_eq!(
        balances.mint(a, amount(5)),
        Err(BalancesError::ShardedMap(ShardedMapError::CapacityOverflow))
    );
    assert_eq!(total(&balances), 0);
    assert!(!balances.allocate_next_shard());
    assert_eq!(balances.mint(a, amount(5)), Ok(()));
    assert_eq!(
        balances.mint(b, amount(5)),
        Err(BalancesError::ShardedMap(ShardedMapError::CapacityOverflow))
    );
    // An account that is there needs no room.
    assert_eq!(balances.mint(a, amount(5)), Ok(()));
    assert_eq!(balances.get(a), 10);
    assert_eq!(total(&balances), 10);
    assert_eq!(balances.try_append_shard(2), Ok(()));
    assert_eq!(
        balances.try_append_shard(3),
        Err(BalancesError::ShardedMap(ShardedMapError::InvalidCapacity))
    );
    assert!(!balances.allocate_next_shard());
    assert_eq!(balances.mint(b, amount(5)), Ok(()));
    assert!(supply_is_conserved(&balances));
}

#[test]
fn mint_below_minimum_is_refused() {
    let mut balances = ledger(vec![7], 10);
    let a = account(1);
    assert_eq!(balances.mint(a, amount(9)), Err(BalancesError::BelowMinimum));
    assert_eq!(balances.get(a), 0);
    assert_eq!(total(&balances), 0);
    assert_eq!(balances.mint(a, amount(10)), Ok(()));
    assert_eq!(balances.mint(a, amount(1)), Ok(()));
    assert_eq!(balances.get(a), 11);
}

#[test]
fn mint_overflow_of_the_balance_is_refused() {
    let mut balances = ledger(vec![7], 0);
    let a = account(1);
    balances.mint(a, amount(u64::MAX)).unwrap();
    assert_eq!(
        balances.mint(a, amount(1)),
        Err(BalancesError::Overflow(OverflowError))
    );
    assert_eq!(balances.get(a), u64::MAX);
    assert_eq!(total(&balances), u64::MAX as u128);
    // The total supply is wider than a balance.
    assert_eq!(balances.mint(account(2), amount(u64::MAX)), Ok(()));
    assert_eq!(total(&balances), 2 * (u64::MAX as u128));
}

#[test]
fn burn_more_than_held_is_refused() {
    let mut balances = ledger(vec![7], 0);
    let a = account(1);
    assert_eq!(
        balances.burn(a, amount(1)),
        Err(BalancesError::Insufficient(UnderflowError))
    );
    balances.mint(a, amount(5)).unwrap();
    assert_eq!(
        balances.burn(a, amount(6)),
        Err(BalancesError::Insufficient(UnderflowError))
    );
    assert_eq!(balances.get(a), 5);
    assert_eq!(total(&balances), 5);
}

#[test]
fn burn_keeps_what_stays_above_the_minimum() {
    let mut balances = ledger(vec![7], 10);
    let a = account(1);
    balances.mint(a, amount(30)).unwrap();
    assert_eq!(balances.burn(a, amount(20)), Ok(()));
    assert_eq!(balances.get(a), 10);
    assert_eq!(unused(&balances), 0);
    assert_eq!(total(&balances), 10);
    assert_eq!(balances.burn(a, amount(10)), Ok(()));
    assert_eq!(balances.get(a), 0);
    assert_eq!(unused(&balances), 0);
    assert_eq!(total(&balances), 0);
    assert_eq!(balances.store().len(), 0);
}

#[test]
fn burn_all_and_burn_unused() {
    let mut balances = ledger(vec![7], 10);
    let (a, b) = (account(1), account(2));
    balances.mint(a, amount(12)).unwrap();
    balances.mint(b, amount(50)).unwrap();
    balances.burn(a, amount(5)).unwrap();
    assert_eq!(unused(&balances), 7);
    assert_eq!(total(&balances), 57);
    assert_eq!(balances.burn_all(b), 50);
    assert_eq!(balances.get(b), 0);
    assert_eq!(total(&balances), 7);
    assert_eq!(balances.burn_all(b), 0);
    assert_eq!(total(&balances), 7);
    assert_eq!(balances.burn_unused().try_into_u128(), Ok(7));
    assert_eq!(unused(&balances), 0);
    assert_eq!(total(&balances), 0);
    assert_eq!(balances.burn_unused().try_into_u128(), Ok(0));
}

#[test]
fn transfer_to_oneself_changes_nothing() {
    let mut balances = ledger(vec![7], 10);
    let a = account(1);
    balances.mint(a, amount(20)).unwrap();
    assert_eq!(balances.transfer(a, a.into_inner(), amount(5)), Ok(()));
    assert_eq!(balances.transfer(a, a.into_inner(), amount(15)), Ok(()));
    // Not even what the account could not pay.
    assert_eq!(balances.transfer(a, a.into_inner(), amount(500)), Ok(()));
    assert_eq!(balances.get(a), 20);
    assert_eq!(total(&balances), 20);
    assert_eq!(unused(&balances), 0);
    let nobody = account(9);
    assert_eq!(balances.transfer(nobody, nobody.into_inner(), amount(5)), Ok(()));
    assert_eq!(balances.store().len(), 1);
}

#[test]
fn transfer_to_the_zero_account_burns() {
    let mut balances = ledger(vec![7], 10);
    let a = account(1);
    balances.mint(a, amount(12)).unwrap();
    assert_eq!(balances.transfer(a, ActorId::zero(), amount(5)), Ok(()));
    assert_eq!(balances.get(a), 0);
    assert_eq!(unused(&balances), 7);
    assert_eq!(total(&balances), 7);
    assert_eq!(
        balances.transfer(a, ActorId::zero(), amount(5)),
        Err(BalancesError::Insufficient(UnderflowError))
    );
}

#[test]
fn transfer_that_the_receiver_refuses_leaves_the_sender_alone() {
    let mut balances = ledger(vec![7], 10);
    let (a, b) = (account(1), account(2));
    balances.mint(a, amount(100)).unwrap();
    // Below the minimum for a new account.
    assert_eq!(
        balances.transfer(a, b.into_inner(), amount(5)),
        Err(BalancesError::BelowMinimum)
    );
    assert_eq!((balances.get(a), balances.get(b)), (100, 0));
    // Overflow of the receiver's balance.
    let mut balances = ledger(vec![7], 0);
    balances.mint(a, amount(100)).unwrap();
    balances.mint(b, amount(u64::MAX)).unwrap();
    assert_eq!(
        balances.transfer(a, b.into_inner(), amount(1)),
        Err(BalancesError::Overflow(OverflowError))
    );
    assert_eq!((balances.get(a), balances.get(b)), (100, u64::MAX));
    assert_eq!(unused(&balances), 0);
    assert!(supply_is_conserved(&balances));
}

#[test]
fn transfer_that_the_sender_cannot_pay_leaves_the_receiver_alone() {
    let mut balances = ledger(vec![7], 0);
    let (a, b) = (account(1), account(2));
    balances.mint(a, amount(10)).unwrap();
    balances.mint(b, amount(20)).unwrap();
    assert_eq!(
        balances.transfer(a, b.into_inner(), amount(11)),
        Err(BalancesError::Insufficient(UnderflowError))
    );
    assert_eq!((balances.get(a), balances.get(b)), (10, 20));
    assert_eq!(
        balances.transfer(account(3), b.into_inner(), amount(1)),
        Err(BalancesError::Insufficient(UnderflowError))
    );
    assert_eq!(balances.get(b), 20);
    assert_eq!(total(&balances), 30);
}

#[test]
fn transfer_needs_room_only_where_the_sender_stays() {
    let mut balances = ledger(vec![1], 0);
    let (a, b) = (account(1), account(2));
    balances.mint(a, amount(10)).unwrap();
    assert_eq!(
        balances.transfer(a, b.into_inner(), amount(4)),
        Err(BalancesError::ShardedMap(ShardedMapError::CapacityOverflow))
    );
    assert_eq!((balances.get(a), balances.get(b)), (10, 0));
    // All of it: the receiver takes the sender's place.
    assert_eq!(balances.transfer(a, b.into_inner(), amount(10)), Ok(()));
    assert_eq!((balances.get(a), balances.get(b)), (0, 10));
    assert_eq!(balances.store().len(), 1);
    assert_eq!(total(&balances), 10);
}

#[test]
fn transfer_checks_room_before_the_minimum() {
    let mut balances = ledger(vec![1], 5);
    let (a, b) = (account(1), account(2));
    balances.mint(a, amount(100)).unwrap();
    assert_eq!(
        balances.transfer(a, b.into_inner(), amount(2)),
        Err(BalancesError::ShardedMap(ShardedMapError::CapacityOverflow))
    );
    // Where the sender's entry goes, no room is needed.
    assert_eq!(balances.transfer(a, b.into_inner(), amount(98)), Ok(()));
    assert_eq!((balances.get(a), balances.get(b)), (0, 98));
    assert_eq!(unused(&balances), 2);
    // And there the minimum decides.
    let mut balances = ledger(vec![1], 5);
    balances.mint(a, amount(6)).unwrap();
    assert_eq!(
        balances.transfer(a, b.into_inner(), amount(3)),
        Err(BalancesError::BelowMinimum)
    );
    assert_eq!((balances.get(a), balances.get(b)), (6, 0));
}

#[test]
fn transfer_sweeps_the_senders_dust() {
    let mut balances = ledger(vec![7], 10);
    let (a, b) = (account(1), account(2));
    balances.mint(a, amount(25)).unwrap();
    assert_eq!(balances.transfer(a, b.into_inner(), amount(20)), Ok(()));
    assert_eq!((balances.get(a), balances.get(b)), (0, 20));
    assert_eq!(unused(&balances), 5);
    assert_eq!(total(&balances), 25);
    assert_eq!(balances.store().len(), 1);
    assert!(supply_is_conserved(&balances));
}

#[test]
fn transfer_between_accounts_in_different_shards() {
    let mut balances = ledger(vec![1, 1, 1], 0);
    let (a, b, c) = (account(1), account(2), account(3));
    balances.mint(a, amount(10)).unwrap();
    balances.mint(b, amount(20)).unwrap();
    balances.mint(c, amount(30)).unwrap();
    assert_eq!(balances.transfer(c, a.into_inner(), amount(5)), Ok(()));
    assert_eq!(balances.transfer(b, c.into_inner(), amount(20)), Ok(()));
    assert_eq!(
        (balances.get(a), balances.get(b), balances.get(c)),
        (15, 0, 45)
    );
    assert_eq!(balances.store().len(), 2);
    assert_eq!(balances.transfer(a, b.into_inner(), amount(1)), Ok(()));
    assert_eq!(
        (balances.get(a), balances.get(b), balances.get(c)),
        (14, 1, 45)
    );
    assert_eq!(total(&balances), 60);
    assert!(supply_is_conserved(&balances));
}

#[test]
fn transfer_all_moves_the_entry() {
    let mut balances = ledger(vec![1, 1], 10);
    let (a, b, c) = (account(1), account(2), account(3));
    balances.mint(a, amount(10)).unwrap();
    balances.mint(b, amount(20)).unwrap();
    assert_eq!(balances.transfer_all(c, a), Ok(0));
    assert_eq!(balances.transfer_all(a, a), Ok(10));
    assert_eq!(balances.get(a), 10);
    // The map is full, yet the receiver finds the sender's place.
    assert!(!balances.store().has_space());
    assert_eq!(balances.transfer_all(a, c), Ok(10));
    assert_eq!((balances.get(a), balances.get(c)), (0, 10));
    assert_eq!(balances.transfer_all(c, b), Ok(10));
    assert_eq!((balances.get(b), balances.get(c)), (30, 0));
    assert_eq!(balances.store().len(), 1);
    assert_eq!(total(&balances), 30);
    assert_eq!(unused(&balances), 0);
}

#[test]
fn transfer_all_that_fails_changes_nothing() {
    let mut balances = ledger(vec![7], 0);
    let (a, b) = (account(1), account(2));
    balances.mint(a, amount(1)).unwrap();
    balances.mint(b, amount(u64::MAX)).unwrap();
    assert_eq!(
        balances.transfer_all(a, b),
        Err(BalancesError::Overflow(OverflowError))
    );
    assert_eq!((balances.get(a), balances.get(b)), (1, u64::MAX));
    let mut balances = ledger(vec![7], 0);
    balances.mint(a, amount(4)).unwrap();
    balances.set_minimum_balance(5);
    assert_eq!(*balances.minimum_balance(), 5);
    assert_eq!(balances.transfer_all(a, b), Err(BalancesError::BelowMinimum));
    assert_eq!((balances.get(a), balances.get(b)), (4, 0));
    balances.mint(b, amount(5)).unwrap();
    assert_eq!(balances.transfer_all(a, b), Ok(4));
    assert_eq!((balances.get(a), balances.get(b)), (0, 9));
}

#[test]
fn narrow_amounts_in_a_wide_supply() {
    let mut balances: Balances<Balance> = Balances::try_new(vec![7], Balance::zero()).unwrap();
    balances.allocate_next_shard();
    let most = NonZero::try_new(Balance::try_from_u128((1 << 80) - 1).unwrap()).unwrap();
    let one = NonZero::try_new(balance_from_u64(1)).unwrap();
    balances.mint(account(1), most).unwrap();
    assert_eq!(
        balances.mint(account(1), one),
        Err(BalancesError::Overflow(OverflowError))
    );
    balances.mint(account(2), most).unwrap();
    assert_eq!(
        balances.total_supply().try_into_u128(),
        Ok(2 * ((1 << 80) - 1))
    );
    assert_eq!(
        balances.transfer(account(1), account(2).into_inner(), one),
        Err(BalancesError::Overflow(OverflowError))
    );
}

#[test]
fn errors_convert() {
    assert_eq!(
        BalancesError::from(UnderflowError),
        BalancesError::Insufficient(UnderflowError)
    );
    assert_eq!(
        BalancesError::from(OverflowError),
        BalancesError::Overflow(OverflowError)
    );
    assert_eq!(BalancesError::from(ZeroError), BalancesError::Zero(ZeroError));
    assert_eq!(
        BalancesError::from(ShardedMapError::CapacityOverflow),
        BalancesError::ShardedMap(ShardedMapError::CapacityOverflow)
    );
    assert_eq!(
        BalancesError::from(MathError::Underflow(UnderflowError)),
        BalancesError::Insufficient(UnderflowError)
    );
    assert_eq!(
        BalancesError::from(MathError::Overflow(OverflowError)),
        BalancesError::Overflow(OverflowError)
    );
    assert_eq!(
        BalancesError::from(MathError::Zero(ZeroError)),
        BalancesError::Zero(ZeroError)
    );
}

#[test]
fn balances_error_texts() {
    assert_eq!(BalancesError::BelowMinimum.message(), "balance below minimum");
    assert_eq!(
        BalancesError::Insufficient(UnderflowError).message(),
        "insufficient balance"
    );
    assert_eq!(
        BalancesError::Overflow(OverflowError).message(),
        "balance or supply overflow"
    );
    assert_eq!(BalancesError::Zero(ZeroError).message(), "unexpected zero value");
    assert_eq!(
        BalancesError::ShardedMap(ShardedMapError::CapacityOverflow).message(),
        "sharded map error: capacity overflow"
    );
    assert_eq!(
        BalancesError::ShardedMap(ShardedMapError::InvalidCapacity).message(),
        "sharded map error: invalid capacity"
    );
}

fn shard_of(balances: &Balances<u64>, n: u128) -> Option<usize> {
    let key = ActorId::new(n, 0).key();
    balances.store().get(&key).map(|(idx, _)| idx.position())
}

#[test]
fn entries_land_in_the_first_shard_with_room_or_in_the_senders_place() {
    let mut balances = ledger(vec![1, 2, 1], 5);
    let (a, b, c, d, e, f) = (
        account(1),
        account(2),
        account(3),
        account(4),
        account(5),
        account(6),
    );
    balances.mint(a, amount(10)).unwrap();
    balances.mint(b, amount(10)).unwrap();
    balances.mint(c, amount(10)).unwrap();
    assert_eq!(
        (
            shard_of(&balances, 1),
            shard_of(&balances, 2),
            shard_of(&balances, 3)
        ),
        (Some(0), Some(0), Some(1))
    );

    balances.mint(c, amount(1)).unwrap();
    assert_eq!(shard_of(&balances, 3), Some(1));

    assert_eq!(balances.burn_all(a), 10);
    assert_eq!(shard_of(&balances, 1), None);

    // The sender keeps an entry: the receiver gets the first free place.
    assert_eq!(balances.transfer(c, d.into_inner(), amount(5)), Ok(()));
    assert_eq!(shard_of(&balances, 4), Some(0));
    assert_eq!(shard_of(&balances, 3), Some(1));

    // The sender loses its entry: the receiver gets the sender's place,
    // though the last shard has room too.
    assert_eq!(balances.transfer(c, e.into_inner(), amount(6)), Ok(()));
    assert_eq!(shard_of(&balances, 3), None);
    assert_eq!(shard_of(&balances, 5), Some(1));

    assert_eq!(balances.transfer_all(e, f), Ok(6));
    assert_eq!(shard_of(&balances, 5), None);
    assert_eq!(shard_of(&balances, 6), Some(1));
    assert_eq!(balances.store().len(), 3);
    assert!(supply_is_conserved(&balances));
}

#[test]
fn asking_whether_all_can_move_changes_nothing() {
    let mut balances = ledger(vec![7], 0);
    let (a, b, c, d) = (account(1), account(2), account(3), account(4));
    balances.mint(a, amount(10)).unwrap();
    balances.mint(b, amount(u64::MAX - 5)).unwrap();
    balances.mint(c, amount(3)).unwrap();
    balances.set_minimum_balance(20);
    assert_eq!(
        balances.can_transfer_all(a, b),
        Err(BalancesError::Overflow(OverflowError))
    );
    assert_eq!(
        balances.can_transfer_all(a, c),
        Err(BalancesError::BelowMinimum)
    );
    assert_eq!(
        balances.can_transfer_all(a, d),
        Err(BalancesError::BelowMinimum)
    );
    assert_eq!(balances.can_transfer_all(c, b), Ok(()));
    assert_eq!(balances.can_transfer_all(d, a), Ok(()));
    assert_eq!(balances.can_transfer_all(a, a), Ok(()));
    assert_eq!(
        (balances.get(a), balances.get(b), balances.get(c)),
        (10, u64::MAX - 5, 3)
    );
    assert_eq!(
        balances.can_transfer_all(a, c),
        balances.transfer_all(a, c).map(|_| ())
    );
    assert_eq!(balances.can_transfer_all(c, b), Ok(()));
    assert_eq!(balances.transfer_all(c, b), Ok(3));
    assert!(supply_is_conserved(&balances));
}
