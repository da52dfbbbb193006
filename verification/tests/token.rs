use awesome_sails::actor::ActorId;
use awesome_sails::allowances::{Allowances, AllowancesError};
use awesome_sails::amount::{Allowance, Balance, U256};
use awesome_sails::balances::{Balances, BalancesError};
use awesome_sails::map::ShardedMapError;
use awesome_sails::math::{Max, OverflowError, UnderflowError, Zero, ZeroError};
use awesome_sails::non_zero::NonZero;
use awesome_sails::token::{AllowanceNotExpiredError, Event, Token, TokenError};

fn actor(n: u128) -> ActorId {
    ActorId::new(n, 0)
}

fn alice() -> ActorId {
    actor(42)
}

fn bob() -> ActorId {
    actor(43)
}

fn charlie() -> ActorId {
    actor(44)
}

fn dave() -> ActorId {
    actor(45)
}

/// The zero account.
fn nobody() -> ActorId {
    actor(0)
}

fn wide(n: u128) -> U256 {
    U256::try_from(n).unwrap()
}

fn exp10(n: u32) -> u128 {
    10u128.pow(n)
}

fn account(id: ActorId) -> NonZero<ActorId> {
    NonZero::try_new(id).unwrap()
}

fn allowance_limit() -> u128 {
    Allowance::max_value().try_into_u128().unwrap()
}

fn balance_limit() -> u128 {
    Balance::max_value().try_into_u128().unwrap()
}

/// A token with the given allowances and balances, seven places for each.
fn token(
    allowances: &[(ActorId, ActorId, u128, u32)],
    balances: &[(ActorId, u128)],
    minimum_balance: u128,
    expiry_period: u32,
) -> Token {
    let mut a = Allowances::<Allowance>::try_new(vec![7], expiry_period).unwrap();
    while a.allocate_next_shard() {}
    for &(owner, spender, value, block) in allowances {
        a.set_expiry_period(0);
        a.set(
            account(owner),
            account(spender),
            Allowance::try_from(value).unwrap(),
            block,
        )
        .unwrap();
    }
    a.set_expiry_period(expiry_period);
    let mut b = Balances::<Balance>::try_new(vec![7], Balance::zero()).unwrap();
    while b.allocate_next_shard() {}
    for &(holder, value) in balances {
        b.mint(
            account(holder),
            NonZero::try_new(Balance::try_from(value).unwrap()).unwrap(),
        )
        .unwrap();
    }
    b.set_minimum_balance(Balance::try_from(minimum_balance).unwrap());
    Token::new(a, b, false)
}

fn expiry(token: &Token, owner: ActorId, spender: ActorId) -> Option<u32> {
    token
        .allowances()
        .store()
        .get(&(owner.key(), spender.key()))
        .map(|(_, entry)| entry.1)
}

fn approval(owner: ActorId, spender: ActorId, value: U256) -> Result<Option<Event>, TokenError> {
    Ok(Some(Event::Approval {
        owner,
        spender,
        value,
    }))
}

fn transfer(from: ActorId, to: ActorId, value: U256) -> Result<Option<Event>, TokenError> {
    Ok(Some(Event::Transfer { from, to, value }))
}

#[test]
fn token_reports_allowances() {
    let t = token(&[(alice(), bob(), exp10(21), 137)], &[], 0, 0);
    assert_eq!(t.allowance(alice(), bob()), Ok(wide(exp10(21))));
    assert_eq!(expiry(&t, alice(), bob()), Some(137));
    assert_eq!(t.allowance(bob(), alice()), Ok(U256::zero()));
    assert_eq!(expiry(&t, bob(), alice()), None);
    assert_eq!(t.allowance(nobody(), alice()), Err(TokenError::Zero(ZeroError)));
    assert_eq!(t.allowance(alice(), nobody()), Err(TokenError::Zero(ZeroError)));
}

#[test]
fn token_reports_balances() {
    let t = token(&[], &[(alice(), exp10(21))], 0, 0);
    assert_eq!(t.balance_of(alice()), Ok(wide(exp10(21))));
    assert_eq!(t.balance_of(bob()), Ok(U256::zero()));
    assert_eq!(t.balance_of(nobody()), Err(TokenError::Zero(ZeroError)));
    assert_eq!(t.total_supply(), wide(exp10(21)));
}

#[test]
fn token_approve() {
    let mut t = token(&[], &[], 0, 10);

    // No allowance yet: one is made.
    assert_eq!(
        t.approve(alice(), bob(), wide(exp10(21)), 1),
        approval(alice(), bob(), wide(exp10(21)))
    );
    assert_eq!(t.allowance(alice(), bob()), Ok(wide(exp10(21))));
    assert_eq!(expiry(&t, alice(), bob()), Some(11));

    // Another value: the allowance and its expiry change.
    assert_eq!(
        t.approve(alice(), bob(), wide(exp10(20)), 2),
        approval(alice(), bob(), wide(exp10(20)))
    );
    assert_eq!(t.allowance(alice(), bob()), Ok(wide(exp10(20))));
    assert_eq!(expiry(&t, alice(), bob()), Some(12));

    // The same value: nothing to report, but the expiry moves.
    assert_eq!(t.approve(alice(), bob(), wide(exp10(20)), 3), Ok(None));
    assert_eq!(t.allowance(alice(), bob()), Ok(wide(exp10(20))));
    assert_eq!(expiry(&t, alice(), bob()), Some(13));

    // Zero: the allowance goes.
    assert_eq!(
        t.approve(alice(), bob(), U256::zero(), 4),
        approval(alice(), bob(), U256::zero())
    );
    assert_eq!(t.allowance(alice(), bob()), Ok(U256::zero()));
    assert_eq!(expiry(&t, alice(), bob()), None);

    // Zero where there is none: nothing happens.
    assert_eq!(t.approve(alice(), bob(), U256::zero(), 5), Ok(None));
    assert_eq!(expiry(&t, alice(), bob()), None);

    // An account on itself: nothing happens.
    assert_eq!(t.approve(alice(), alice(), wide(exp10(21)), 6), Ok(None));
    assert_eq!(t.allowance(alice(), alice()), Ok(U256::zero()));
    assert_eq!(t.allowances().store().len(), 0);
}

#[test]
fn token_approve_without_limit() {
    let mut t = token(&[], &[], 0, 10);
    let limit = allowance_limit();

    // One under the sentinel is an ordinary allowance.
    assert_eq!(
        t.approve(alice(), bob(), wide(limit - 1), 1),
        approval(alice(), bob(), wide(limit - 1))
    );
    assert_eq!(t.allowance(alice(), bob()), Ok(wide(limit - 1)));

    // The sentinel and all above it mean "without limit".
    assert_eq!(
        t.approve(alice(), bob(), wide(limit), 2),
        approval(alice(), bob(), U256::max_value())
    );
    assert_eq!(t.allowance(alice(), bob()), Ok(U256::max_value()));
    assert_eq!(
        t.approve(alice(), charlie(), wide(limit + 1), 2),
        approval(alice(), charlie(), U256::max_value())
    );
    assert_eq!(t.allowance(alice(), charlie()), Ok(U256::max_value()));
    assert_eq!(
        t.approve(alice(), dave(), U256::max_value(), 2),
        approval(alice(), dave(), U256::max_value())
    );
    assert_eq!(
        t.allowances().get(account(alice()), account(dave())),
        Allowance::max_value()
    );
}

#[test]
fn token_approve_is_refused() {
    let mut t = token(&[], &[], 0, 10);
    assert_eq!(
        t.approve(nobody(), bob(), wide(1), 1),
        Err(TokenError::Zero(ZeroError))
    );
    assert_eq!(
        t.approve(alice(), nobody(), wide(1), 1),
        Err(TokenError::Zero(ZeroError))
    );
    for n in 0..7 {
        assert!(t.approve(alice(), actor(100 + n), wide(1), 1).is_ok());
    }
    assert_eq!(
        t.approve(alice(), bob(), wide(1), 1),
        Err(TokenError::Allowances(AllowancesError::ShardedMap(
            ShardedMapError::CapacityOverflow
        )))
    );
    // Without room an entry can still change or go.
    assert_eq!(
        t.approve(alice(), actor(100), wide(2), 1),
        approval(alice(), actor(100), wide(2))
    );
    assert_eq!(t.approve(alice(), bob(), U256::zero(), 1), Ok(None));
    assert_eq!(t.allowances().store().len(), 7);
}

#[test]
fn token_transfer() {
    let mut t = token(&[], &[(bob(), exp10(21)), (dave(), balance_limit())], 0, 0);

    // Alice holds nothing.
    assert_eq!(
        t.transfer(alice(), bob(), wide(exp10(20))),
        Err(TokenError::Balances(BalancesError::Insufficient(
            UnderflowError
        )))
    );
    // Bob holds less.
    assert_eq!(
        t.transfer(bob(), alice(), wide(exp10(21) + 1)),
        Err(TokenError::Balances(BalancesError::Insufficient(
            UnderflowError
        )))
    );
    // Bob's balance would leave its range.
    assert_eq!(
        t.transfer(dave(), bob(), wide(balance_limit() - exp10(21) + 1)),
        Err(TokenError::Balances(BalancesError::Overflow(OverflowError)))
    );
    // More than any balance.
    assert_eq!(
        t.transfer(dave(), bob(), wide(balance_limit() + 1)),
        Err(TokenError::Overflow(OverflowError))
    );
    assert_eq!(
        t.transfer(nobody(), bob(), wide(1)),
        Err(TokenError::Zero(ZeroError))
    );

    // To an account without an entry.
    assert_eq!(
        t.transfer(bob(), alice(), wide(exp10(20))),
        transfer(bob(), alice(), wide(exp10(20)))
    );
    assert_eq!(t.balance_of(bob()), Ok(wide(exp10(21) - exp10(20))));
    assert_eq!(t.balance_of(alice()), Ok(wide(exp10(20))));

    // To an account with an entry.
    assert_eq!(
        t.transfer(bob(), alice(), wide(exp10(20))),
        transfer(bob(), alice(), wide(exp10(20)))
    );
    assert_eq!(t.balance_of(alice()), Ok(wide(2 * exp10(20))));

    // All that is left: the sender's entry goes.
    assert_eq!(
        t.transfer(bob(), alice(), wide(exp10(21) - 2 * exp10(20))),
        transfer(bob(), alice(), wide(exp10(21) - 2 * exp10(20)))
    );
    assert_eq!(t.balance_of(bob()), Ok(U256::zero()));
    assert_eq!(t.balance_of(alice()), Ok(wide(exp10(21))));
    assert_eq!(t.balances().store().len(), 2);

    // To oneself, and nothing: no event, no change.
    assert_eq!(t.transfer(alice(), alice(), wide(exp10(20))), Ok(None));
    assert_eq!(t.transfer(alice(), bob(), U256::zero()), Ok(None));
    assert_eq!(t.transfer(charlie(), charlie(), wide(1)), Ok(None));
    assert_eq!(t.balance_of(alice()), Ok(wide(exp10(21))));

    // To the zero account: a burn.
    assert_eq!(
        t.transfer(alice(), nobody(), wide(exp10(20))),
        transfer(alice(), nobody(), wide(exp10(20)))
    );
    assert_eq!(t.total_supply(), wide(balance_limit() + exp10(21) - exp10(20)));
}

#[test]
fn token_transfer_from() {
    let mut t = token(
        &[(bob(), charlie(), exp10(20), 137), (dave(), charlie(), exp10(20), 137)],
        &[(bob(), exp10(21)), (dave(), exp10(19))],
        0,
        10,
    );

    // No allowance.
    assert_eq!(
        t.transfer_from(alice(), bob(), alice(), wide(1), 200),
        Err(TokenError::Allowances(AllowancesError::Insufficient(
            UnderflowError
        )))
    );
    // More than the allowance.
    assert_eq!(
        t.transfer_from(charlie(), bob(), alice(), wide(exp10(20) + 1), 200),
        Err(TokenError::Allowances(AllowancesError::Insufficient(
            UnderflowError
        )))
    );
    // More than the owner holds: nothing is spent.
    assert_eq!(
        t.transfer_from(charlie(), dave(), alice(), wide(exp10(20)), 200),
        Err(TokenError::Balances(BalancesError::Insufficient(
            UnderflowError
        )))
    );
    assert_eq!(t.allowance(dave(), charlie()), Ok(wide(exp10(20))));
    assert_eq!(expiry(&t, dave(), charlie()), Some(137));
    assert_eq!(t.balance_of(dave()), Ok(wide(exp10(19))));

    assert_eq!(
        t.transfer_from(nobody(), bob(), alice(), wide(1), 200),
        Err(TokenError::Zero(ZeroError))
    );
    assert_eq!(
        t.transfer_from(charlie(), nobody(), alice(), wide(1), 200),
        Err(TokenError::Zero(ZeroError))
    );
    assert_eq!(
        t.transfer_from(charlie(), bob(), alice(), wide(balance_limit() + 1), 200),
        Err(TokenError::Overflow(OverflowError))
    );

    // Part of the allowance.
    assert_eq!(
        t.transfer_from(charlie(), bob(), alice(), wide(exp10(19)), 200),
        transfer(bob(), alice(), wide(exp10(19)))
    );
    assert_eq!(t.allowance(bob(), charlie()), Ok(wide(exp10(20) - exp10(19))));
    assert_eq!(expiry(&t, bob(), charlie()), Some(210));
    assert_eq!(t.balance_of(bob()), Ok(wide(exp10(21) - exp10(19))));
    assert_eq!(t.balance_of(alice()), Ok(wide(exp10(19))));

    // The rest of it: the allowance goes.
    assert_eq!(
        t.transfer_from(charlie(), bob(), alice(), wide(exp10(20) - exp10(19)), 201),
        transfer(bob(), alice(), wide(exp10(20) - exp10(19)))
    );
    assert_eq!(t.allowance(bob(), charlie()), Ok(U256::zero()));
    assert_eq!(expiry(&t, bob(), charlie()), None);
    assert_eq!(t.balance_of(alice()), Ok(wide(exp10(20))));

    // The owner needs no allowance on itself.
    assert_eq!(
        t.transfer_from(bob(), bob(), alice(), wide(1), 202),
        transfer(bob(), alice(), wide(1))
    );
    // To the owner itself, and nothing: no event, nothing spent.
    assert_eq!(t.transfer_from(charlie(), dave(), dave(), wide(1), 203), Ok(None));
    assert_eq!(t.transfer_from(charlie(), dave(), alice(), U256::zero(), 203), Ok(None));
    assert_eq!(expiry(&t, dave(), charlie()), Some(137));
}

#[test]
fn token_transfer_from_without_limit() {
    let mut t = token(&[], &[(bob(), exp10(21))], 0, 10);
    assert!(t.approve(bob(), charlie(), U256::max_value(), 1).is_ok());
    assert_eq!(
        t.transfer_from(charlie(), bob(), alice(), wide(exp10(20)), 100),
        transfer(bob(), alice(), wide(exp10(20)))
    );
    assert_eq!(t.allowance(bob(), charlie()), Ok(U256::max_value()));
    assert_eq!(expiry(&t, bob(), charlie()), Some(110));
    assert_eq!(t.balance_of(alice()), Ok(wide(exp10(20))));
}

#[test]
fn token_transfer_all() {
    let mut t = token(&[], &[(bob(), exp10(21)), (dave(), balance_limit())], 0, 0);
    assert_eq!(t.transfer_all(alice(), bob()), Ok(None));
    assert_eq!(t.transfer_all(bob(), bob()), Ok(None));
    assert_eq!(
        t.transfer_all(bob(), nobody()),
        Err(TokenError::Zero(ZeroError))
    );
    assert_eq!(
        t.transfer_all(nobody(), bob()),
        Err(TokenError::Zero(ZeroError))
    );
    assert_eq!(
        t.transfer_all(bob(), dave()),
        Err(TokenError::Balances(BalancesError::Overflow(OverflowError)))
    );
    assert_eq!(
        t.transfer_all(bob(), alice()),
        transfer(bob(), alice(), wide(exp10(21)))
    );
    assert_eq!(t.balance_of(bob()), Ok(U256::zero()));
    assert_eq!(t.balance_of(alice()), Ok(wide(exp10(21))));
    assert_eq!(t.total_supply(), wide(balance_limit() + exp10(21)));
}

#[test]
fn token_transfer_all_from() {
    let mut t = token(
        &[(bob(), charlie(), exp10(20), 137), (dave(), charlie(), exp10(20), 137)],
        &[(bob(), exp10(21)), (dave(), exp10(19))],
        0,
        10,
    );
    // The allowance is less than what the owner holds: nothing moves.
    assert_eq!(
        t.transfer_all_from(charlie(), bob(), alice(), 200),
        Err(TokenError::Allowances(AllowancesError::Insufficient(
            UnderflowError
        )))
    );
    assert_eq!(t.balance_of(bob()), Ok(wide(exp10(21))));
    assert_eq!(t.balance_of(alice()), Ok(U256::zero()));
    assert_eq!(expiry(&t, bob(), charlie()), Some(137));

    assert_eq!(
        t.transfer_all_from(charlie(), dave(), alice(), 200),
        transfer(dave(), alice(), wide(exp10(19)))
    );
    assert_eq!(t.balance_of(dave()), Ok(U256::zero()));
    assert_eq!(t.balance_of(alice()), Ok(wide(exp10(19))));
    assert_eq!(t.allowance(dave(), charlie()), Ok(wide(exp10(20) - exp10(19))));
    assert_eq!(expiry(&t, dave(), charlie()), Some(210));

    // The owner holds nothing any more: nothing to report, nothing spent.
    assert_eq!(t.transfer_all_from(charlie(), dave(), alice(), 300), Ok(None));
    assert_eq!(expiry(&t, dave(), charlie()), Some(210));
    // The owner itself, and a transfer to the owner.
    assert_eq!(
        t.transfer_all_from(bob(), bob(), alice(), 300),
        transfer(bob(), alice(), wide(exp10(21)))
    );
    assert_eq!(t.transfer_all_from(charlie(), alice(), alice(), 300), Ok(None));
    assert_eq!(
        t.transfer_all_from(nobody(), alice(), bob(), 300),
        Err(TokenError::Zero(ZeroError))
    );
}

#[test]
fn token_removes_expired_allowances() {
    let mut t = token(&[(alice(), bob(), exp10(21), 137)], &[], 0, 10);
    assert_eq!(t.remove_expired_allowance(alice(), alice(), 1000), Ok(None));
    assert_eq!(t.remove_expired_allowance(bob(), alice(), 1000), Ok(None));
    assert_eq!(
        t.remove_expired_allowance(nobody(), alice(), 1000),
        Err(TokenError::Zero(ZeroError))
    );
    assert_eq!(
        t.remove_expired_allowance(alice(), bob(), 136),
        Err(TokenError::NotExpired(AllowanceNotExpiredError))
    );
    assert_eq!(
        t.remove_expired_allowance(alice(), bob(), 137),
        Err(TokenError::NotExpired(AllowanceNotExpiredError))
    );
    assert_eq!(t.allowance(alice(), bob()), Ok(wide(exp10(21))));
    assert_eq!(
        t.remove_expired_allowance(alice(), bob(), 138),
        approval(alice(), bob(), U256::zero())
    );
    assert_eq!(t.allowance(alice(), bob()), Ok(U256::zero()));
    assert_eq!(t.remove_expired_allowance(alice(), bob(), 138), Ok(None));
    assert_eq!(
        AllowanceNotExpiredError.message(),
        "allowance is not expired"
    );
}

#[test]
fn token_mint_and_burn() {
    let mut t = token(&[], &[], 0, 0);
    assert_eq!(t.mint(alice(), U256::zero()), Ok(None));
    assert_eq!(t.mint(nobody(), wide(1)), Err(TokenError::Zero(ZeroError)));
    assert_eq!(
        t.mint(alice(), wide(balance_limit() + 1)),
        Err(TokenError::Overflow(OverflowError))
    );
    assert_eq!(
        t.mint(alice(), wide(exp10(21))),
        transfer(nobody(), alice(), wide(exp10(21)))
    );
    assert_eq!(
        t.mint(alice(), wide(balance_limit())),
        Err(TokenError::Balances(BalancesError::Overflow(OverflowError)))
    );
    assert_eq!(t.balance_of(alice()), Ok(wide(exp10(21))));
    assert_eq!(t.total_supply(), wide(exp10(21)));

    assert_eq!(
        t.burn(alice(), U256::zero()),
        Err(TokenError::Zero(ZeroError))
    );
    assert_eq!(t.burn(nobody(), wide(1)), Err(TokenError::Zero(ZeroError)));
    assert_eq!(
        t.burn(alice(), wide(balance_limit() + 1)),
        Err(TokenError::Overflow(OverflowError))
    );
    assert_eq!(
        t.burn(bob(), wide(1)),
        Err(TokenError::Balances(BalancesError::Insufficient(
            UnderflowError
        )))
    );
    assert_eq!(
        t.burn(alice(), wide(exp10(20))),
        Ok(Event::Transfer {
            from: alice(),
            to: nobody(),
            value: wide(exp10(20))
        })
    );
    assert_eq!(t.balance_of(alice()), Ok(wide(exp10(21) - exp10(20))));
    assert_eq!(t.total_supply(), wide(exp10(21) - exp10(20)));
}

#[test]
fn token_keeps_the_minimum_balance() {
    let mut t = token(&[], &[(alice(), exp10(21))], exp10(20), 0);
    // Less than the minimum for a new account.
    assert_eq!(
        t.transfer(alice(), bob(), wide(exp10(20) - 1)),
        Err(TokenError::Balances(BalancesError::BelowMinimum))
    );
    assert_eq!(
        t.mint(bob(), wide(exp10(20) - 1)),
        Err(TokenError::Balances(BalancesError::BelowMinimum))
    );
    // What would be left under the minimum goes to the dust.
    assert_eq!(
        t.transfer(alice(), bob(), wide(exp10(21) - 5)),
        transfer(alice(), bob(), wide(exp10(21) - 5))
    );
    assert_eq!(t.balance_of(alice()), Ok(U256::zero()));
    assert_eq!(t.balance_of(bob()), Ok(wide(exp10(21) - 5)));
    assert_eq!(t.balances().unused_value(), wide(5));
    assert_eq!(t.total_supply(), wide(exp10(21)));
}

#[test]
fn token_pause() {
    let mut t = token(
        &[(bob(), charlie(), exp10(20), 137)],
        &[(bob(), exp10(21))],
        0,
        10,
    );
    assert!(!t.is_paused());
    assert!(t.pause());
    assert!(!t.pause());
    assert!(t.is_paused());

    assert_eq!(t.approve(alice(), bob(), wide(1), 1), Err(TokenError::Paused));
    assert_eq!(t.transfer(bob(), alice(), wide(1)), Err(TokenError::Paused));
    assert_eq!(
        t.transfer_from(charlie(), bob(), alice(), wide(1), 1),
        Err(TokenError::Paused)
    );
    assert_eq!(t.transfer_all(bob(), alice()), Err(TokenError::Paused));
    assert_eq!(
        t.transfer_all_from(charlie(), bob(), alice(), 1),
        Err(TokenError::Paused)
    );
    assert_eq!(
        t.remove_expired_allowance(bob(), charlie(), 1000),
        Err(TokenError::Paused)
    );
    assert_eq!(t.mint(alice(), wide(1)), Err(TokenError::Paused));
    assert_eq!(t.burn(bob(), wide(1)), Err(TokenError::Paused));
    assert!(matches!(t.allowances_mut(), Err(TokenError::Paused)));
    assert!(matches!(t.balances_mut(), Err(TokenError::Paused)));

    // What changes nothing is no error, and reading goes on.
    assert_eq!(t.approve(alice(), alice(), wide(1), 1), Ok(None));
    assert_eq!(t.transfer(bob(), bob(), wide(1)), Ok(None));
    assert_eq!(t.transfer(bob(), alice(), U256::zero()), Ok(None));
    assert_eq!(t.mint(alice(), U256::zero()), Ok(None));
    assert_eq!(t.allowance(bob(), charlie()), Ok(wide(exp10(20))));
    assert_eq!(t.balance_of(bob()), Ok(wide(exp10(21))));
    // The zero account is refused before the pause is looked at.
    assert_eq!(
        t.transfer_from(charlie(), nobody(), alice(), wide(1), 1),
        Err(TokenError::Zero(ZeroError))
    );

    assert!(t.resume());
    assert!(!t.resume());
    assert_eq!(
        t.transfer(bob(), alice(), wide(1)),
        transfer(bob(), alice(), wide(1))
    );
    t.balances_mut()
        .unwrap()
        .set_minimum_balance(Balance::try_from(2u128).unwrap());
    assert_eq!(
        *t.balances().minimum_balance(),
        Balance::try_from(2u128).unwrap()
    );
    t.allowances_mut().unwrap().set_expiry_period(20);
    assert_eq!(t.allowances().expiry_period(), 20);
}
