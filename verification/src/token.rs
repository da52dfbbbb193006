//! The token: the two ledgers behind one pause switch, and the operations
//! that a holder, a spender or the keeper of the token may ask for.
//!
//! Every operation takes the accounts and the block it acts for as
//! arguments, checks all it has to check before it changes anything, and
//! returns the event to report, if there is one. An operation that fails has
//! changed nothing.
use crate::actor::ActorId;
use crate::allowances::{Allowances, AllowancesError};
use crate::amount::{allowance_from_balance, Allowance, Amount, Balance, U256};
use crate::balances::{Balances, BalancesError};
use crate::le_bytes::{lemma_pow256_monotonic, lemma_pow256_positive, pow256};
use crate::map::ShardedMapError;
use crate::math::{CheckedMath, Math, Max, OverflowError, Zero, ZeroError};
use crate::non_zero::NonZero;
use vstd::pervasive::unreached;
use vstd::prelude::*;

verus! {

/// An allowance that was to be removed as expired has not expired yet.
#[derive(Clone, Copy, Debug, Default, PartialEq, Eq, Structural, PartialOrd, Ord, Hash)]
pub struct AllowanceNotExpiredError;

impl AllowanceNotExpiredError {
    /// The text shown for this error.
    pub fn message(&self) -> (s: String)
        ensures
            s@ == "allowance is not expired"@,
    {
        "allowance is not expired".to_string()
    }
}

/// Why an operation of the token was refused.
#[derive(Clone, Copy, Debug, PartialEq, Eq, Structural)]
pub enum TokenError {
    /// The token is paused, and the operation would have changed it.
    Paused,
    /// An account that must not be the zero account is, or an amount that
    /// must not be zero is.
    Zero(ZeroError),
    /// An amount does not fit in a balance.
    Overflow(OverflowError),
    /// The allowances refused.
    Allowances(AllowancesError),
    /// The balances refused.
    Balances(BalancesError),
    /// The allowance has not expired.
    NotExpired(AllowanceNotExpiredError),
}

/// What the token reports to the outside.
#[derive(Clone, Copy, Debug, PartialEq, Eq)]
pub enum Event {
    /// `owner` has set what `spender` may take; without limit where `value`
    /// is the greatest number.
    Approval { owner: ActorId, spender: ActorId, value: U256 },
    /// `value` went from `from` to `to`; minted where `from` is the zero
    /// account, burnt where `to` is.
    Transfer { from: ActorId, to: ActorId, value: U256 },
}

/// The greatest allowance, which means "without limit".
pub open spec fn sentinel() -> nat {
    (pow256(9) - 1) as nat
}

/// The allowance that stands for a number: the number itself where it is
/// under the sentinel, else the sentinel.
pub open spec fn approval_of(value: nat) -> nat {
    if value < sentinel() {
        value
    } else {
        sentinel()
    }
}

/// An allowance as the outside sees it: the greatest number of 256 bits for
/// the sentinel, else the allowance itself.
pub open spec fn shown(amount: nat) -> nat {
    if amount >= sentinel() {
        (pow256(32) - 1) as nat
    } else {
        amount
    }
}

/// The event for an approval of `value`.
pub open spec fn approval(owner: ActorId, spender: ActorId, value: nat) -> Event {
    Event::Approval { owner, spender, value: U256::with_value(value) }
}

/// The event for a transfer of `value`.
pub open spec fn transfer(from: ActorId, to: ActorId, value: nat) -> Event {
    Event::Transfer { from, to, value: U256::with_value(value) }
}

/// The sizes of the three kinds of amount, and what the constants of each
/// stand for.
pub proof fn lemma_amounts()
    ensures
        0 < sentinel() < pow256(9) < pow256(10) < pow256(32),
        <Allowance as Zero>::zero_spec().value() == 0,
        <Allowance as Max>::max_spec().value() == sentinel(),
        <Balance as Zero>::zero_spec().value() == 0,
        <U256 as Zero>::zero_spec().value() == 0,
        <U256 as Max>::max_spec().value() == pow256(32) - 1,
{
    lemma_pow256_positive(8);
    lemma_pow256_positive(9);
    lemma_pow256_positive(10);
    lemma_pow256_monotonic(11, 32);
    assert(pow256(9) == 256 * pow256(8));
    assert(pow256(10) == 256 * pow256(9));
    assert(pow256(11) == 256 * pow256(10));
    <Allowance as Math>::lemma_constants();
    <Balance as Math>::lemma_constants();
    <U256 as Math>::lemma_constants();
}

/// The token.
pub struct Token {
    allowances: Allowances<Allowance>,
    balances: Balances<Balance>,
    paused: bool,
}

impl Token {
    /// The ledger of the allowances.
    pub closed spec fn allowances_spec(self) -> Allowances<Allowance> {
        self.allowances
    }

    /// The ledger of the balances.
    pub closed spec fn balances_spec(self) -> Balances<Balance> {
        self.balances
    }

    /// Whether the token is paused.
    pub closed spec fn is_paused_spec(self) -> bool {
        self.paused
    }

    /// The invariant of the token: that of each ledger.
    pub open spec fn wf(self) -> bool {
        self.allowances_spec().wf() && self.balances_spec().wf()
    }

    /// Whether `self` is as `before` was: both ledgers and the switch.
    pub open spec fn unchanged(self, before: Self) -> bool {
        &&& self.is_paused_spec() == before.is_paused_spec()
        &&& self.allowances_spec().unchanged(before.allowances_spec())
        &&& self.balances_spec().unchanged(before.balances_spec())
    }

    /// What `spender` may take from `owner`, as a number.
    pub open spec fn allowance_spec(self, owner: ActorId, spender: ActorId) -> nat {
        self.allowances_spec().amount_of(owner, spender).value()
    }

    /// What `account` holds, as a number.
    pub open spec fn balance_spec(self, account: ActorId) -> int {
        self.balances_spec().balance_of(account)
    }

    /// The token over the two ledgers, paused or not.
    pub fn new(allowances: Allowances<Allowance>, balances: Balances<Balance>, paused: bool) -> (r:
        Self)
        ensures
            r.allowances_spec() == allowances,
            r.balances_spec() == balances,
            r.is_paused_spec() == paused,
    {
        Token { allowances, balances, paused }
    }

    /// The ledger of the allowances, for looking into it.
    pub fn allowances(&self) -> (r: &Allowances<Allowance>)
        ensures
            *r == self.allowances_spec(),
    {
        &self.allowances
    }

    /// The ledger of the balances, for looking into it.
    pub fn balances(&self) -> (r: &Balances<Balance>)
        ensures
            *r == self.balances_spec(),
    {
        &self.balances
    }

    /// Whether the token is paused.
    pub fn is_paused(&self) -> (b: bool)
        ensures
            b == self.is_paused_spec(),
    {
        self.paused
    }

    /// The ledger of the allowances, for changing it, unless the token is
    /// paused. What is done to the ledger through the reference is done to
    /// the token.
    pub fn allowances_mut(&mut self) -> (r: Result<&mut Allowances<Allowance>, TokenError>)
        ensures
            r is Err <==> old(self).is_paused_spec(),
            match r {
                Ok(ledger) => {
                    &&& *ledger == old(self).allowances_spec()
                    &&& final(self).allowances_spec() == *final(ledger)
                    &&& final(self).balances_spec() == old(self).balances_spec()
                    &&& !final(self).is_paused_spec()
                },
                Err(e) => e == TokenError::Paused && *final(self) == *old(self),
            },
    {
        if self.paused {
            return Err(TokenError::Paused);
        }
        Ok(&mut self.allowances)
    }

    /// The ledger of the balances, for changing it, unless the token is
    /// paused. What is done to the ledger through the reference is done to
    /// the token.
    pub fn balances_mut(&mut self) -> (r: Result<&mut Balances<Balance>, TokenError>)
        ensures
            r is Err <==> old(self).is_paused_spec(),
            match r {
                Ok(ledger) => {
                    &&& *ledger == old(self).balances_spec()
                    &&& final(self).balances_spec() == *final(ledger)
                    &&& final(self).allowances_spec() == old(self).allowances_spec()
                    &&& !final(self).is_paused_spec()
                },
                Err(e) => e == TokenError::Paused && *final(self) == *old(self),
            },
    {
        if self.paused {
            return Err(TokenError::Paused);
        }
        Ok(&mut self.balances)
    }

    /// Switches the pause on and says whether that changed anything.
    pub fn pause(&mut self) -> (changed: bool)
        ensures
            changed == !old(self).is_paused_spec(),
            final(self).is_paused_spec(),
            final(self).allowances_spec() == old(self).allowances_spec(),
            final(self).balances_spec() == old(self).balances_spec(),
    {
        let changed = !self.paused;
        self.paused = true;
        changed
    }

    /// Switches the pause off and says whether that changed anything.
    pub fn resume(&mut self) -> (changed: bool)
        ensures
            changed == old(self).is_paused_spec(),
            !final(self).is_paused_spec(),
            final(self).allowances_spec() == old(self).allowances_spec(),
            final(self).balances_spec() == old(self).balances_spec(),
    {
        let changed = self.paused;
        self.paused = false;
        changed
    }

    /// What [`approve`](Token::approve) returns: nothing to report for an
    /// account on itself; else a refusal while the token is paused, for the
    /// zero account, or where a new entry finds no room; else the approval to
    /// report where what the outside sees has changed.
    pub open spec fn approve_outcome(self, owner: ActorId, spender: ActorId, value: nat) -> Result<
        Option<Event>,
        TokenError,
    > {
        if owner == spender {
            Ok(None)
        } else if self.is_paused_spec() {
            Err(TokenError::Paused)
        } else if owner == ActorId::zero_spec() || spender == ActorId::zero_spec() {
            Err(TokenError::Zero(ZeroError))
        } else if approval_of(value) != 0 && !self.allowances_spec().holds(owner, spender)
            && !self.allowances_spec().store_spec().has_space_spec() {
            Err(TokenError::Allowances(AllowancesError::ShardedMap(ShardedMapError::CapacityOverflow)))
        } else if self.allowance_spec(owner, spender) != shown(value) {
            Ok(Some(approval(owner, spender, shown(value))))
        } else {
            Ok(None)
        }
    }

    /// Whether `self` is `before` after `owner` approved `value` to another
    /// account `spender` at `current_block`.
    pub open spec fn approved(
        self,
        before: Self,
        owner: ActorId,
        spender: ActorId,
        value: nat,
        current_block: u32,
    ) -> bool {
        &&& self.is_paused_spec() == before.is_paused_spec()
        &&& self.balances_spec().unchanged(before.balances_spec())
        &&& self.allowances_spec().assigned(
            before.allowances_spec(),
            owner,
            spender,
            Allowance::with_value(approval_of(value)),
            current_block,
        )
    }

    /// Sets what `spender` may take from `owner` to `value`, or to "without
    /// limit" where `value` does not fit under the sentinel; the value zero
    /// takes the allowance away. An account has no allowance on itself.
    pub fn approve(&mut self, owner: ActorId, spender: ActorId, value: U256, current_block: u32)
        -> (r: Result<Option<Event>, TokenError>)
        requires
            old(self).wf(),
        ensures
            final(self).wf(),
            r == old(self).approve_outcome(owner, spender, value.value()),
            r is Err || owner == spender ==> final(self).unchanged(*old(self)),
            r is Ok && owner != spender ==> final(self).approved(
                *old(self),
                owner,
                spender,
                value.value(),
                current_block,
            ),
    {
        if owner == spender {
            return Ok(None);
        }
        if self.paused {
            return Err(TokenError::Paused);
        }
        proof {
            lemma_amounts();
        }
        let amount = match value.try_resize::<9>() {
            Ok(a) => a,
            Err(_) => Allowance::max_value(),
        };
        let seen = if amount.is_max() {
            U256::max_value()
        } else {
            value
        };
        proof {
            amount.lemma_with_value();
            seen.lemma_with_value();
            if amount.value() == sentinel() {
                Allowance::lemma_as_int_injective(amount, Allowance::max_spec());
            }
            if amount.value() == 0 {
                Allowance::lemma_as_int_injective(amount, Allowance::zero_spec());
            }
        }
        let owner_account = match NonZero::try_new(owner) {
            Ok(a) => a,
            Err(e) => {
                return Err(TokenError::Zero(e));
            },
        };
        let spender_account = match NonZero::try_new(spender) {
            Ok(a) => a,
            Err(e) => {
                return Err(TokenError::Zero(e));
            },
        };
        let previous = match self.allowances.set(
            owner_account,
            spender_account,
            amount,
            current_block,
        ) {
            Ok(p) => p,
            Err(e) => {
                return Err(TokenError::Allowances(e));
            },
        };
        let had = match previous {
            Some(p) => p.into_inner().widen(),
            None => U256::zero(),
        };
        proof {
            if had.value() == seen.value() {
                U256::lemma_as_int_injective(had, seen);
            }
        }
        if had == seen {
            Ok(None)
        } else {
            Ok(Some(Event::Approval { owner, spender, value: seen }))
        }
    }

    /// What [`transfer`](Token::transfer) returns: nothing to report for a
    /// transfer to oneself or of nothing; else a refusal while the token is
    /// paused, from the zero account, of more than a balance can be, or as
    /// the balances refuse; else the transfer to report.
    pub open spec fn transfer_outcome(self, from: ActorId, to: ActorId, value: nat) -> Result<
        Option<Event>,
        TokenError,
    > {
        if from == to || value == 0 {
            Ok(None)
        } else if self.is_paused_spec() {
            Err(TokenError::Paused)
        } else if from == ActorId::zero_spec() {
            Err(TokenError::Zero(ZeroError))
        } else if value >= pow256(10) {
            Err(TokenError::Overflow(OverflowError))
        } else {
            match self.balances_spec().transfer_outcome(from, to, value as int) {
                Ok(()) => Ok(Some(transfer(from, to, value))),
                Err(e) => Err(TokenError::Balances(e)),
            }
        }
    }

    /// Moves `value` from `from` to `to`; to the zero account this is a burn.
    pub fn transfer(&mut self, from: ActorId, to: ActorId, value: U256) -> (r: Result<
        Option<Event>,
        TokenError,
    >)
        requires
            old(self).wf(),
        ensures
            final(self).wf(),
            r == old(self).transfer_outcome(from, to, value.value()),
            !(r matches Ok(Some(_))) ==> final(self).unchanged(*old(self)),
            r matches Ok(Some(_)) ==> {
                &&& final(self).is_paused_spec() == old(self).is_paused_spec()
                &&& final(self).allowances_spec().unchanged(old(self).allowances_spec())
                &&& final(self).balances_spec().transferred(
                    old(self).balances_spec(),
                    from,
                    to,
                    value.value() as int,
                )
            },
    {
        proof {
            lemma_amounts();
            if value.value() == 0 {
                U256::lemma_as_int_injective(value, U256::zero_spec());
            }
        }
        if from == to || value.is_zero() {
            return Ok(None);
        }
        if self.paused {
            return Err(TokenError::Paused);
        }
        let sender = match NonZero::try_new(from) {
            Ok(a) => a,
            Err(e) => {
                return Err(TokenError::Zero(e));
            },
        };
        let narrow = match value.try_resize::<10>() {
            Ok(b) => b,
            Err(e) => {
                return Err(TokenError::Overflow(e));
            },
        };
        let amount = match NonZero::try_new(narrow) {
            Ok(a) => a,
            Err(_) => unreached(),
        };
        proof {
            value.lemma_with_value();
        }
        match self.balances.transfer(sender, to, amount) {
            Ok(()) => Ok(Some(Event::Transfer { from, to, value })),
            Err(e) => Err(TokenError::Balances(e)),
        }
    }

    /// What [`transfer_from`](Token::transfer_from) returns. The spender who
    /// is the owner makes a plain transfer. Else: nothing to report for a
    /// transfer to the owner itself or of nothing; a refusal for the zero
    /// account, for more than a balance can be, while the token is paused, as
    /// the allowances refuse, or as the balances refuse, in this order; else
    /// the transfer to report.
    pub open spec fn transfer_from_outcome(
        self,
        spender: ActorId,
        from: ActorId,
        to: ActorId,
        value: nat,
    ) -> Result<Option<Event>, TokenError> {
        if spender == from {
            self.transfer_outcome(from, to, value)
        } else if from == to || value == 0 {
            Ok(None)
        } else if from == ActorId::zero_spec() || spender == ActorId::zero_spec() {
            Err(TokenError::Zero(ZeroError))
        } else if value >= pow256(10) {
            Err(TokenError::Overflow(OverflowError))
        } else if self.is_paused_spec() {
            Err(TokenError::Paused)
        } else {
            match self.allowances_spec().decrease_outcome(from, spender, approval_of(value) as int) {
                Err(e) => Err(TokenError::Allowances(e)),
                Ok(()) => match self.balances_spec().transfer_outcome(from, to, value as int) {
                    Err(e) => Err(TokenError::Balances(e)),
                    Ok(()) => Ok(Some(transfer(from, to, value))),
                },
            }
        }
    }

    /// Moves `value` from `from` to `to` out of what `spender` may take from
    /// `from`. What is taken off the allowance is the value, or all of it
    /// where the value is more than an allowance can be.
    pub fn transfer_from(
        &mut self,
        spender: ActorId,
        from: ActorId,
        to: ActorId,
        value: U256,
        current_block: u32,
    ) -> (r: Result<Option<Event>, TokenError>)
        requires
            old(self).wf(),
        ensures
            final(self).wf(),
            r == old(self).transfer_from_outcome(spender, from, to, value.value()),
            !(r matches Ok(Some(_))) ==> final(self).unchanged(*old(self)),
            r matches Ok(Some(_)) ==> {
                &&& final(self).is_paused_spec() == old(self).is_paused_spec()
                &&& final(self).balances_spec().transferred(
                    old(self).balances_spec(),
                    from,
                    to,
                    value.value() as int,
                )
                &&& if spender == from {
                    final(self).allowances_spec().unchanged(old(self).allowances_spec())
                } else {
                    final(self).allowances_spec().decreased(
                        old(self).allowances_spec(),
                        from,
                        spender,
                        approval_of(value.value()) as int,
                        current_block,
                    )
                }
            },
    {
        if spender == from {
            return self.transfer(from, to, value);
        }
        proof {
            lemma_amounts();
            if value.value() == 0 {
                U256::lemma_as_int_injective(value, U256::zero_spec());
            }
        }
        if from == to || value.is_zero() {
            return Ok(None);
        }
        let owner = match NonZero::try_new(from) {
            Ok(a) => a,
            Err(e) => {
                return Err(TokenError::Zero(e));
            },
        };
        let spender_account = match NonZero::try_new(spender) {
            Ok(a) => a,
            Err(e) => {
                return Err(TokenError::Zero(e));
            },
        };
        let narrow = match value.try_resize::<10>() {
            Ok(b) => b,
            Err(e) => {
                return Err(TokenError::Overflow(e));
            },
        };
        let amount = match NonZero::try_new(narrow) {
            Ok(a) => a,
            Err(_) => unreached(),
        };
        let spent = match NonZero::try_new(allowance_from_balance(narrow)) {
            Ok(a) => a,
            Err(_) => unreached(),
        };
        if self.paused {
            return Err(TokenError::Paused);
        }
        match self.allowances.can_decrease(owner, spender_account, spent) {
            Ok(()) => {},
            Err(e) => {
                return Err(TokenError::Allowances(e));
            },
        }
        match self.balances.transfer(owner, to, amount) {
            Ok(()) => {},
            Err(e) => {
                return Err(TokenError::Balances(e));
            },
        }
        match self.allowances.decrease(owner, spender_account, spent, current_block) {
            Ok(()) => {},
            Err(_) => unreached(),
        }
        proof {
            value.lemma_with_value();
        }
        Ok(Some(Event::Transfer { from, to, value }))
    }

    /// What [`transfer_all`](Token::transfer_all) returns: nothing to report
    /// for a transfer to oneself; a refusal while the token is paused, for
    /// the zero account, or as the balances refuse; else the transfer to
    /// report, if the sender held anything.
    pub open spec fn transfer_all_outcome(self, from: ActorId, to: ActorId) -> Result<
        Option<Event>,
        TokenError,
    > {
        if from == to {
            Ok(None)
        } else if self.is_paused_spec() {
            Err(TokenError::Paused)
        } else if from == ActorId::zero_spec() || to == ActorId::zero_spec() {
            Err(TokenError::Zero(ZeroError))
        } else {
            match self.balances_spec().transfer_all_outcome(from, to) {
                Err(e) => Err(TokenError::Balances(e)),
                Ok(()) => if self.balance_spec(from) == 0 {
                    Ok(None)
                } else {
                    Ok(Some(transfer(from, to, self.balance_spec(from) as nat)))
                },
            }
        }
    }

    /// Moves all that `from` holds to `to`.
    pub fn transfer_all(&mut self, from: ActorId, to: ActorId) -> (r: Result<
        Option<Event>,
        TokenError,
    >)
        requires
            old(self).wf(),
        ensures
            final(self).wf(),
            r == old(self).transfer_all_outcome(from, to),
            !(r matches Ok(Some(_))) ==> final(self).unchanged(*old(self)),
            r matches Ok(Some(_)) ==> {
                &&& final(self).is_paused_spec() == old(self).is_paused_spec()
                &&& final(self).allowances_spec().unchanged(old(self).allowances_spec())
                &&& final(self).balances_spec().transferred_all(old(self).balances_spec(), from, to)
            },
    {
        if from == to {
            return Ok(None);
        }
        if self.paused {
            return Err(TokenError::Paused);
        }
        let sender = match NonZero::try_new(from) {
            Ok(a) => a,
            Err(e) => {
                return Err(TokenError::Zero(e));
            },
        };
        let receiver = match NonZero::try_new(to) {
            Ok(a) => a,
            Err(e) => {
                return Err(TokenError::Zero(e));
            },
        };
        proof {
            lemma_amounts();
            self.balances.lemma_supply_is_conserved(from);
        }
        let moved = match self.balances.transfer_all(sender, receiver) {
            Ok(m) => m,
            Err(e) => {
                return Err(TokenError::Balances(e));
            },
        };
        proof {
            if moved.value() == 0 {
                Balance::lemma_as_int_injective(moved, Balance::zero_spec());
            }
        }
        if moved.is_zero() {
            return Ok(None);
        }
        let value = moved.widen();
        proof {
            value.lemma_with_value();
        }
        Ok(Some(Event::Transfer { from, to, value }))
    }

    /// What [`transfer_all_from`](Token::transfer_all_from) returns. The
    /// spender who is the owner makes a plain transfer of all. Else: nothing
    /// to report for a transfer to the owner itself; a refusal for the zero
    /// account, while the token is paused, as the balances refuse, or as the
    /// allowances refuse, in this order; nothing to report where the owner
    /// holds nothing; else the transfer to report.
    pub open spec fn transfer_all_from_outcome(self, spender: ActorId, from: ActorId, to: ActorId)
        -> Result<Option<Event>, TokenError> {
        let held = self.balance_spec(from) as nat;
        if spender == from {
            self.transfer_all_outcome(from, to)
        } else if from == to {
            Ok(None)
        } else if spender == ActorId::zero_spec() || from == ActorId::zero_spec() || to
            == ActorId::zero_spec() {
            Err(TokenError::Zero(ZeroError))
        } else if self.is_paused_spec() {
            Err(TokenError::Paused)
        } else {
            match self.balances_spec().transfer_all_outcome(from, to) {
                Err(e) => Err(TokenError::Balances(e)),
                Ok(()) => if held == 0 {
                    Ok(None)
                } else {
                    match self.allowances_spec().decrease_outcome(
                        from,
                        spender,
                        approval_of(held) as int,
                    ) {
                        Err(e) => Err(TokenError::Allowances(e)),
                        Ok(()) => Ok(Some(transfer(from, to, held))),
                    }
                },
            }
        }
    }

    /// Moves all that `from` holds to `to` out of what `spender` may take
    /// from `from`.
    pub fn transfer_all_from(
        &mut self,
        spender: ActorId,
        from: ActorId,
        to: ActorId,
        current_block: u32,
    ) -> (r: Result<Option<Event>, TokenError>)
        requires
            old(self).wf(),
        ensures
            final(self).wf(),
            r == old(self).transfer_all_from_outcome(spender, from, to),
            !(r matches Ok(Some(_))) ==> final(self).unchanged(*old(self)),
            r matches Ok(Some(_)) ==> {
                &&& final(self).is_paused_spec() == old(self).is_paused_spec()
                &&& final(self).balances_spec().transferred_all(old(self).balances_spec(), from, to)
                &&& if spender == from {
                    final(self).allowances_spec().unchanged(old(self).allowances_spec())
                } else {
                    final(self).allowances_spec().decreased(
                        old(self).allowances_spec(),
                        from,
                        spender,
                        approval_of(old(self).balance_spec(from) as nat) as int,
                        current_block,
                    )
                }
            },
    {
        if spender == from {
            return self.transfer_all(from, to);
        }
        if from == to {
            return Ok(None);
        }
        let spender_account = match NonZero::try_new(spender) {
            Ok(a) => a,
            Err(e) => {
                return Err(TokenError::Zero(e));
            },
        };
        let owner = match NonZero::try_new(from) {
            Ok(a) => a,
            Err(e) => {
                return Err(TokenError::Zero(e));
            },
        };
        let receiver = match NonZero::try_new(to) {
            Ok(a) => a,
            Err(e) => {
                return Err(TokenError::Zero(e));
            },
        };
        if self.paused {
            return Err(TokenError::Paused);
        }
        proof {
            lemma_amounts();
            self.balances.lemma_supply_is_conserved(from);
        }
        match self.balances.can_transfer_all(owner, receiver) {
            Ok(()) => {},
            Err(e) => {
                return Err(TokenError::Balances(e));
            },
        }
        let held = self.balances.get(owner);
        proof {
            if held.value() == 0 {
                Balance::lemma_as_int_injective(held, Balance::zero_spec());
            }
        }
        if held.is_zero() {
            return Ok(None);
        }
        let spent = match NonZero::try_new(allowance_from_balance(held)) {
            Ok(a) => a,
            Err(_) => unreached(),
        };
        match self.allowances.decrease(owner, spender_account, spent, current_block) {
            Ok(()) => {},
            Err(e) => {
                return Err(TokenError::Allowances(e));
            },
        }
        let moved = match self.balances.transfer_all(owner, receiver) {
            Ok(m) => m,
            Err(_) => unreached(),
        };
        let value = moved.widen();
        proof {
            value.lemma_with_value();
        }
        Ok(Some(Event::Transfer { from, to, value }))
    }

    /// What [`remove_expired_allowance`](Token::remove_expired_allowance)
    /// returns: nothing to report for an account on itself; a refusal for the
    /// zero account or while the token is paused; nothing to report where
    /// there is no allowance; a refusal where the allowance has not expired;
    /// else the approval of nothing to report.
    pub open spec fn remove_expired_outcome(
        self,
        owner: ActorId,
        spender: ActorId,
        current_block: u32,
    ) -> Result<Option<Event>, TokenError> {
        if owner == spender {
            Ok(None)
        } else if owner == ActorId::zero_spec() || spender == ActorId::zero_spec() {
            Err(TokenError::Zero(ZeroError))
        } else if self.is_paused_spec() {
            Err(TokenError::Paused)
        } else if !self.allowances_spec().holds(owner, spender) {
            Ok(None)
        } else if self.allowances_spec().expiry_of(owner, spender) >= current_block {
            Err(TokenError::NotExpired(AllowanceNotExpiredError))
        } else {
            Ok(Some(approval(owner, spender, 0)))
        }
    }

    /// Takes the allowance of `spender` on `owner` away if it expired before
    /// `current_block`.
    pub fn remove_expired_allowance(&mut self, owner: ActorId, spender: ActorId, current_block: u32)
        -> (r: Result<Option<Event>, TokenError>)
        requires
            old(self).wf(),
        ensures
            final(self).wf(),
            r == old(self).remove_expired_outcome(owner, spender, current_block),
            !(r matches Ok(Some(_))) ==> final(self).unchanged(*old(self)),
            r matches Ok(Some(_)) ==> {
                &&& final(self).is_paused_spec() == old(self).is_paused_spec()
                &&& final(self).balances_spec().unchanged(old(self).balances_spec())
                &&& final(self).allowances_spec().removed(
                    old(self).allowances_spec(),
                    owner,
                    spender,
                )
            },
    {
        if owner == spender {
            return Ok(None);
        }
        let owner_account = match NonZero::try_new(owner) {
            Ok(a) => a,
            Err(e) => {
                return Err(TokenError::Zero(e));
            },
        };
        let spender_account = match NonZero::try_new(spender) {
            Ok(a) => a,
            Err(e) => {
                return Err(TokenError::Zero(e));
            },
        };
        if self.paused {
            return Err(TokenError::Paused);
        }
        let key = (owner.key(), spender.key());
        let expiry = match self.allowances.store().get(&key) {
            Some((_, entry)) => entry.1,
            None => {
                return Ok(None);
            },
        };
        if expiry >= current_block {
            return Err(TokenError::NotExpired(AllowanceNotExpiredError));
        }
        self.allowances.remove(owner_account, spender_account);
        let value = U256::zero();
        proof {
            lemma_amounts();
            value.lemma_with_value();
        }
        Ok(Some(Event::Approval { owner, spender, value }))
    }

    /// What [`mint`](Token::mint) returns: nothing to report for the value
    /// zero; a refusal while the token is paused, for the zero account, for
    /// more than a balance can be, or as the balances refuse; else the
    /// transfer from the zero account to report.
    pub open spec fn mint_outcome(self, to: ActorId, value: nat) -> Result<
        Option<Event>,
        TokenError,
    > {
        if value == 0 {
            Ok(None)
        } else if self.is_paused_spec() {
            Err(TokenError::Paused)
        } else if to == ActorId::zero_spec() {
            Err(TokenError::Zero(ZeroError))
        } else if value >= pow256(10) {
            Err(TokenError::Overflow(OverflowError))
        } else {
            match self.balances_spec().mint_outcome(to, value as int) {
                Err(e) => Err(TokenError::Balances(e)),
                Ok(()) => Ok(Some(transfer(ActorId::zero_spec(), to, value))),
            }
        }
    }

    /// Creates `value` on the account `to`.
    pub fn mint(&mut self, to: ActorId, value: U256) -> (r: Result<Option<Event>, TokenError>)
        requires
            old(self).wf(),
        ensures
            final(self).wf(),
            r == old(self).mint_outcome(to, value.value()),
            !(r matches Ok(Some(_))) ==> final(self).unchanged(*old(self)),
            r matches Ok(Some(_)) ==> {
                &&& final(self).is_paused_spec() == old(self).is_paused_spec()
                &&& final(self).allowances_spec().unchanged(old(self).allowances_spec())
                &&& final(self).balances_spec().minted(
                    old(self).balances_spec(),
                    to,
                    value.value() as int,
                )
            },
    {
        proof {
            lemma_amounts();
            if value.value() == 0 {
                U256::lemma_as_int_injective(value, U256::zero_spec());
            }
        }
        if value.is_zero() {
            return Ok(None);
        }
        if self.paused {
            return Err(TokenError::Paused);
        }
        let receiver = match NonZero::try_new(to) {
            Ok(a) => a,
            Err(e) => {
                return Err(TokenError::Zero(e));
            },
        };
        let narrow = match value.try_resize::<10>() {
            Ok(b) => b,
            Err(e) => {
                return Err(TokenError::Overflow(e));
            },
        };
        let amount = match NonZero::try_new(narrow) {
            Ok(a) => a,
            Err(_) => unreached(),
        };
        match self.balances.mint(receiver, amount) {
            Ok(()) => {},
            Err(e) => {
                return Err(TokenError::Balances(e));
            },
        }
        proof {
            value.lemma_with_value();
        }
        Ok(Some(Event::Transfer { from: ActorId::zero(), to, value }))
    }

    /// What [`burn`](Token::burn) returns: a refusal while the token is
    /// paused, for the zero account, for more than a balance can be, for the
    /// value zero, or as the balances refuse; else the transfer to the zero
    /// account to report.
    pub open spec fn burn_outcome(self, from: ActorId, value: nat) -> Result<Event, TokenError> {
        if self.is_paused_spec() {
            Err(TokenError::Paused)
        } else if from == ActorId::zero_spec() {
            Err(TokenError::Zero(ZeroError))
        } else if value >= pow256(10) {
            Err(TokenError::Overflow(OverflowError))
        } else if value == 0 {
            Err(TokenError::Zero(ZeroError))
        } else {
            match self.balances_spec().burn_outcome(from, value as int) {
                Err(e) => Err(TokenError::Balances(e)),
                Ok(()) => Ok(transfer(from, ActorId::zero_spec(), value)),
            }
        }
    }

    /// Destroys `value` on the account `from`.
    pub fn burn(&mut self, from: ActorId, value: U256) -> (r: Result<Event, TokenError>)
        requires
            old(self).wf(),
        ensures
            final(self).wf(),
            r == old(self).burn_outcome(from, value.value()),
            r is Err ==> final(self).unchanged(*old(self)),
            r is Ok ==> {
                &&& final(self).is_paused_spec() == old(self).is_paused_spec()
                &&& final(self).allowances_spec().unchanged(old(self).allowances_spec())
                &&& final(self).balances_spec().burnt(
                    old(self).balances_spec(),
                    from,
                    value.value() as int,
                )
            },
    {
        proof {
            lemma_amounts();
        }
        if self.paused {
            return Err(TokenError::Paused);
        }
        let account = match NonZero::try_new(from) {
            Ok(a) => a,
            Err(e) => {
                return Err(TokenError::Zero(e));
            },
        };
        let narrow = match value.try_resize::<10>() {
            Ok(b) => b,
            Err(e) => {
                return Err(TokenError::Overflow(e));
            },
        };
        proof {
            if narrow.value() == 0 {
                Balance::lemma_as_int_injective(narrow, Balance::zero_spec());
            }
        }
        let amount = match NonZero::try_new(narrow) {
            Ok(a) => a,
            Err(e) => {
                return Err(TokenError::Zero(e));
            },
        };
        match self.balances.burn(account, amount) {
            Ok(()) => {},
            Err(e) => {
                return Err(TokenError::Balances(e));
            },
        }
        proof {
            value.lemma_with_value();
        }
        Ok(Event::Transfer { from, to: ActorId::zero(), value })
    }

    /// What `spender` may take from `owner`, as the outside sees it: the
    /// greatest number for an allowance without limit. Fails for the zero
    /// account.
    pub fn allowance(&self, owner: ActorId, spender: ActorId) -> (r: Result<U256, TokenError>)
        requires
            self.wf(),
        ensures
            r is Err <==> owner == ActorId::zero_spec() || spender == ActorId::zero_spec(),
            r is Err ==> r == Err::<U256, TokenError>(TokenError::Zero(ZeroError)),
            r is Ok ==> r->Ok_0.value() == shown(self.allowance_spec(owner, spender)),
    {
        let owner_account = match NonZero::try_new(owner) {
            Ok(a) => a,
            Err(e) => {
                return Err(TokenError::Zero(e));
            },
        };
        let spender_account = match NonZero::try_new(spender) {
            Ok(a) => a,
            Err(e) => {
                return Err(TokenError::Zero(e));
            },
        };
        let amount = self.allowances.get(owner_account, spender_account);
        proof {
            lemma_amounts();
            amount.lemma_in_range();
            if amount.value() == sentinel() {
                Allowance::lemma_as_int_injective(amount, Allowance::max_spec());
            }
        }
        if amount.is_max() {
            Ok(U256::max_value())
        } else {
            Ok(amount.widen())
        }
    }

    /// What `account` holds. Fails for the zero account.
    pub fn balance_of(&self, account: ActorId) -> (r: Result<U256, TokenError>)
        requires
            self.wf(),
        ensures
            r is Err <==> account == ActorId::zero_spec(),
            r is Err ==> r == Err::<U256, TokenError>(TokenError::Zero(ZeroError)),
            r is Ok ==> r->Ok_0.value() == self.balance_spec(account),
    {
        let holder = match NonZero::try_new(account) {
            Ok(a) => a,
            Err(e) => {
                return Err(TokenError::Zero(e));
            },
        };
        Ok(self.balances.get(holder).widen())
    }

    /// The total supply.
    pub fn total_supply(&self) -> (t: U256)
        ensures
            t.value() == self.balances_spec().total_spec(),
    {
        self.balances.total_supply()
    }
}

} // verus!
