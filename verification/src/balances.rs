//! The balances of a token.
//!
//! An account that holds nothing has no entry. The ledger keeps a total
//! supply and an amount that belongs to nobody, the dust swept off accounts
//! that would have dropped under the minimum balance. At every moment between
//! two operations the balances and the dust add up to the total supply
//! ([`Balances::wf`]).
//!
//! Every operation checks all that can fail before it writes anything: a call
//! that returns an error has changed nothing.
use crate::actor::ActorId;
use crate::amount::{Amount, U256};
use crate::map::{
    lemma_first_room, lemma_home, lemma_homes_with, lemma_homes_without, with_key_at,
    without_key_at, ShardedMap, ShardedMapError,
};
use crate::math::{CheckedMath, MathError, OverflowError, UnderflowError, Zero, ZeroError};
use crate::non_zero::NonZero;
use crate::sum::{lemma_sum_at_least, lemma_sum_insert, lemma_sum_remove, sum_values};
use vstd::prelude::*;

verus! {

/// The key of a balance: an account other than the zero account.
pub type BalancesKey = NonZero<ActorId>;

/// The value of a balance: an amount other than zero.
pub type BalancesValue<T> = NonZero<T>;

/// Why an operation on the balances failed.
#[derive(Clone, Copy, Debug, PartialEq, Eq, Structural)]
pub enum BalancesError {
    /// A balance would have ended under the minimum balance.
    BelowMinimum,
    /// The account does not hold what was to leave it.
    Insufficient(UnderflowError),
    /// The map of the balances refused the entry.
    ShardedMap(ShardedMapError),
    /// A balance or the total supply would have left its range.
    Overflow(OverflowError),
    /// A sum of amounts was zero, which no unsigned amount type allows.
    Zero(ZeroError),
}

impl BalancesError {
    /// The text shown for this error.
    pub fn message(&self) -> (s: String)
        ensures
            s@ == match *self {
                BalancesError::BelowMinimum => "balance below minimum"@,
                BalancesError::Insufficient(_) => "insufficient balance"@,
                BalancesError::ShardedMap(ShardedMapError::CapacityOverflow) =>
                    "sharded map error: capacity overflow"@,
                BalancesError::ShardedMap(ShardedMapError::InvalidCapacity) =>
                    "sharded map error: invalid capacity"@,
                BalancesError::Overflow(_) => "balance or supply overflow"@,
                BalancesError::Zero(_) => "unexpected zero value"@,
            },
    {
        match self {
            BalancesError::BelowMinimum => "balance below minimum".to_string(),
            BalancesError::Insufficient(_) => "insufficient balance".to_string(),
            BalancesError::ShardedMap(ShardedMapError::CapacityOverflow) =>
                "sharded map error: capacity overflow".to_string(),
            BalancesError::ShardedMap(ShardedMapError::InvalidCapacity) =>
                "sharded map error: invalid capacity".to_string(),
            BalancesError::Overflow(_) => "balance or supply overflow".to_string(),
            BalancesError::Zero(_) => "unexpected zero value".to_string(),
        }
    }
}

/// The integers that the amounts of a map stand for, key by key.
pub open spec fn amounts_of<K, T: Amount>(m: Map<K, NonZero<T>>) -> Map<K, int> {
    Map::new(|k: K| m.contains_key(k), |k: K| m[k].as_int())
}

/// Binding a key to an amount binds it to the integer of that amount.
pub proof fn lemma_amounts_insert<K, T: Amount>(m: Map<K, NonZero<T>>, k: K, v: NonZero<T>)
    ensures
        amounts_of(m.insert(k, v)) == amounts_of(m).insert(k, v.as_int()),
{
    assert(amounts_of(m.insert(k, v)) =~= amounts_of(m).insert(k, v.as_int()));
}

/// Removing a key removes its integer.
pub proof fn lemma_amounts_remove<K, T: Amount>(m: Map<K, NonZero<T>>, k: K)
    ensures
        amounts_of(m.remove(k)) == amounts_of(m).remove(k),
{
    assert(amounts_of(m.remove(k)) =~= amounts_of(m).remove(k));
}

/// The greatest number that the total supply can be.
pub open spec fn supply_limit() -> int {
    <U256 as CheckedMath>::max_int()
}

/// The ledger of the balances: what each account holds, the least that an
/// account may hold, the total supply, and the dust that belongs to nobody.
pub struct Balances<T: Amount> {
    minimum_balance: T,
    store: ShardedMap<(u128, u128), NonZero<T>>,
    total: U256,
    unused: U256,
}

impl<T: Amount> Balances<T> {
    /// The map that holds the balances, keyed by the two halves of the
    /// account identifier.
    pub closed spec fn store_spec(self) -> ShardedMap<(u128, u128), NonZero<T>> {
        self.store
    }

    /// The minimum balance.
    pub closed spec fn minimum_spec(self) -> T {
        self.minimum_balance
    }

    /// The total supply.
    pub closed spec fn total_spec(self) -> nat {
        self.total.value()
    }

    /// The dust: what was swept off accounts and belongs to nobody.
    pub closed spec fn unused_spec(self) -> nat {
        self.unused.value()
    }

    /// The least number that an account may hold.
    pub open spec fn minimum(self) -> int {
        self.minimum_spec().as_int()
    }

    /// What the accounts hold, as integers, keyed by the two halves of the
    /// account identifier.
    pub open spec fn amounts(self) -> Map<(u128, u128), int> {
        amounts_of(self.store_spec()@)
    }

    /// Whether `account` has an entry.
    pub open spec fn holds(self, account: ActorId) -> bool {
        self.amounts().contains_key(account.key_spec())
    }

    /// What `account` holds: the amount of its entry, or zero where it has
    /// none.
    pub open spec fn balance_of(self, account: ActorId) -> int {
        if self.holds(account) {
            self.amounts()[account.key_spec()]
        } else {
            0
        }
    }

    /// The invariant of the ledger: the map is well-formed, the balances and
    /// the dust add up to the total supply, and every entry is a positive
    /// amount of an account other than the zero account.
    pub open spec fn wf(self) -> bool {
        &&& self.store_spec().wf()
        &&& sum_values(self.amounts()) + self.unused_spec() == self.total_spec()
        &&& forall|k: (u128, u128)| #[trigger]
            self.amounts().contains_key(k) ==> k != (0u128, 0u128) && self.amounts()[k] > 0
    }

    /// Whether no account holds less than the minimum balance.
    pub open spec fn above_minimum(self) -> bool {
        forall|k: (u128, u128)| #[trigger]
            self.amounts().contains_key(k) ==> self.amounts()[k] >= self.minimum()
    }

    /// Whether `self` holds what `before` held: the same shards with the same
    /// entries, the same minimum, total supply and dust.
    pub open spec fn unchanged(self, before: Self) -> bool {
        &&& self.store_spec().shards() == before.store_spec().shards()
        &&& self.minimum_spec() == before.minimum_spec()
        &&& self.total_spec() == before.total_spec()
        &&& self.unused_spec() == before.unused_spec()
    }

    /// Whether what is left of a balance stays as an entry: it is positive
    /// and not under the minimum.
    pub open spec fn keeps(self, rest: int) -> bool {
        rest > 0 && rest >= self.minimum()
    }

    /// What of the rest of a balance is swept to the dust: all of it where it
    /// is positive and under the minimum, else nothing.
    pub open spec fn dust_of(self, rest: int) -> int {
        if 0 < rest < self.minimum() {
            rest
        } else {
            0
        }
    }

    /// The amounts after `value` left `account`: the rest where it stays, no
    /// entry where it does not.
    pub open spec fn amounts_after_debit(self, account: ActorId, value: int) -> Map<
        (u128, u128),
        int,
    > {
        let rest = self.balance_of(account) - value;
        if self.keeps(rest) {
            self.amounts().insert(account.key_spec(), rest)
        } else {
            self.amounts().remove(account.key_spec())
        }
    }

    /// The account keys that each shard holds.
    pub open spec fn homes(self) -> Seq<Set<(u128, u128)>> {
        self.store_spec().homes()
    }

    /// The declared capacity of each shard, and whether it is allocated.
    pub open spec fn layout(self) -> Seq<(nat, bool)> {
        self.store_spec().layout()
    }

    /// The shard in which an account without an entry gets one: the first
    /// that can take one more entry.
    pub open spec fn next_home(self) -> int {
        self.store_spec().first_room()
    }

    /// The keys of each shard after `value` left `account`: as before where
    /// the rest stays, without the account's key where it does not.
    pub open spec fn homes_after_debit(self, account: ActorId, value: int) -> Seq<
        Set<(u128, u128)>,
    > {
        if self.keeps(self.balance_of(account) - value) {
            self.homes()
        } else {
            without_key_at(self.homes(), self.store_spec().home_of(account.key_spec()), account.key_spec())
        }
    }

    /// Whether `self` is `before` after `value` was minted to `account`: the
    /// account holds that much more, and so does the total supply; an account
    /// without an entry got one in the first shard with room.
    pub open spec fn minted(self, before: Self, account: ActorId, value: int) -> bool {
        &&& self.amounts() == before.amounts().insert(
            account.key_spec(),
            before.balance_of(account) + value,
        )
        &&& self.total_spec() == before.total_spec() + value
        &&& self.unused_spec() == before.unused_spec()
        &&& self.minimum_spec() == before.minimum_spec()
        &&& self.layout() == before.layout()
        &&& self.homes() == if before.holds(account) {
            before.homes()
        } else {
            with_key_at(before.homes(), before.next_home(), account.key_spec())
        }
    }

    /// Whether `self` is `before` after `value` was burnt on `account`: the
    /// rest stays or is swept to the dust, and the total supply is that much
    /// less.
    pub open spec fn burnt(self, before: Self, account: ActorId, value: int) -> bool {
        &&& self.amounts() == before.amounts_after_debit(account, value)
        &&& self.unused_spec() == before.unused_spec() + before.dust_of(
            before.balance_of(account) - value,
        )
        &&& self.total_spec() == before.total_spec() - value
        &&& self.minimum_spec() == before.minimum_spec()
        &&& self.layout() == before.layout()
        &&& self.homes() == before.homes_after_debit(account, value)
    }

    /// Whether `self` is `before` after all that `account` held was burnt.
    pub open spec fn emptied(self, before: Self, account: ActorId) -> bool {
        &&& self.amounts() == before.amounts().remove(account.key_spec())
        &&& self.total_spec() == before.total_spec() - before.balance_of(account)
        &&& self.unused_spec() == before.unused_spec()
        &&& self.minimum_spec() == before.minimum_spec()
        &&& self.layout() == before.layout()
        &&& self.homes() == if before.holds(account) {
            without_key_at(
                before.homes(),
                before.store_spec().home_of(account.key_spec()),
                account.key_spec(),
            )
        } else {
            before.homes()
        }
    }

    /// Whether `self` is `before` after `value` went from `from` to another
    /// account `to`. To the zero account this is a burn. Else the total
    /// supply stays, the sender's rest stays or is swept to the dust, and a
    /// receiver without an entry got one: in the sender's place where the
    /// sender lost its entry, in the first shard with room where it did not.
    pub open spec fn transferred(self, before: Self, from: ActorId, to: ActorId, value: int)
        -> bool {
        let debited = before.homes_after_debit(from, value);
        &&& self.minimum_spec() == before.minimum_spec()
        &&& self.layout() == before.layout()
        &&& self.unused_spec() == before.unused_spec() + before.dust_of(
            before.balance_of(from) - value,
        )
        &&& self.total_spec() == before.total_spec() - (if to == ActorId::zero_spec() {
            value
        } else {
            0
        })
        &&& self.amounts() == (if to == ActorId::zero_spec() {
            before.amounts_after_debit(from, value)
        } else {
            before.amounts_after_debit(from, value).insert(
                to.key_spec(),
                before.balance_of(to) + value,
            )
        })
        &&& self.homes() == (if to == ActorId::zero_spec() || before.holds(to) {
            debited
        } else if before.keeps(before.balance_of(from) - value) {
            with_key_at(debited, before.next_home(), to.key_spec())
        } else {
            with_key_at(debited, before.store_spec().home_of(from.key_spec()), to.key_spec())
        })
    }

    /// Whether `self` is `before` after all that `from` held went to another
    /// account `to`: the sender lost its entry, and a receiver without an
    /// entry got one in the sender's place.
    pub open spec fn transferred_all(self, before: Self, from: ActorId, to: ActorId) -> bool {
        let home = before.store_spec().home_of(from.key_spec());
        let debited = without_key_at(before.homes(), home, from.key_spec());
        &&& self.minimum_spec() == before.minimum_spec()
        &&& self.total_spec() == before.total_spec()
        &&& self.unused_spec() == before.unused_spec()
        &&& self.layout() == before.layout()
        &&& self.amounts() == before.amounts().remove(from.key_spec()).insert(
            to.key_spec(),
            before.balance_of(to) + before.balance_of(from),
        )
        &&& self.homes() == (if before.holds(to) {
            debited
        } else {
            with_key_at(debited, home, to.key_spec())
        })
    }

    /// The amounts are finitely many, none of them negative.
    pub proof fn lemma_amounts(self)
        requires
            self.wf(),
        ensures
            self.amounts().dom().finite(),
            forall|k: (u128, u128)| self.amounts().contains_key(k) ==> self.amounts()[k] >= 0,
            self.total_spec() <= supply_limit(),
            self.unused_spec() <= self.total_spec(),
            sum_values(self.amounts()) + self.unused_spec() == self.total_spec(),
    {
        self.store_spec().lemma_finite();
        assert(self.amounts().dom() =~= self.store_spec()@.dom());
        self.total.lemma_in_range();
        crate::sum::lemma_sum_non_negative(self.amounts());
    }

    /// The balances and the dust add up to the total supply, and no account
    /// holds more than the total supply.
    pub proof fn lemma_supply_is_conserved(self, account: ActorId)
        requires
            self.wf(),
        ensures
            sum_values(self.amounts()) + self.unused_spec() == self.total_spec(),
            0 <= self.balance_of(account) <= self.total_spec(),
    {
        self.lemma_amounts();
        if self.holds(account) {
            lemma_sum_at_least(self.amounts(), account.key_spec());
        }
    }
}

/// An amount other than zero stands for a positive number.
pub proof fn lemma_positive<T: Amount>(v: T)
    requires
        v != T::zero_spec(),
    ensures
        0 < v.as_int() <= T::max_int(),
{
    T::lemma_constants();
    T::lemma_unsigned();
    v.lemma_in_range();
    if v.as_int() == 0 {
        T::lemma_as_int_injective(v, T::zero_spec());
    }
}

/// An account other than the zero account has a key other than `(0, 0)`.
pub proof fn lemma_account_key(account: ActorId)
    requires
        account != ActorId::zero_spec(),
    ensures
        account.key_spec() != (0u128, 0u128),
{
    ActorId::lemma_zero_key();
    account.lemma_key_injective(ActorId::zero_spec());
}

impl<T: Amount> Balances<T> {
    /// The capacity that is recommended for the largest shard.
    pub const DEFAULT_MAX_SHARD: usize = 0b111000000000000000000000;

    /// A ledger without balances, with one shard for each of `capacities`,
    /// none of them allocated yet. Fails unless every capacity is one that a
    /// shard may declare.
    pub fn try_new(capacities: Vec<usize>, minimum_balance: T) -> (r: Result<Self, BalancesError>)
        ensures
            r is Ok <==> forall|i: int|
                0 <= i < capacities@.len() ==> crate::map::is_valid_capacity_spec(
                    #[trigger] capacities@[i],
                ),
            r is Err ==> r->Err_0 == BalancesError::ShardedMap(ShardedMapError::InvalidCapacity),
            r is Ok ==> ({
                let b = r->Ok_0;
                &&& b.wf()
                &&& b.above_minimum()
                &&& b.amounts() == Map::<(u128, u128), int>::empty()
                &&& b.minimum_spec() == minimum_balance
                &&& b.total_spec() == 0
                &&& b.unused_spec() == 0
                &&& b.store_spec().shards().len() == capacities@.len()
                &&& b.store_spec().declared().to_multiset() == capacities@.to_multiset()
                &&& forall|i: int, j: int|
                    0 <= i <= j < b.store_spec().declared().len() ==> b.store_spec().declared()[i]
                        >= b.store_spec().declared()[j]
                &&& forall|i: int|
                    0 <= i < b.store_spec().shards().len() ==> !(
                    #[trigger] b.store_spec().shards()[i]).allocated
            }),
    {
        let store = match ShardedMap::try_new(capacities) {
            Ok(store) => store,
            Err(e) => {
                return Err(BalancesError::ShardedMap(e));
            },
        };
        let b = Balances { store, minimum_balance, total: U256::zero(), unused: U256::zero() };
        proof {
            <U256 as crate::math::Math>::lemma_constants();
            assert(b.amounts() =~= Map::<(u128, u128), int>::empty());
        }
        Ok(b)
    }

    /// The minimum balance.
    pub fn minimum_balance(&self) -> (m: &T)
        ensures
            *m == self.minimum_spec(),
    {
        &self.minimum_balance
    }

    /// The total supply.
    pub fn total_supply(&self) -> (t: U256)
        ensures
            t.value() == self.total_spec(),
    {
        self.total
    }

    /// The dust: what was swept off accounts and belongs to nobody.
    pub fn unused_value(&self) -> (u: U256)
        ensures
            u.value() == self.unused_spec(),
    {
        self.unused
    }

    /// The map that holds the balances, for looking into it.
    pub fn store(&self) -> (m: &ShardedMap<(u128, u128), NonZero<T>>)
        ensures
            *m == self.store_spec(),
    {
        &self.store
    }

    /// Allocates the first shard that is not allocated yet, if there is one,
    /// and says whether shards without allocation remain after that.
    pub fn allocate_next_shard(&mut self) -> (more: bool)
        requires
            old(self).wf(),
        ensures
            final(self).wf(),
            final(self).amounts() == old(self).amounts(),
            final(self).minimum_spec() == old(self).minimum_spec(),
            final(self).total_spec() == old(self).total_spec(),
            final(self).unused_spec() == old(self).unused_spec(),
            final(self).store_spec().declared() == old(self).store_spec().declared(),
            more == (exists|j: int|
                0 <= j < final(self).store_spec().shards().len() && !(
                #[trigger] final(self).store_spec().shards()[j]).allocated),
            final(self).store_spec().shards() == crate::map::after_allocation(
                old(self).store_spec().shards(),
            ),
            (forall|j: int|
                0 <= j < old(self).store_spec().shards().len() ==> (
                #[trigger] old(self).store_spec().shards()[j]).allocated) ==> final(self).unchanged(
                *old(self),
            ),
    {
        self.store.alloc_next_shard()
    }

    /// Sets the minimum balance. Accounts that hold less than the new minimum
    /// keep what they hold until an operation touches them.
    pub fn set_minimum_balance(&mut self, minimum_balance: T)
        requires
            old(self).wf(),
        ensures
            final(self).wf(),
            final(self).minimum_spec() == minimum_balance,
            final(self).store_spec() == old(self).store_spec(),
            final(self).total_spec() == old(self).total_spec(),
            final(self).unused_spec() == old(self).unused_spec(),
            old(self).above_minimum() && minimum_balance.as_int() <= old(self).minimum()
                ==> final(self).above_minimum(),
    {
        self.minimum_balance = minimum_balance;
    }

    /// Declares one more shard, after the others and not allocated yet. Fails
    /// unless `capacity` is one that a shard may declare.
    pub fn try_append_shard(&mut self, capacity: usize) -> (r: Result<(), BalancesError>)
        requires
            old(self).wf(),
        ensures
            final(self).wf(),
            r is Ok <==> crate::map::is_valid_capacity_spec(capacity),
            r is Err ==> r->Err_0 == BalancesError::ShardedMap(ShardedMapError::InvalidCapacity)
                && final(self).unchanged(*old(self)),
            final(self).amounts() == old(self).amounts(),
            final(self).minimum_spec() == old(self).minimum_spec(),
            final(self).total_spec() == old(self).total_spec(),
            final(self).unused_spec() == old(self).unused_spec(),
            r is Ok ==> {
                &&& final(self).store_spec().declared()
                    == old(self).store_spec().declared().push(capacity)
                &&& final(self).store_spec().shards()
                    == old(self).store_spec().shards().push(crate::map::new_shard(capacity))
            },
    {
        match self.store.try_append_shard(capacity) {
            Ok(()) => Ok(()),
            Err(e) => Err(BalancesError::ShardedMap(e)),
        }
    }

    /// What `account` holds: the amount of its entry, or zero where it has
    /// none.
    pub fn get(&self, account: NonZero<ActorId>) -> (amount: T)
        requires
            self.wf(),
        ensures
            amount.as_int() == self.balance_of(account.value()),
    {
        let key = account.into_inner().key();
        match self.store.get(&key) {
            Some((_, balance)) => balance.into_inner(),
            None => {
                proof {
                    T::lemma_constants();
                }
                T::zero()
            },
        }
    }

    /// What [`mint`](Balances::mint) returns for `value` minted to `account`:
    /// an overflow of the total supply or of the balance comes first, then a
    /// balance under the minimum, then a map without room for a new account.
    pub open spec fn mint_outcome(self, account: ActorId, value: int) -> Result<
        (),
        BalancesError,
    > {
        if self.total_spec() + value > supply_limit() || self.balance_of(account) + value
            > T::max_int() {
            Err(BalancesError::Overflow(OverflowError))
        } else if self.balance_of(account) + value < self.minimum() {
            Err(BalancesError::BelowMinimum)
        } else if !self.holds(account) && !self.store_spec().has_space_spec() {
            Err(BalancesError::ShardedMap(ShardedMapError::CapacityOverflow))
        } else {
            Ok(())
        }
    }

    /// Creates `value` on `account` and adds it to the total supply. An
    /// account without an entry gets one in the first shard that can take one
    /// more; an entry that is there stays in its shard.
    pub fn mint(&mut self, account: NonZero<ActorId>, value: NonZero<T>) -> (r: Result<
        (),
        BalancesError,
    >)
        requires
            old(self).wf(),
        ensures
            final(self).wf(),
            r == old(self).mint_outcome(account.value(), value.as_int()),
            r is Err ==> final(self).unchanged(*old(self)),
            r is Ok ==> final(self).minted(*old(self), account.value(), value.as_int()),
            old(self).above_minimum() ==> final(self).above_minimum(),
    {
        let id = account.into_inner();
        let key = id.key();
        let amount = value.into_inner();
        proof {
            lemma_positive(amount);
            lemma_account_key(id);
            self.lemma_amounts();
            T::lemma_constants();
            T::lemma_unsigned();
            if self.holds(id) {
                lemma_sum_at_least(self.amounts(), key);
            }
        }
        let new_total = match self.total.checked_add(amount.widen()) {
            Some(t) => t,
            None => {
                return Err(BalancesError::Overflow(OverflowError));
            },
        };
        let found = match self.store.get(&key) {
            Some((idx, balance)) => Some((idx, *balance)),
            None => None,
        };
        let ghost before = self.store@;
        let ghost shards = self.store.shards();
        match found {
            Some((idx, balance)) => {
                let new_balance = match balance.try_add(value) {
                    Ok(b) => b,
                    Err(MathError::Overflow(e)) => {
                        return Err(BalancesError::Overflow(e));
                    },
                    Err(MathError::Zero(e)) => {
                        return Err(BalancesError::Zero(e));
                    },
                    Err(MathError::Underflow(e)) => {
                        return Err(BalancesError::Insufficient(e));
                    },
                };
                if !new_balance.into_inner().at_least(&self.minimum_balance) {
                    return Err(BalancesError::BelowMinimum);
                }
                match self.store.get_mut_at(idx, &key) {
                    Some(slot) => {
                        *slot = new_balance;
                    },
                    None => unreached(),
                }
                proof {
                    lemma_amounts_insert(before, key, new_balance);
                    lemma_sum_insert(amounts_of(before), key, new_balance.as_int());
                    lemma_homes_with(shards, idx.index(), key, new_balance);
                }
            },
            None => {
                if !amount.at_least(&self.minimum_balance) {
                    return Err(BalancesError::BelowMinimum);
                }
                match self.store.try_insert_new(key, value) {
                    Ok(idx) => {
                        proof {
                            lemma_first_room(shards, idx.index());
                            lemma_homes_with(shards, idx.index(), key, value);
                        }
                    },
                    Err(e) => {
                        return Err(BalancesError::ShardedMap(e));
                    },
                }
                proof {
                    lemma_amounts_insert(before, key, value);
                    lemma_sum_insert(amounts_of(before), key, value.as_int());
                }
            },
        }
        self.total = new_total;
        Ok(())
    }

    /// What [`burn`](Balances::burn) returns for `value` burnt from
    /// `account`.
    pub open spec fn burn_outcome(self, account: ActorId, value: int) -> Result<
        (),
        BalancesError,
    > {
        if self.balance_of(account) < value {
            Err(BalancesError::Insufficient(UnderflowError))
        } else {
            Ok(())
        }
    }

    /// Destroys `value` on `account` and takes it off the total supply. What
    /// is left on the account stays there where it is not under the minimum
    /// balance; else the account loses its entry and what was left, if
    /// anything, goes to the dust.
    pub fn burn(&mut self, account: NonZero<ActorId>, value: NonZero<T>) -> (r: Result<
        (),
        BalancesError,
    >)
        requires
            old(self).wf(),
        ensures
            final(self).wf(),
            r == old(self).burn_outcome(account.value(), value.as_int()),
            r is Err ==> final(self).unchanged(*old(self)),
            r is Ok ==> final(self).burnt(*old(self), account.value(), value.as_int()),
            old(self).above_minimum() ==> final(self).above_minimum(),
    {
        let id = account.into_inner();
        let key = id.key();
        let amount = value.into_inner();
        proof {
            lemma_positive(amount);
            lemma_account_key(id);
            self.lemma_amounts();
            T::lemma_constants();
            T::lemma_unsigned();
        }
        let (idx, balance) = match self.store.get(&key) {
            Some((idx, balance)) => (idx, *balance),
            None => {
                return Err(BalancesError::Insufficient(UnderflowError));
            },
        };
        let ghost before = self.store@;
        let ghost shards = self.store.shards();
        proof {
            lemma_sum_at_least(self.amounts(), key);
            balance.value().lemma_in_range();
            lemma_home(shards, idx.index(), key);
            lemma_homes_without(shards, idx.index(), key);
        }
        match balance.try_sub(value) {
            Ok(remaining) => {
                if remaining.into_inner().at_least(&self.minimum_balance) {
                    match self.store.get_mut_at(idx, &key) {
                        Some(slot) => {
                            *slot = remaining;
                        },
                        None => unreached(),
                    }
                    proof {
                        lemma_amounts_insert(before, key, remaining);
                        lemma_sum_insert(amounts_of(before), key, remaining.as_int());
                        lemma_homes_with(shards, idx.index(), key, remaining);
                    }
                } else {
                    let new_unused = match self.unused.checked_add(
                        remaining.into_inner().widen(),
                    ) {
                        Some(u) => u,
                        None => {
                            return Err(BalancesError::Overflow(OverflowError));
                        },
                    };
                    self.unused = new_unused;
                    self.store.remove_at(idx, &key);
                    proof {
                        lemma_amounts_remove(before, key);
                        lemma_sum_remove(amounts_of(before), key);
                    }
                }
            },
            Err(MathError::Zero(_)) => {
                self.store.remove_at(idx, &key);
                proof {
                    lemma_amounts_remove(before, key);
                    lemma_sum_remove(amounts_of(before), key);
                }
            },
            Err(MathError::Overflow(e)) => {
                return Err(BalancesError::Overflow(e));
            },
            Err(MathError::Underflow(e)) => {
                return Err(BalancesError::Insufficient(e));
            },
        }
        match self.total.checked_sub(amount.widen()) {
            Some(t) => {
                self.total = t;
            },
            None => unreached(),
        }
        Ok(())
    }

    /// Destroys all that `account` holds, takes it off the total supply and
    /// returns it. The account loses its entry.
    pub fn burn_all(&mut self, account: NonZero<ActorId>) -> (burnt: T)
        requires
            old(self).wf(),
        ensures
            final(self).wf(),
            burnt.as_int() == old(self).balance_of(account.value()),
            final(self).emptied(*old(self), account.value()),
            old(self).above_minimum() ==> final(self).above_minimum(),
    {
        let key = account.into_inner().key();
        let ghost before = self.store@;
        let ghost shards = self.store.shards();
        proof {
            self.lemma_amounts();
            T::lemma_constants();
        }
        match self.store.remove(&key) {
            Some((idx, balance)) => {
                let burnt = balance.into_inner();
                proof {
                    lemma_home(shards, idx.index(), key);
                    lemma_homes_without(shards, idx.index(), key);
                    lemma_sum_at_least(amounts_of(before), key);
                    lemma_amounts_remove(before, key);
                    lemma_sum_remove(amounts_of(before), key);
                }
                match self.total.checked_sub(burnt.widen()) {
                    Some(t) => {
                        self.total = t;
                    },
                    None => unreached(),
                }
                burnt
            },
            None => {
                proof {
                    assert(self.amounts() =~= old(self).amounts());
                    assert(old(self).amounts().remove(key) =~= old(self).amounts());
                }
                T::zero()
            },
        }
    }

    /// Destroys the dust, takes it off the total supply and returns it.
    pub fn burn_unused(&mut self) -> (burnt: U256)
        requires
            old(self).wf(),
        ensures
            final(self).wf(),
            burnt.value() == old(self).unused_spec(),
            final(self).unused_spec() == 0,
            final(self).total_spec() == old(self).total_spec() - old(self).unused_spec(),
            final(self).store_spec() == old(self).store_spec(),
            final(self).minimum_spec() == old(self).minimum_spec(),
            old(self).above_minimum() ==> final(self).above_minimum(),
    {
        proof {
            self.lemma_amounts();
            <U256 as crate::math::Math>::lemma_constants();
        }
        let burnt = self.unused;
        match self.total.checked_sub(burnt) {
            Some(t) => {
                self.total = t;
            },
            None => unreached(),
        }
        self.unused = U256::zero();
        burnt
    }
}

/// The sum after one key was debited, to a rest that stays or to nothing, and
/// another key was set.
pub proof fn lemma_sum_after_transfer(
    a: Map<(u128, u128), int>,
    from: (u128, u128),
    to: (u128, u128),
    rest: int,
    stays: bool,
    credited: int,
)
    requires
        a.dom().finite(),
        a.contains_key(from),
        from != to,
    ensures
        sum_values(
            (if stays {
                a.insert(from, rest)
            } else {
                a.remove(from)
            }).insert(to, credited),
        ) == sum_values(a) - a[from] + (if stays {
            rest
        } else {
            0
        }) - (if a.contains_key(to) {
            a[to]
        } else {
            0
        }) + credited,
{
    let debited = if stays {
        a.insert(from, rest)
    } else {
        a.remove(from)
    };
    if stays {
        lemma_sum_insert(a, from, rest);
    } else {
        lemma_sum_remove(a, from);
    }
    lemma_sum_insert(debited, to, credited);
}

impl<T: Amount> Balances<T> {
    /// What [`transfer`](Balances::transfer) returns for `value` sent from
    /// `from` to `to`. A transfer to the zero account is a burn, and one from
    /// an account to itself does nothing. Else the sender's side is checked
    /// first, then the receiver's: an overflow before the minimum where the
    /// receiver has an entry, room in the map before the minimum where it has
    /// none. Room is needed only where the sender keeps its entry.
    pub open spec fn transfer_outcome(self, from: ActorId, to: ActorId, value: int) -> Result<
        (),
        BalancesError,
    > {
        if to == ActorId::zero_spec() {
            self.burn_outcome(from, value)
        } else if from == to {
            Ok(())
        } else if self.balance_of(from) < value {
            Err(BalancesError::Insufficient(UnderflowError))
        } else if self.holds(to) {
            if self.balance_of(to) + value > T::max_int() {
                Err(BalancesError::Overflow(OverflowError))
            } else if self.balance_of(to) + value < self.minimum() {
                Err(BalancesError::BelowMinimum)
            } else {
                Ok(())
            }
        } else {
            if self.keeps(self.balance_of(from) - value)
                && !self.store_spec().has_space_spec() {
                Err(BalancesError::ShardedMap(ShardedMapError::CapacityOverflow))
            } else if value < self.minimum() {
                Err(BalancesError::BelowMinimum)
            } else {
                Ok(())
            }
        }
    }

    /// Moves `value` from `from` to `to`. The sender's side works as in
    /// [`burn`](Balances::burn), but the total supply stays; the receiver's
    /// side as in [`mint`](Balances::mint). To the zero account the transfer
    /// is a burn; from an account to itself it does nothing. A receiver
    /// without an entry takes the sender's place in the map where the sender
    /// loses its entry, and the first shard with room where it does not.
    pub fn transfer(&mut self, from: NonZero<ActorId>, to: ActorId, value: NonZero<T>) -> (r:
        Result<(), BalancesError>)
        requires
            old(self).wf(),
        ensures
            final(self).wf(),
            r == old(self).transfer_outcome(from.value(), to, value.as_int()),
            r is Err ==> final(self).unchanged(*old(self)),
            from.value() == to ==> final(self).unchanged(*old(self)),
            r is Ok && from.value() != to ==> final(self).transferred(
                *old(self),
                from.value(),
                to,
                value.as_int(),
            ),
            old(self).above_minimum() ==> final(self).above_minimum(),
    {
        let from_id = from.into_inner();
        let to = match NonZero::try_new(to) {
            Ok(to) => to,
            Err(_) => {
                return self.burn(from, value);
            },
        };
        let to_id = to.into_inner();
        if from_id == to_id {
            return Ok(());
        }
        let from_key = from_id.key();
        let to_key = to_id.key();
        let amount = value.into_inner();
        proof {
            lemma_positive(amount);
            lemma_account_key(from_id);
            lemma_account_key(to_id);
            from_id.lemma_key_injective(to_id);
            self.lemma_amounts();
            T::lemma_constants();
            T::lemma_unsigned();
        }
        let (idx_from, balance_from) = match self.store.get(&from_key) {
            Some((idx, balance)) => (idx, *balance),
            None => {
                return Err(BalancesError::Insufficient(UnderflowError));
            },
        };
        let ghost before = self.store@;
        let ghost shards = self.store.shards();
        proof {
            lemma_sum_at_least(self.amounts(), from_key);
            balance_from.value().lemma_in_range();
            lemma_home(shards, idx_from.index(), from_key);
        }
        let mut new_balance_from: Option<NonZero<T>> = None;
        let mut new_unused: Option<U256> = None;
        match balance_from.try_sub(value) {
            Ok(remaining) => {
                if remaining.into_inner().at_least(&self.minimum_balance) {
                    new_balance_from = Some(remaining);
                } else {
                    match self.unused.checked_add(remaining.into_inner().widen()) {
                        Some(u) => {
                            new_unused = Some(u);
                        },
                        None => {
                            return Err(BalancesError::Overflow(OverflowError));
                        },
                    }
                }
            },
            Err(MathError::Zero(_)) => {},
            Err(MathError::Overflow(e)) => {
                return Err(BalancesError::Overflow(e));
            },
            Err(MathError::Underflow(e)) => {
                return Err(BalancesError::Insufficient(e));
            },
        }
        let ghost rest = balance_from.as_int() - value.as_int();
        let ghost stays = new_balance_from is Some;
        assert(stays == self.keeps(rest));
        let found_to = match self.store.get(&to_key) {
            Some((idx, balance)) => Some((idx, *balance)),
            None => None,
        };
        let mut insert_to = false;
        let ghost credited = self.balance_of(to_id) + value.as_int();
        match found_to {
            Some((idx_to, balance_to)) => {
                let new_balance_to = match balance_to.try_add(value) {
                    Ok(b) => b,
                    Err(MathError::Overflow(e)) => {
                        return Err(BalancesError::Overflow(e));
                    },
                    Err(MathError::Zero(e)) => {
                        return Err(BalancesError::Zero(e));
                    },
                    Err(MathError::Underflow(e)) => {
                        return Err(BalancesError::Insufficient(e));
                    },
                };
                if !new_balance_to.into_inner().at_least(&self.minimum_balance) {
                    return Err(BalancesError::BelowMinimum);
                }
                match self.store.get_mut_at(idx_to, &to_key) {
                    Some(slot) => {
                        *slot = new_balance_to;
                    },
                    None => unreached(),
                }
                proof {
                    lemma_amounts_insert(before, to_key, new_balance_to);
                    assert(crate::map::holds(self.store.shards(), idx_from.index(), from_key));
                    lemma_homes_with(shards, idx_to.index(), to_key, new_balance_to);
                }
            },
            None => {
                if new_balance_from.is_some() {
                    if !self.store.has_space() {
                        return Err(
                            BalancesError::ShardedMap(ShardedMapError::CapacityOverflow),
                        );
                    }
                }
                if !amount.at_least(&self.minimum_balance) {
                    return Err(BalancesError::BelowMinimum);
                }
                insert_to = true;
            },
        }
        let ghost credited_map = self.store@;
        let ghost credited_shards = self.store.shards();
        match new_balance_from {
            Some(remaining) => {
                match self.store.get_mut_at(idx_from, &from_key) {
                    Some(slot) => {
                        *slot = remaining;
                    },
                    None => unreached(),
                }
                proof {
                    lemma_amounts_insert(credited_map, from_key, remaining);
                    lemma_homes_with(credited_shards, idx_from.index(), from_key, remaining);
                }
                if insert_to {
                    let ghost debited_map = self.store@;
                    let ghost debited_shards = self.store.shards();
                    proof {
                        let i = idx_from.index();
                        let witness = choose|j: int|
                            0 <= j < credited_shards.len() && (
                            #[trigger] credited_shards[j]).has_room();
                        assert(credited_shards[i].entries.insert(from_key, remaining).dom()
                            =~= credited_shards[i].entries.dom());
                        assert(self.store.shards()[witness].has_room());
                    }
                    match self.store.try_insert_new(to_key, value) {
                        Ok(idx_to) => {
                            proof {
                                let i = idx_to.index();
                                assert forall|j: int| 0 <= j < i implies !(
                                #[trigger] shards[j]).has_room() by {
                                    assert(!debited_shards[j].has_room());
                                }
                                assert(debited_shards[i].has_room());
                                lemma_first_room(shards, i);
                                lemma_homes_with(debited_shards, i, to_key, value);
                            }
                        },
                        Err(_) => unreached(),
                    }
                    proof {
                        lemma_amounts_insert(debited_map, to_key, value);
                    }
                }
            },
            None => {
                let at = idx_from.cloned();
                self.store.remove_at(at, &from_key);
                proof {
                    lemma_amounts_remove(credited_map, from_key);
                    lemma_homes_without(credited_shards, idx_from.index(), from_key);
                }
                if insert_to {
                    let ghost debited_map = self.store@;
                    let ghost debited_shards = self.store.shards();
                    proof {
                        let i = idx_from.index();
                        assert(credited_shards[i].wf());
                        assert(credited_shards[i].entries.contains_key(from_key));
                    }
                    match self.store.try_insert_new_at(idx_from, to_key, value) {
                        Ok(()) => {},
                        Err(_) => unreached(),
                    }
                    proof {
                        lemma_amounts_insert(debited_map, to_key, value);
                        lemma_homes_with(debited_shards, idx_from.index(), to_key, value);
                    }
                }
            },
        }
        match new_unused {
            Some(u) => {
                self.unused = u;
            },
            None => {},
        }
        proof {
            let a = amounts_of(before);
            let expected = (if stays {
                a.insert(from_key, rest)
            } else {
                a.remove(from_key)
            }).insert(to_key, credited);
            assert(self.amounts() =~= expected);
            lemma_sum_after_transfer(a, from_key, to_key, rest, stays, credited);
        }
        Ok(())
    }
}

impl<T: Amount> Balances<T> {
    /// Whether [`transfer_all`](Balances::transfer_all) succeeds for all of
    /// `from` sent to `to`, and with which error it fails. Where the sender
    /// has no entry, or is the receiver, there is nothing to fail. Else an
    /// overflow of the receiver's balance comes before a balance under the
    /// minimum.
    pub open spec fn transfer_all_outcome(self, from: ActorId, to: ActorId) -> Result<
        (),
        BalancesError,
    > {
        if !self.holds(from) || from == to {
            Ok(())
        } else if self.balance_of(to) + self.balance_of(from) > T::max_int() {
            Err(BalancesError::Overflow(OverflowError))
        } else if self.balance_of(to) + self.balance_of(from) < self.minimum() {
            Err(BalancesError::BelowMinimum)
        } else {
            Ok(())
        }
    }

    /// What [`transfer_all`](Balances::transfer_all) would do from `from` to
    /// `to`: succeed or fail, and with which error. Nothing changes.
    pub fn can_transfer_all(&self, from: NonZero<ActorId>, to: NonZero<ActorId>) -> (r: Result<
        (),
        BalancesError,
    >)
        requires
            self.wf(),
        ensures
            r == self.transfer_all_outcome(from.value(), to.value()),
    {
        let from_id = from.into_inner();
        let to_id = to.into_inner();
        let from_key = from_id.key();
        let to_key = to_id.key();
        proof {
            lemma_account_key(from_id);
            lemma_account_key(to_id);
            from_id.lemma_key_injective(to_id);
            self.lemma_amounts();
            T::lemma_constants();
            T::lemma_unsigned();
        }
        let balance_from = match self.store.get(&from_key) {
            Some((_, balance)) => *balance,
            None => {
                return Ok(());
            },
        };
        if from_id == to_id {
            return Ok(());
        }
        proof {
            balance_from.value().lemma_in_range();
        }
        match self.store.get(&to_key) {
            Some((_, balance_to)) => {
                let new_balance_to = match balance_to.try_add(balance_from) {
                    Ok(b) => b,
                    Err(MathError::Overflow(e)) => {
                        return Err(BalancesError::Overflow(e));
                    },
                    Err(MathError::Zero(e)) => {
                        return Err(BalancesError::Zero(e));
                    },
                    Err(MathError::Underflow(e)) => {
                        return Err(BalancesError::Insufficient(e));
                    },
                };
                if !new_balance_to.into_inner().at_least(&self.minimum_balance) {
                    return Err(BalancesError::BelowMinimum);
                }
                Ok(())
            },
            None => {
                if !balance_from.into_inner().at_least(&self.minimum_balance) {
                    return Err(BalancesError::BelowMinimum);
                }
                Ok(())
            },
        }
    }

    /// Moves all that `from` holds to `to` and returns the amount. The sender
    /// loses its entry; a receiver without an entry takes the sender's place
    /// in the map, so that no room is needed.
    pub fn transfer_all(&mut self, from: NonZero<ActorId>, to: NonZero<ActorId>) -> (r: Result<
        T,
        BalancesError,
    >)
        requires
            old(self).wf(),
        ensures
            final(self).wf(),
            match old(self).transfer_all_outcome(from.value(), to.value()) {
                Ok(()) => r is Ok && r->Ok_0.as_int() == old(self).balance_of(from.value()),
                Err(e) => r == Err::<T, BalancesError>(e),
            },
            r is Err ==> final(self).unchanged(*old(self)),
            from.value() == to.value() || !old(self).holds(from.value()) ==> final(self).unchanged(*old(self)),
            r is Ok && from.value() != to.value() && old(self).holds(from.value())
                ==> final(self).transferred_all(*old(self), from.value(), to.value()),
            old(self).above_minimum() ==> final(self).above_minimum(),
    {
        let from_id = from.into_inner();
        let to_id = to.into_inner();
        let from_key = from_id.key();
        let to_key = to_id.key();
        proof {
            lemma_account_key(from_id);
            lemma_account_key(to_id);
            from_id.lemma_key_injective(to_id);
            self.lemma_amounts();
            T::lemma_constants();
            T::lemma_unsigned();
        }
        let (idx_from, balance_from) = match self.store.get(&from_key) {
            Some((idx, balance)) => (idx, *balance),
            None => {
                return Ok(T::zero());
            },
        };
        if from_id == to_id {
            return Ok(balance_from.into_inner());
        }
        let ghost before = self.store@;
        let ghost shards = self.store.shards();
        proof {
            balance_from.value().lemma_in_range();
            lemma_home(shards, idx_from.index(), from_key);
        }
        let ghost credited = self.balance_of(to_id) + balance_from.as_int();
        let found_to = match self.store.get(&to_key) {
            Some((idx, balance)) => Some((idx, *balance)),
            None => None,
        };
        let mut insert_to = false;
        match found_to {
            Some((idx_to, balance_to)) => {
                let new_balance_to = match balance_to.try_add(balance_from) {
                    Ok(b) => b,
                    Err(MathError::Overflow(e)) => {
                        return Err(BalancesError::Overflow(e));
                    },
                    Err(MathError::Zero(e)) => {
                        return Err(BalancesError::Zero(e));
                    },
                    Err(MathError::Underflow(e)) => {
                        return Err(BalancesError::Insufficient(e));
                    },
                };
                if !new_balance_to.into_inner().at_least(&self.minimum_balance) {
                    return Err(BalancesError::BelowMinimum);
                }
                match self.store.get_mut_at(idx_to, &to_key) {
                    Some(slot) => {
                        *slot = new_balance_to;
                    },
                    None => unreached(),
                }
                proof {
                    lemma_amounts_insert(before, to_key, new_balance_to);
                    assert(crate::map::holds(self.store.shards(), idx_from.index(), from_key));
                    lemma_homes_with(shards, idx_to.index(), to_key, new_balance_to);
                }
            },
            None => {
                if !balance_from.into_inner().at_least(&self.minimum_balance) {
                    return Err(BalancesError::BelowMinimum);
                }
                insert_to = true;
            },
        }
        let ghost credited_map = self.store@;
        let ghost credited_shards = self.store.shards();
        let at = idx_from.cloned();
        self.store.remove_at(at, &from_key);
        proof {
            lemma_amounts_remove(credited_map, from_key);
            lemma_homes_without(credited_shards, idx_from.index(), from_key);
        }
        if insert_to {
            let ghost debited_map = self.store@;
            let ghost debited_shards = self.store.shards();
            proof {
                let i = idx_from.index();
                assert(credited_shards[i].wf());
                assert(credited_shards[i].entries.contains_key(from_key));
            }
            match self.store.try_insert_new_at(idx_from, to_key, balance_from) {
                Ok(()) => {},
                Err(_) => unreached(),
            }
            proof {
                lemma_amounts_insert(debited_map, to_key, balance_from);
                lemma_homes_with(debited_shards, idx_from.index(), to_key, balance_from);
            }
        }
        proof {
            let a = amounts_of(before);
            let expected = a.remove(from_key).insert(to_key, credited);
            assert(self.amounts() =~= expected);
            lemma_sum_after_transfer(a, from_key, to_key, 0, false, credited);
        }
        Ok(balance_from.into_inner())
    }
}

impl<T: Amount> Balances<T> {
    /// The dust sweep: a burn that leaves less than the minimum on an account,
    /// but not nothing, succeeds, takes the account's entry away and sends
    /// exactly what was left to the dust.
    pub proof fn lemma_dust_sweep(self, account: ActorId, value: int)
        requires
            self.wf(),
            0 < self.balance_of(account) - value < self.minimum(),
        ensures
            self.burn_outcome(account, value) == Ok::<(), BalancesError>(()),
            self.amounts_after_debit(account, value) == self.amounts().remove(
                account.key_spec(),
            ),
            !self.amounts_after_debit(account, value).contains_key(account.key_spec()),
            self.dust_of(self.balance_of(account) - value) == self.balance_of(account) - value,
    {
    }

    /// A transfer that the receiver's side refuses is refused whatever the
    /// sender holds beyond the value, and one that the sender cannot pay is
    /// refused whatever the receiver holds: the outcome names the side that
    /// failed, and a failed transfer changes nothing on either side.
    pub proof fn lemma_transfer_fails_on_one_side(self, from: ActorId, to: ActorId, value: int)
        requires
            self.wf(),
            from != to,
            to != ActorId::zero_spec(),
        ensures
            self.balance_of(from) < value <==> self.transfer_outcome(from, to, value) == Err::<
                (),
                BalancesError,
            >(BalancesError::Insufficient(UnderflowError)),
            self.transfer_outcome(from, to, value) is Err && self.balance_of(from) >= value ==> {
                ||| self.balance_of(to) + value > T::max_int()
                ||| self.balance_of(to) + value < self.minimum()
                ||| !self.holds(to) && !self.store_spec().has_space_spec()
            },
    {
    }
}

impl From<UnderflowError> for BalancesError {
    /// An underflow of a balance means that the account holds too little.
    fn from(e: UnderflowError) -> (r: Self) {
        BalancesError::Insufficient(e)
    }
}

impl vstd::std_specs::convert::FromSpecImpl<UnderflowError> for BalancesError {
    open spec fn obeys_from_spec() -> bool {
        true
    }

    open spec fn from_spec(e: UnderflowError) -> Self {
        BalancesError::Insufficient(e)
    }
}

impl From<ShardedMapError> for BalancesError {
    /// An error of the map as an error of the balances.
    fn from(e: ShardedMapError) -> (r: Self) {
        BalancesError::ShardedMap(e)
    }
}

impl vstd::std_specs::convert::FromSpecImpl<ShardedMapError> for BalancesError {
    open spec fn obeys_from_spec() -> bool {
        true
    }

    open spec fn from_spec(e: ShardedMapError) -> Self {
        BalancesError::ShardedMap(e)
    }
}

impl From<OverflowError> for BalancesError {
    /// An overflow as an error of the balances.
    fn from(e: OverflowError) -> (r: Self) {
        BalancesError::Overflow(e)
    }
}

impl vstd::std_specs::convert::FromSpecImpl<OverflowError> for BalancesError {
    open spec fn obeys_from_spec() -> bool {
        true
    }

    open spec fn from_spec(e: OverflowError) -> Self {
        BalancesError::Overflow(e)
    }
}

impl From<ZeroError> for BalancesError {
    /// A zero as an error of the balances.
    fn from(e: ZeroError) -> (r: Self) {
        BalancesError::Zero(e)
    }
}

impl vstd::std_specs::convert::FromSpecImpl<ZeroError> for BalancesError {
    open spec fn obeys_from_spec() -> bool {
        true
    }

    open spec fn from_spec(e: ZeroError) -> Self {
        BalancesError::Zero(e)
    }
}

impl From<MathError> for BalancesError {
    /// An error of arithmetic as an error of the balances.
    fn from(e: MathError) -> (r: Self) {
        match e {
            MathError::Underflow(e) => BalancesError::Insufficient(e),
            MathError::Overflow(e) => BalancesError::Overflow(e),
            MathError::Zero(e) => BalancesError::Zero(e),
        }
    }
}

impl vstd::std_specs::convert::FromSpecImpl<MathError> for BalancesError {
    open spec fn obeys_from_spec() -> bool {
        true
    }

    open spec fn from_spec(e: MathError) -> Self {
        match e {
            MathError::Underflow(e) => BalancesError::Insufficient(e),
            MathError::Overflow(e) => BalancesError::Overflow(e),
            MathError::Zero(e) => BalancesError::Zero(e),
        }
    }
}

impl<T: Amount> Default for Balances<T> {
    /// A ledger without balances and without a minimum balance, with two
    /// shards of the recommended capacity, not allocated yet.
    fn default() -> (r: Self)
        ensures
            r.wf(),
            r.above_minimum(),
            r.amounts() == Map::<(u128, u128), int>::empty(),
            r.minimum_spec() == T::zero_spec(),
            r.total_spec() == 0,
            r.unused_spec() == 0,
            r.store_spec().declared() == seq![Self::DEFAULT_MAX_SHARD, Self::DEFAULT_MAX_SHARD],
            forall|i: int|
                0 <= i < r.store_spec().shards().len() ==> !(
                #[trigger] r.store_spec().shards()[i]).allocated,
    {
        let mut capacities: Vec<usize> = Vec::new();
        capacities.push(Self::DEFAULT_MAX_SHARD);
        capacities.push(Self::DEFAULT_MAX_SHARD);
        proof {
            vstd::arithmetic::power2::lemma2_to64();
            crate::map::lemma_seven_shifted_is_valid(Self::DEFAULT_MAX_SHARD, 21);
        }
        match Self::try_new(capacities, T::zero()) {
            Ok(r) => {
                proof {
                    crate::map::lemma_same_items(
                        r.store_spec().declared(),
                        capacities@,
                        Self::DEFAULT_MAX_SHARD,
                    );
                    r.store_spec().lemma_declared();
                    assert(r.store_spec().declared() =~= seq![
                        Self::DEFAULT_MAX_SHARD,
                        Self::DEFAULT_MAX_SHARD,
                    ]);
                }
                r
            },
            Err(_) => unreached(),
        }
    }
}

} // verus!
