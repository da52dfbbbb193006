//! The allowances of a token: what a spender may take from an owner's
//! balance, and until which block.
//!
//! A pair without allowance has no entry, and no account has an allowance on
//! itself. The greatest amount of the type means "without limit": spending
//! does not lower it. Every change of an entry, and every spending, moves the
//! expiry of the entry to the current block plus the expiry period.
use crate::actor::ActorId;
use crate::balances::lemma_account_key;
use crate::map::{
    lemma_first_room, lemma_home, lemma_homes_with, lemma_homes_without, with_key_at,
    without_key_at, ShardedMap, ShardedMapError,
};
use crate::math::{CheckedMath, Math, MathError, Max, UnderflowError, Zero};
use crate::non_zero::NonZero;
use vstd::prelude::*;

verus! {

/// The key of an allowance: the owner and the spender, neither of them the
/// zero account.
pub type AllowancesKey = (NonZero<ActorId>, NonZero<ActorId>);

/// The value of an allowance: an amount other than zero, and the block at
/// which it expires.
pub type AllowancesValue<T> = (NonZero<T>, u32);

/// The form in which the map files a pair of accounts: the halves of the
/// owner's identifier, then those of the spender's.
pub type PairKey = ((u128, u128), (u128, u128));

/// Why an operation on the allowances failed.
#[derive(Clone, Copy, Debug, PartialEq, Eq, Structural, PartialOrd, Ord)]
pub enum AllowancesError {
    /// The allowance is less than what was to be spent.
    Insufficient(UnderflowError),
    /// The map of the allowances refused the entry.
    ShardedMap(ShardedMapError),
}

impl AllowancesError {
    /// The text shown for this error.
    pub fn message(&self) -> (s: String)
        ensures
            s@ == match *self {
                AllowancesError::Insufficient(_) => "insufficient allowance"@,
                AllowancesError::ShardedMap(ShardedMapError::CapacityOverflow) =>
                    "sharded map error: capacity overflow"@,
                AllowancesError::ShardedMap(ShardedMapError::InvalidCapacity) =>
                    "sharded map error: invalid capacity"@,
            },
    {
        match self {
            AllowancesError::Insufficient(_) => "insufficient allowance".to_string(),
            AllowancesError::ShardedMap(ShardedMapError::CapacityOverflow) =>
                "sharded map error: capacity overflow".to_string(),
            AllowancesError::ShardedMap(ShardedMapError::InvalidCapacity) =>
                "sharded map error: invalid capacity".to_string(),
        }
    }
}

/// The key under which the allowance of `spender` on `owner` is filed.
pub open spec fn pair_key(owner: ActorId, spender: ActorId) -> PairKey {
    (owner.key_spec(), spender.key_spec())
}

/// The amounts and expiries of a map of allowances, key by key.
pub open spec fn entries_of<T: Math>(m: Map<PairKey, (NonZero<T>, u32)>) -> Map<
    PairKey,
    (T, u32),
> {
    Map::new(|k: PairKey| m.contains_key(k), |k: PairKey| (m[k].0.value(), m[k].1))
}

/// The block at which an allowance touched at `current_block` expires: the
/// period later, or at the last block there is where that is sooner.
pub open spec fn expiry_spec(expiry_period: u32, current_block: u32) -> u32 {
    if expiry_period + current_block > u32::MAX {
        u32::MAX
    } else {
        (expiry_period + current_block) as u32
    }
}

/// The ledger of the allowances.
pub struct Allowances<T: Math> {
    expiry_period: u32,
    store: ShardedMap<PairKey, (NonZero<T>, u32)>,
}

impl<T: Math> Allowances<T> {
    /// The map that holds the allowances.
    pub closed spec fn store_spec(self) -> ShardedMap<PairKey, (NonZero<T>, u32)> {
        self.store
    }

    /// The number of blocks after which an allowance expires.
    pub closed spec fn expiry_period_spec(self) -> u32 {
        self.expiry_period
    }

    /// The amount and the expiry of every allowance.
    pub open spec fn entries(self) -> Map<PairKey, (T, u32)> {
        entries_of(self.store_spec()@)
    }

    /// Whether `spender` has an allowance on `owner`.
    pub open spec fn holds(self, owner: ActorId, spender: ActorId) -> bool {
        self.entries().contains_key(pair_key(owner, spender))
    }

    /// The allowance of `spender` on `owner`: the amount of the entry, or
    /// zero where there is none.
    pub open spec fn amount_of(self, owner: ActorId, spender: ActorId) -> T {
        if self.holds(owner, spender) {
            self.entries()[pair_key(owner, spender)].0
        } else {
            T::zero_spec()
        }
    }

    /// The block at which the allowance of `spender` on `owner` expires.
    pub open spec fn expiry_of(self, owner: ActorId, spender: ActorId) -> u32 {
        self.entries()[pair_key(owner, spender)].1
    }

    /// The block at which an allowance touched at `current_block` expires.
    pub open spec fn expiry_at(self, current_block: u32) -> u32 {
        expiry_spec(self.expiry_period_spec(), current_block)
    }

    /// The keys that each shard holds.
    pub open spec fn homes(self) -> Seq<Set<PairKey>> {
        self.store_spec().homes()
    }

    /// The declared capacity of each shard, and whether it is allocated.
    pub open spec fn layout(self) -> Seq<(nat, bool)> {
        self.store_spec().layout()
    }

    /// The keys of each shard after the allowance of `spender` on `owner`
    /// lost its entry, if it had one.
    pub open spec fn homes_without(self, owner: ActorId, spender: ActorId) -> Seq<Set<PairKey>> {
        let key = pair_key(owner, spender);
        if self.holds(owner, spender) {
            without_key_at(self.homes(), self.store_spec().home_of(key), key)
        } else {
            self.homes()
        }
    }

    /// Whether `self` is `before` without the allowance of `spender` on
    /// `owner`.
    pub open spec fn removed(self, before: Self, owner: ActorId, spender: ActorId) -> bool {
        &&& self.expiry_period_spec() == before.expiry_period_spec()
        &&& self.entries() == before.entries().remove(pair_key(owner, spender))
        &&& self.layout() == before.layout()
        &&& self.homes() == before.homes_without(owner, spender)
    }

    /// Whether `self` is `before` after the allowance of `spender` on another
    /// account `owner` was set to `value` at `current_block`: the value zero
    /// took the entry away; any other value stands in the entry with the new
    /// expiry, and an entry that was not there came to the first shard with
    /// room.
    pub open spec fn assigned(
        self,
        before: Self,
        owner: ActorId,
        spender: ActorId,
        value: T,
        current_block: u32,
    ) -> bool {
        let key = pair_key(owner, spender);
        if value == T::zero_spec() {
            self.removed(before, owner, spender)
        } else {
            &&& self.expiry_period_spec() == before.expiry_period_spec()
            &&& self.entries() == before.entries().insert(
                key,
                (value, before.expiry_at(current_block)),
            )
            &&& self.layout() == before.layout()
            &&& self.homes() == (if before.holds(owner, spender) {
                before.homes()
            } else {
                with_key_at(before.homes(), before.store_spec().first_room(), key)
            })
        }
    }

    /// Whether `self` is `before` after `spender` spent `value` of its
    /// allowance on another account `owner` at `current_block`: an allowance
    /// without limit kept its amount, one that was spent to the last lost its
    /// entry, any other holds what was left; an entry that stayed has the new
    /// expiry. No other entry changed.
    pub open spec fn decreased(
        self,
        before: Self,
        owner: ActorId,
        spender: ActorId,
        value: int,
        current_block: u32,
    ) -> bool {
        let key = pair_key(owner, spender);
        let had = before.amount_of(owner, spender);
        let rest = had.as_int() - value;
        &&& self.expiry_period_spec() == before.expiry_period_spec()
        &&& self.layout() == before.layout()
        &&& self.entries().remove(key) == before.entries().remove(key)
        &&& if had == T::max_spec() {
            &&& self.entries().contains_key(key)
            &&& self.entries()[key] == (had, before.expiry_at(current_block))
            &&& self.homes() == before.homes()
        } else if rest == T::zero_spec().as_int() {
            &&& !self.entries().contains_key(key)
            &&& self.homes() == before.homes_without(owner, spender)
        } else {
            &&& self.entries().contains_key(key)
            &&& self.entries()[key].0.as_int() == rest
            &&& self.entries()[key].1 == before.expiry_at(current_block)
            &&& self.homes() == before.homes()
        }
    }

    /// The invariant of the ledger: the map is well-formed, and every entry
    /// is an amount other than zero, of an owner and a spender that differ
    /// and are not the zero account.
    pub open spec fn wf(self) -> bool {
        &&& self.store_spec().wf()
        &&& forall|k: PairKey|
            (#[trigger] self.entries().contains_key(k)) ==> k.0 != k.1 && k.0 != (0u128, 0u128)
                && k.1 != (0u128, 0u128) && self.entries()[k].0 != T::zero_spec()
    }

    /// Whether `self` holds what `before` held: the same shards with the same
    /// entries, and the same expiry period.
    pub open spec fn unchanged(self, before: Self) -> bool {
        &&& self.store_spec().shards() == before.store_spec().shards()
        &&& self.expiry_period_spec() == before.expiry_period_spec()
    }

    /// The capacity that is recommended for the largest shard.
    pub const DEFAULT_MAX_SHARD: usize = 0b11100000000000000000000;

    /// A ledger without allowances, with one shard for each of `capacities`,
    /// none of them allocated yet. Fails unless every capacity is one that a
    /// shard may declare.
    pub fn try_new(capacities: Vec<usize>, expiry_period: u32) -> (r: Result<
        Self,
        AllowancesError,
    >)
        ensures
            r is Ok <==> forall|i: int|
                0 <= i < capacities@.len() ==> crate::map::is_valid_capacity_spec(
                    #[trigger] capacities@[i],
                ),
            r is Err ==> r->Err_0 == AllowancesError::ShardedMap(
                ShardedMapError::InvalidCapacity,
            ),
            r is Ok ==> ({
                let a = r->Ok_0;
                &&& a.wf()
                &&& a.entries() == Map::<PairKey, (T, u32)>::empty()
                &&& a.expiry_period_spec() == expiry_period
                &&& a.store_spec().shards().len() == capacities@.len()
                &&& a.store_spec().declared().to_multiset() == capacities@.to_multiset()
                &&& forall|i: int, j: int|
                    0 <= i <= j < a.store_spec().declared().len() ==> a.store_spec().declared()[i]
                        >= a.store_spec().declared()[j]
                &&& forall|i: int|
                    0 <= i < a.store_spec().shards().len() ==> !(
                    #[trigger] a.store_spec().shards()[i]).allocated
            }),
    {
        let store = match ShardedMap::try_new(capacities) {
            Ok(store) => store,
            Err(e) => {
                return Err(AllowancesError::ShardedMap(e));
            },
        };
        let a = Allowances { expiry_period, store };
        proof {
            assert(a.entries() =~= Map::<PairKey, (T, u32)>::empty());
        }
        Ok(a)
    }

    /// The number of blocks after which an allowance expires.
    pub fn expiry_period(&self) -> (p: u32)
        ensures
            p == self.expiry_period_spec(),
    {
        self.expiry_period
    }

    /// The map that holds the allowances, for looking into it.
    pub fn store(&self) -> (m: &ShardedMap<PairKey, (NonZero<T>, u32)>)
        ensures
            *m == self.store_spec(),
    {
        &self.store
    }

    /// Allocates the first shard that is not allocated yet, if there is one,
    /// and says whether shards without allocation remain after that.
    pub fn allocate_next_shard(&mut self) -> (more: bool)
        requires
            old(self).wf(),
        ensures
            final(self).wf(),
            final(self).entries() == old(self).entries(),
            final(self).expiry_period_spec() == old(self).expiry_period_spec(),
            final(self).store_spec().declared() == old(self).store_spec().declared(),
            more == (exists|j: int|
                0 <= j < final(self).store_spec().shards().len() && !(
                #[trigger] final(self).store_spec().shards()[j]).allocated),
            final(self).store_spec().shards() == crate::map::after_allocation(
                old(self).store_spec().shards(),
            ),
            (forall|j: int|
                0 <= j < old(self).store_spec().shards().len() ==> (
                #[trigger] old(self).store_spec().shards()[j]).allocated) ==> final(self).unchanged(
                *old(self),
            ),
    {
        let more = self.store.alloc_next_shard();
        proof {
            assert(self.entries() =~= old(self).entries());
        }
        more
    }

    /// Sets the number of blocks after which an allowance expires. Entries
    /// keep their expiry until they are touched.
    pub fn set_expiry_period(&mut self, expiry_period: u32)
        requires
            old(self).wf(),
        ensures
            final(self).wf(),
            final(self).expiry_period_spec() == expiry_period,
            final(self).store_spec() == old(self).store_spec(),
    {
        self.expiry_period = expiry_period;
        proof {
            assert(self.entries() =~= old(self).entries());
        }
    }

    /// Declares one more shard, after the others and not allocated yet. Fails
    /// unless `capacity` is one that a shard may declare.
    pub fn try_append_shard(&mut self, capacity: usize) -> (r: Result<(), AllowancesError>)
        requires
            old(self).wf(),
        ensures
            final(self).wf(),
            r is Ok <==> crate::map::is_valid_capacity_spec(capacity),
            r is Err ==> r->Err_0 == AllowancesError::ShardedMap(
                ShardedMapError::InvalidCapacity,
            ) && final(self).unchanged(*old(self)),
            final(self).entries() == old(self).entries(),
            final(self).expiry_period_spec() == old(self).expiry_period_spec(),
            r is Ok ==> {
                &&& final(self).store_spec().declared()
                    == old(self).store_spec().declared().push(capacity)
                &&& final(self).store_spec().shards()
                    == old(self).store_spec().shards().push(crate::map::new_shard(capacity))
            },
    {
        let r = self.store.try_append_shard(capacity);
        proof {
            assert(self.entries() =~= old(self).entries());
        }
        match r {
            Ok(()) => Ok(()),
            Err(e) => Err(AllowancesError::ShardedMap(e)),
        }
    }

    /// The block at which an allowance touched at `current_block` expires.
    fn expiry(&self, current_block: u32) -> (e: u32)
        ensures
            e == self.expiry_at(current_block),
    {
        self.expiry_period.saturating_add(current_block)
    }

    /// The allowance of `spender` on `owner`: the amount of the entry, or
    /// zero where there is none.
    pub fn get(&self, owner: NonZero<ActorId>, spender: NonZero<ActorId>) -> (amount: T)
        requires
            self.wf(),
        ensures
            amount == self.amount_of(owner.value(), spender.value()),
    {
        let key = (owner.into_inner().key(), spender.into_inner().key());
        match self.store.get(&key) {
            Some((_, entry)) => entry.0.into_inner(),
            None => T::zero(),
        }
    }

    /// Takes the allowance of `spender` on `owner` away and returns what the
    /// entry held, if there was one.
    pub fn remove(&mut self, owner: NonZero<ActorId>, spender: NonZero<ActorId>) -> (r: Option<
        (NonZero<T>, u32),
    >)
        requires
            old(self).wf(),
        ensures
            final(self).wf(),
            final(self).removed(*old(self), owner.value(), spender.value()),
            match r {
                Some((amount, expiry)) => old(self).holds(owner.value(), spender.value())
                    && (amount.value(), expiry) == old(self).entries()[pair_key(
                    owner.value(),
                    spender.value(),
                )],
                None => !old(self).holds(owner.value(), spender.value()) && final(self).unchanged(*old(self)),
            },
    {
        let key = (owner.into_inner().key(), spender.into_inner().key());
        let ghost shards = self.store.shards();
        let r = match self.store.remove(&key) {
            Some((idx, entry)) => {
                proof {
                    lemma_home(shards, idx.index(), key);
                    lemma_homes_without(shards, idx.index(), key);
                }
                Some(entry)
            },
            None => None,
        };
        proof {
            assert(self.entries() =~= old(self).entries().remove(key));
        }
        r
    }

    /// Sets the allowance of `spender` on `owner` to `value`, to expire the
    /// expiry period after `current_block`, and returns the amount that the
    /// entry held before, if there was one. The value zero takes the entry
    /// away. An account has no allowance on itself: for `owner == spender`
    /// nothing happens.
    ///
    /// Fails, and changes nothing, where a new entry finds no room in the
    /// map.
    pub fn set(
        &mut self,
        owner: NonZero<ActorId>,
        spender: NonZero<ActorId>,
        value: T,
        current_block: u32,
    ) -> (r: Result<Option<NonZero<T>>, AllowancesError>)
        requires
            old(self).wf(),
        ensures
            final(self).wf(),
            r is Err <==> owner.value() != spender.value() && value != T::zero_spec() && !old(self).holds(owner.value(), spender.value()) && !old(self).store_spec().has_space_spec(),
            r is Err ==> r->Err_0 == AllowancesError::ShardedMap(
                ShardedMapError::CapacityOverflow,
            ) && final(self).unchanged(*old(self)),
            owner.value() == spender.value() ==> r == Ok::<Option<NonZero<T>>, AllowancesError>(
                None,
            ) && final(self).unchanged(*old(self)),
            r is Ok && owner.value() != spender.value() ==> {
                &&& final(self).assigned(
                    *old(self),
                    owner.value(),
                    spender.value(),
                    value,
                    current_block,
                )
                &&& match r->Ok_0 {
                    Some(previous) => old(self).holds(owner.value(), spender.value())
                        && previous.value() == old(self).amount_of(
                        owner.value(),
                        spender.value(),
                    ),
                    None => !old(self).holds(owner.value(), spender.value()),
                }
            },
    {
        let owner_id = owner.into_inner();
        let spender_id = spender.into_inner();
        if owner_id == spender_id {
            return Ok(None);
        }
        let key = (owner_id.key(), spender_id.key());
        let ghost shards = self.store.shards();
        proof {
            lemma_account_key(owner_id);
            lemma_account_key(spender_id);
            owner_id.lemma_key_injective(spender_id);
        }
        match NonZero::try_new(value) {
            Ok(amount) => {
                let expiry = self.expiry(current_block);
                let previous = match self.store.try_insert(key, (amount, expiry)) {
                    Ok((idx, previous)) => {
                        proof {
                            lemma_homes_with(shards, idx.index(), key, (amount, expiry));
                            if previous is None {
                                lemma_first_room(shards, idx.index());
                            }
                        }
                        previous
                    },
                    Err(e) => {
                        proof {
                            assert(self.entries() =~= old(self).entries());
                        }
                        return Err(AllowancesError::ShardedMap(e));
                    },
                };
                proof {
                    assert(self.entries() =~= old(self).entries().insert(key, (value, expiry)));
                }
                match previous {
                    Some((amount, _)) => Ok(Some(amount)),
                    None => Ok(None),
                }
            },
            Err(_) => {
                match self.remove(owner, spender) {
                    Some((amount, _)) => Ok(Some(amount)),
                    None => Ok(None),
                }
            },
        }
    }

    /// What [`decrease`](Allowances::decrease) returns for `value` spent by
    /// `spender` from what `owner` holds.
    pub open spec fn decrease_outcome(self, owner: ActorId, spender: ActorId, value: int)
        -> Result<(), AllowancesError> {
        let left = self.amount_of(owner, spender).as_int() - value;
        if owner == spender {
            Ok(())
        } else if !self.holds(owner, spender) {
            Err(AllowancesError::Insufficient(UnderflowError))
        } else if self.amount_of(owner, spender) == T::max_spec() {
            Ok(())
        } else if !(T::min_int() <= left <= T::max_int()) {
            Err(AllowancesError::Insufficient(UnderflowError))
        } else {
            Ok(())
        }
    }

    /// What [`decrease`](Allowances::decrease) would return for `value`
    /// spent by `spender` from what `owner` holds. Nothing changes.
    pub fn can_decrease(
        &self,
        owner: NonZero<ActorId>,
        spender: NonZero<ActorId>,
        value: NonZero<T>,
    ) -> (r: Result<(), AllowancesError>)
        requires
            self.wf(),
        ensures
            r == self.decrease_outcome(owner.value(), spender.value(), value.as_int()),
    {
        let owner_id = owner.into_inner();
        let spender_id = spender.into_inner();
        if owner_id == spender_id {
            return Ok(());
        }
        let key = (owner_id.key(), spender_id.key());
        proof {
            owner_id.lemma_key_injective(spender_id);
        }
        let allowance = match self.store.get(&key) {
            Some((_, entry)) => entry.0,
            None => {
                return Err(AllowancesError::Insufficient(UnderflowError));
            },
        };
        if allowance.into_inner().is_max() {
            return Ok(());
        }
        match allowance.try_sub(value) {
            Ok(_) => Ok(()),
            Err(MathError::Zero(_)) => Ok(()),
            Err(MathError::Underflow(e)) => Err(AllowancesError::Insufficient(e)),
            Err(MathError::Overflow(_)) => unreached(),
        }
    }

    /// Lowers the allowance of `spender` on `owner` by `value` and moves its
    /// expiry to the expiry period after `current_block`. An allowance
    /// without limit stays without limit, with the new expiry. An allowance
    /// that is spent to the last loses its entry. For `owner == spender`
    /// nothing happens.
    pub fn decrease(
        &mut self,
        owner: NonZero<ActorId>,
        spender: NonZero<ActorId>,
        value: NonZero<T>,
        current_block: u32,
    ) -> (r: Result<(), AllowancesError>)
        requires
            old(self).wf(),
        ensures
            final(self).wf(),
            r == old(self).decrease_outcome(owner.value(), spender.value(), value.as_int()),
            r is Err ==> final(self).unchanged(*old(self)),
            owner.value() == spender.value() ==> final(self).unchanged(*old(self)),
            r is Ok && owner.value() != spender.value() ==> final(self).decreased(
                *old(self),
                owner.value(),
                spender.value(),
                value.as_int(),
                current_block,
            ),
    {
        let owner_id = owner.into_inner();
        let spender_id = spender.into_inner();
        if owner_id == spender_id {
            return Ok(());
        }
        let key = (owner_id.key(), spender_id.key());
        let expiry = self.expiry(current_block);
        let ghost shards = self.store.shards();
        proof {
            owner_id.lemma_key_injective(spender_id);
        }
        let (idx, allowance) = match self.store.get(&key) {
            Some((idx, entry)) => (idx, entry.0),
            None => {
                return Err(AllowancesError::Insufficient(UnderflowError));
            },
        };
        proof {
            lemma_home(shards, idx.index(), key);
            lemma_homes_without(shards, idx.index(), key);
            lemma_homes_with(shards, idx.index(), key, (allowance, expiry));
        }
        if allowance.into_inner().is_max() {
            match self.store.get_mut_at(idx, &key) {
                Some(slot) => {
                    slot.1 = expiry;
                },
                None => unreached(),
            }
            proof {
                assert(self.entries() =~= old(self).entries().insert(
                    key,
                    (allowance.value(), expiry),
                ));
                assert(self.entries().remove(key) =~= old(self).entries().remove(key));
            }
        } else {
            match allowance.try_sub(value) {
                Ok(new_allowance) => {
                    match self.store.get_mut_at(idx, &key) {
                        Some(slot) => {
                            *slot = (new_allowance, expiry);
                        },
                        None => unreached(),
                    }
                    proof {
                        lemma_homes_with(shards, idx.index(), key, (new_allowance, expiry));
                        assert(self.entries() =~= old(self).entries().insert(
                            key,
                            (new_allowance.value(), expiry),
                        ));
                        assert(self.entries().remove(key) =~= old(self).entries().remove(key));
                        let zero = T::zero_spec();
                        if new_allowance.value().as_int() == zero.as_int() {
                            T::lemma_as_int_injective(new_allowance.value(), zero);
                        }
                    }
                },
                Err(MathError::Underflow(e)) => {
                    return Err(AllowancesError::Insufficient(e));
                },
                Err(MathError::Zero(_)) => {
                    self.store.remove_at(idx, &key);
                    proof {
                        assert(self.entries() =~= old(self).entries().remove(key));
                        assert(self.entries().remove(key) =~= old(self).entries().remove(key));
                    }
                },
                Err(MathError::Overflow(_)) => unreached(),
            }
        }
        Ok(())
    }
}

impl<T: Math> Allowances<T> {
    /// No account has an allowance on itself, and no entry holds the amount
    /// zero.
    pub proof fn lemma_entries_are_allowances(self, owner: ActorId, spender: ActorId)
        requires
            self.wf(),
            self.holds(owner, spender),
        ensures
            owner != spender,
            self.amount_of(owner, spender) != T::zero_spec(),
    {
        assert(self.entries().contains_key(pair_key(owner, spender)));
    }
}

impl From<UnderflowError> for AllowancesError {
    /// An underflow of an allowance means that the allowance is too small.
    fn from(e: UnderflowError) -> (r: Self) {
        AllowancesError::Insufficient(e)
    }
}

impl vstd::std_specs::convert::FromSpecImpl<UnderflowError> for AllowancesError {
    open spec fn obeys_from_spec() -> bool {
        true
    }

    open spec fn from_spec(e: UnderflowError) -> Self {
        AllowancesError::Insufficient(e)
    }
}

impl From<ShardedMapError> for AllowancesError {
    /// An error of the map as an error of the allowances.
    fn from(e: ShardedMapError) -> (r: Self) {
        AllowancesError::ShardedMap(e)
    }
}

impl vstd::std_specs::convert::FromSpecImpl<ShardedMapError> for AllowancesError {
    open spec fn obeys_from_spec() -> bool {
        true
    }

    open spec fn from_spec(e: ShardedMapError) -> Self {
        AllowancesError::ShardedMap(e)
    }
}

impl<T: Math> Default for Allowances<T> {
    /// A ledger without allowances, whose entries expire as late as can be,
    /// with one shard of the recommended capacity, not allocated yet.
    fn default() -> (r: Self)
        ensures
            r.wf(),
            r.entries() == Map::<PairKey, (T, u32)>::empty(),
            r.expiry_period_spec() == u32::MAX,
            r.store_spec().declared() == seq![Self::DEFAULT_MAX_SHARD],
            forall|i: int|
                0 <= i < r.store_spec().shards().len() ==> !(
                #[trigger] r.store_spec().shards()[i]).allocated,
    {
        let mut capacities: Vec<usize> = Vec::new();
        capacities.push(Self::DEFAULT_MAX_SHARD);
        proof {
            vstd::arithmetic::power2::lemma2_to64();
            crate::map::lemma_seven_shifted_is_valid(Self::DEFAULT_MAX_SHARD, 20);
        }
        match Self::try_new(capacities, u32::MAX) {
            Ok(r) => {
                proof {
                    crate::map::lemma_same_items(
                        r.store_spec().declared(),
                        capacities@,
                        Self::DEFAULT_MAX_SHARD,
                    );
                    r.store_spec().lemma_declared();
                    assert(r.store_spec().declared() =~= seq![Self::DEFAULT_MAX_SHARD]);
                }
                r
            },
            Err(_) => unreached(),
        }
    }
}

} // verus!
