//! A map split into shards of bounded capacity.
//!
//! A shard is declared with a capacity and holds nothing until it is
//! allocated; from then on it holds at most that many entries. A key lives in
//! at most one shard. Growth is paced from outside: one call allocates one
//! shard.
//!
//! The contracts speak of the shards as a sequence of [`ShardView`]s
//! ([`ShardedMap::shards`]) and of the whole map as their union (`map@`).
use std::collections::BTreeMap;
use vstd::std_specs::iter::IteratorSpec;
use vstd::prelude::*;

verus! {

/// Whether the order of `K` is a total order that agrees with equality, which
/// the shards rely on to find a key again.
pub open spec fn key_order_is_lawful<K: Ord>() -> bool {
    vstd::laws_cmp::obeys_cmp::<K>()
}

/// What can go wrong in a sharded map.
#[derive(Clone, Copy, Debug, PartialEq, Eq, Structural, PartialOrd, Ord, Hash)]
pub enum ShardedMapError {
    /// No shard has room for another entry.
    CapacityOverflow,
    /// A capacity is not one that a shard may declare.
    InvalidCapacity,
}

impl ShardedMapError {
    /// The text shown for this error.
    pub fn message(&self) -> (s: String)
        ensures
            s@ == match *self {
                ShardedMapError::CapacityOverflow => "capacity overflow"@,
                ShardedMapError::InvalidCapacity => "invalid capacity"@,
            },
    {
        match self {
            ShardedMapError::CapacityOverflow => "capacity overflow".to_string(),
            ShardedMapError::InvalidCapacity => "invalid capacity".to_string(),
        }
    }
}

/// The position of a shard in its map, handed out by a lookup so that a
/// follow-up call can go straight to that shard.
#[derive(Debug)]
pub struct ShardIdx(usize);

impl ShardIdx {
    /// The position that the index stands for.
    pub closed spec fn index(self) -> int {
        self.0 as int
    }

    /// A second index for the same shard.
    pub fn cloned(&self) -> (r: Self)
        ensures
            r == *self,
    {
        ShardIdx(self.0)
    }

    /// The position that the index stands for.
    pub fn position(&self) -> (p: usize)
        ensures
            p == self.index(),
    {
        self.0
    }
}

/// `n` with its factors of two taken out.
pub open spec fn odd_part(n: nat) -> nat
    decreases n,
{
    if n > 0 && n % 2 == 0 {
        odd_part(n / 2)
    } else {
        n
    }
}

/// Whether `n` is a power of two.
pub open spec fn is_power_of_two(n: nat) -> bool
    decreases n,
{
    n == 1 || (n > 1 && n % 2 == 0 && is_power_of_two(n / 2))
}

/// The capacities that a shard may declare: in binary, a single `1`, or a run
/// of at least three `1`s, in both cases followed by any number of `0`s. Zero
/// and the greatest `usize` are not among them.
pub open spec fn is_valid_capacity_spec(n: usize) -> bool {
    &&& n != 0
    &&& n != usize::MAX
    &&& (odd_part(n as nat) == 1 || (odd_part(n as nat) >= 7 && is_power_of_two(
        odd_part(n as nat) + 1,
    )))
}

/// Whether a shard may declare the capacity `n`.
pub fn is_valid_capacity(n: usize) -> (b: bool)
    ensures
        b == is_valid_capacity_spec(n),
{
    if n == 0 || n == usize::MAX {
        return false;
    }
    let mut m: usize = n;
    while m % 2 == 0
        invariant
            0 < m <= n,
            n < usize::MAX,
            odd_part(m as nat) == odd_part(n as nat),
        decreases m,
    {
        m = m / 2;
    }
    if m == 1 {
        return true;
    }
    if m < 7 {
        return false;
    }
    let mut x: usize = m + 1;
    while x % 2 == 0
        invariant
            0 < x,
            is_power_of_two(x as nat) == is_power_of_two((m + 1) as nat),
        decreases x,
    {
        x = x / 2;
    }
    x == 1
}

/// What one shard holds, as the contracts see it.
#[verifier::reject_recursive_types(K)]
pub struct ShardView<K, V> {
    /// The capacity that the shard was declared with.
    pub capacity: nat,
    /// Whether the shard has been allocated.
    pub allocated: bool,
    /// The entries of the shard.
    pub entries: Map<K, V>,
}

impl<K, V> ShardView<K, V> {
    /// Whether the shard can take one more entry.
    pub open spec fn has_room(self) -> bool {
        self.allocated && self.entries.len() < self.capacity
    }

    /// The same shard with `k` bound to `v`.
    pub open spec fn with(self, k: K, v: V) -> Self {
        ShardView { entries: self.entries.insert(k, v), ..self }
    }

    /// The same shard without `k`.
    pub open spec fn without(self, k: K) -> Self {
        ShardView { entries: self.entries.remove(k), ..self }
    }

    /// A shard holds finitely many entries, at most as many as it declared,
    /// and none before it is allocated.
    pub open spec fn wf(self) -> bool {
        &&& self.entries.dom().finite()
        &&& self.entries.len() <= self.capacity
        &&& !self.allocated ==> self.entries == Map::<K, V>::empty()
    }
}

/// Whether shard `i` of `shards` holds the key `k`.
pub open spec fn holds<K, V>(shards: Seq<ShardView<K, V>>, i: int, k: K) -> bool {
    0 <= i < shards.len() && shards[i].entries.contains_key(k)
}

/// Whether no key lives in two shards.
pub open spec fn disjoint<K, V>(shards: Seq<ShardView<K, V>>) -> bool {
    forall|i: int, j: int, k: K| #[trigger]
        holds(shards, i, k) && #[trigger] holds(shards, j, k) ==> i == j
}

/// All entries of all shards as one map.
pub open spec fn union_of<K, V>(shards: Seq<ShardView<K, V>>) -> Map<K, V> {
    Map::new(
        |k: K| exists|i: int| holds(shards, i, k),
        |k: K| shards[choose|i: int| holds(shards, i, k)].entries[k],
    )
}

/// The shards of a well-formed map: each well-formed, no key in two of them,
/// and the allocated ones before the others.
pub open spec fn shards_wf<K, V>(shards: Seq<ShardView<K, V>>) -> bool {
    &&& forall|i: int| 0 <= i < shards.len() ==> (#[trigger] shards[i]).wf()
    &&& disjoint(shards)
    &&& forall|i: int, j: int|
        0 <= i <= j < shards.len() && (#[trigger] shards[j]).allocated ==> (#[trigger] shards[i]).allocated
}

/// The sum of the declared capacities of the first `n` shards.
pub open spec fn declared_sum<K, V>(shards: Seq<ShardView<K, V>>, n: int) -> nat
    decreases n,
{
    if n <= 0 || n > shards.len() {
        0
    } else {
        declared_sum(shards, n - 1) + shards[n - 1].capacity
    }
}

/// The sum of the capacities of those of the first `n` shards that are
/// allocated.
pub open spec fn allocated_sum<K, V>(shards: Seq<ShardView<K, V>>, n: int) -> nat
    decreases n,
{
    if n <= 0 || n > shards.len() {
        0
    } else {
        allocated_sum(shards, n - 1) + if shards[n - 1].allocated {
            shards[n - 1].capacity
        } else {
            0
        }
    }
}

/// The number of entries in the first `n` shards.
pub open spec fn entries_sum<K, V>(shards: Seq<ShardView<K, V>>, n: int) -> nat
    decreases n,
{
    if n <= 0 || n > shards.len() {
        0
    } else {
        entries_sum(shards, n - 1) + shards[n - 1].entries.len()
    }
}

/// The first shards hold no more than they may, and may hold no more than all
/// shards declared.
pub proof fn lemma_sums_ordered<K, V>(shards: Seq<ShardView<K, V>>, n: int)
    requires
        shards_wf(shards),
        0 <= n <= shards.len(),
    ensures
        entries_sum(shards, n) <= allocated_sum(shards, n) <= declared_sum(shards, n)
            <= declared_sum(shards, shards.len() as int),
    decreases shards.len() - n,
{
    lemma_sums_prefix(shards, n);
    if n < shards.len() {
        lemma_sums_ordered(shards, n + 1);
    }
}

proof fn lemma_sums_prefix<K, V>(shards: Seq<ShardView<K, V>>, n: int)
    requires
        shards_wf(shards),
        0 <= n <= shards.len(),
    ensures
        entries_sum(shards, n) <= allocated_sum(shards, n) <= declared_sum(shards, n),
    decreases n,
{
    if n > 0 {
        lemma_sums_prefix(shards, n - 1);
        assert(shards[n - 1].wf());
        if !shards[n - 1].allocated {
            assert(shards[n - 1].entries.len() == 0);
        }
    }
}

/// A key that a shard holds is a key of the union, bound to what the shard
/// binds it to.
pub proof fn lemma_union_lookup<K, V>(shards: Seq<ShardView<K, V>>, i: int, k: K)
    requires
        disjoint(shards),
        holds(shards, i, k),
    ensures
        union_of(shards).contains_key(k),
        union_of(shards)[k] == shards[i].entries[k],
{
    let chosen = choose|j: int| holds(shards, j, k);
    assert(holds(shards, chosen, k));
}

/// A key of the union lives in some shard.
pub proof fn lemma_union_holder<K, V>(shards: Seq<ShardView<K, V>>, k: K) -> (i: int)
    requires
        union_of(shards).contains_key(k),
    ensures
        holds(shards, i, k),
{
    choose|i: int| holds(shards, i, k)
}

/// Binding a key in one shard, where no other shard holds it, binds it in the
/// union and changes nothing else.
pub proof fn lemma_union_insert<K, V>(shards: Seq<ShardView<K, V>>, i: int, k: K, v: V)
    requires
        disjoint(shards),
        0 <= i < shards.len(),
        forall|j: int| j != i ==> !holds(shards, j, k),
    ensures
        disjoint(shards.update(i, shards[i].with(k, v))),
        union_of(shards.update(i, shards[i].with(k, v))) == union_of(shards).insert(k, v),
{
    let after = shards.update(i, shards[i].with(k, v));
    assert forall|a: int, b: int, x: K| #[trigger]
        holds(after, a, x) && #[trigger] holds(after, b, x) implies a == b by {
        if x != k {
            assert(holds(shards, a, x));
            assert(holds(shards, b, x));
        } else {
            if a != i {
                assert(holds(shards, a, k));
            }
            if b != i {
                assert(holds(shards, b, k));
            }
        }
    }
    assert forall|x: K| union_of(after).contains_key(x) <==> union_of(shards).insert(
        k,
        v,
    ).contains_key(x) by {
        if union_of(after).contains_key(x) {
            let a = choose|a: int| holds(after, a, x);
            if x != k {
                assert(holds(shards, a, x));
            }
        }
        if union_of(shards).insert(k, v).contains_key(x) {
            if x == k {
                assert(holds(after, i, x));
            } else {
                let a = choose|a: int| holds(shards, a, x);
                assert(holds(after, a, x));
            }
        }
    }
    assert forall|x: K| union_of(after).contains_key(x) implies union_of(after)[x] == union_of(
        shards,
    ).insert(k, v)[x] by {
        let a = choose|a: int| holds(after, a, x);
        lemma_union_lookup(after, a, x);
        if x != k {
            assert(holds(shards, a, x));
            lemma_union_lookup(shards, a, x);
        } else {
            if a != i {
                assert(holds(shards, a, k));
            }
        }
    }
    assert(union_of(after) =~= union_of(shards).insert(k, v));
}

/// Removing a key from the shard that holds it removes it from the union and
/// changes nothing else.
pub proof fn lemma_union_remove<K, V>(shards: Seq<ShardView<K, V>>, i: int, k: K)
    requires
        disjoint(shards),
        holds(shards, i, k),
    ensures
        disjoint(shards.update(i, shards[i].without(k))),
        union_of(shards.update(i, shards[i].without(k))) == union_of(shards).remove(k),
        forall|j: int| !holds(shards.update(i, shards[i].without(k)), j, k),
{
    let after = shards.update(i, shards[i].without(k));
    assert forall|a: int, x: K| #[trigger] holds(after, a, x) implies holds(shards, a, x) && x
        != k by {
        if x == k && a != i {
            assert(holds(shards, a, k));
        }
    }
    assert forall|a: int, b: int, x: K| #[trigger]
        holds(after, a, x) && #[trigger] holds(after, b, x) implies a == b by {
        assert(holds(shards, a, x));
        assert(holds(shards, b, x));
    }
    assert forall|x: K| union_of(after).contains_key(x) <==> union_of(shards).remove(
        k,
    ).contains_key(x) by {
        if union_of(after).contains_key(x) {
            let a = choose|a: int| holds(after, a, x);
            assert(holds(shards, a, x));
        }
        if union_of(shards).remove(k).contains_key(x) {
            let a = choose|a: int| holds(shards, a, x);
            assert(holds(after, a, x));
        }
    }
    assert forall|x: K| union_of(after).contains_key(x) implies union_of(after)[x] == union_of(
        shards,
    ).remove(k)[x] by {
        let a = choose|a: int| holds(after, a, x);
        lemma_union_lookup(after, a, x);
        assert(holds(shards, a, x));
        lemma_union_lookup(shards, a, x);
    }
    assert(union_of(after) =~= union_of(shards).remove(k));
}

/// One capacity-bounded part of a sharded map.
struct Shard<K, V> {
    entries: BTreeMap<K, V>,
    capacity: usize,
    allocated: bool,
}

impl<K, V> Shard<K, V> {
    spec fn model(self) -> ShardView<K, V> {
        ShardView {
            capacity: self.capacity as nat,
            allocated: self.allocated,
            entries: self.entries@,
        }
    }
}

/// An associative store split across shards of bounded capacity.
pub struct ShardedMap<K, V> {
    shards: Vec<Shard<K, V>>,
}

impl<K, V> View for ShardedMap<K, V> {
    type V = Map<K, V>;

    /// All entries of the map, whatever shard they live in.
    open spec fn view(&self) -> Map<K, V> {
        union_of(self.shards())
    }
}

impl<K, V> ShardedMap<K, V> {
    /// The shards of the map, in their order.
    pub closed spec fn shards(self) -> Seq<ShardView<K, V>> {
        Seq::new(self.shards@.len(), |i: int| self.shards@[i].model())
    }

    /// The sum of the capacities that the shards declared.
    pub open spec fn max_capacity_spec(self) -> nat {
        declared_sum(self.shards(), self.shards().len() as int)
    }

    /// The sum of the capacities of the allocated shards.
    pub open spec fn capacity_spec(self) -> nat {
        allocated_sum(self.shards(), self.shards().len() as int)
    }

    /// The number of entries in all shards.
    pub open spec fn len_spec(self) -> nat {
        entries_sum(self.shards(), self.shards().len() as int)
    }

    /// Whether some shard can take one more entry.
    pub open spec fn has_space_spec(self) -> bool {
        exists|i: int| 0 <= i < self.shards().len() && (#[trigger] self.shards()[i]).has_room()
    }

    /// Whether `idx` is the position of a shard of this map.
    pub open spec fn has_shard(self, idx: ShardIdx) -> bool {
        0 <= idx.index() < self.shards().len()
    }
}

impl<K: Ord, V> ShardedMap<K, V> {
    /// The invariant of the map: the order of the keys is lawful, and the
    /// shards are well-formed together.
    pub open spec fn wf(self) -> bool {
        &&& key_order_is_lawful::<K>()
        &&& shards_wf(self.shards())
    }
}

/// Sorts capacities, greatest first.
fn sort_descending(v: &Vec<usize>) -> (r: Vec<usize>)
    ensures
        r@.to_multiset() == v@.to_multiset(),
        r@.len() == v@.len(),
        forall|i: int, j: int| 0 <= i <= j < r@.len() ==> r@[i] >= r@[j],
{
    broadcast use vstd::seq_lib::group_to_multiset_ensures;

    let mut out: Vec<usize> = Vec::new();
    let mut i: usize = 0;
    assert(v@.take(0) =~= out@);
    while i < v.len()
        invariant
            i <= v@.len(),
            out@.len() == i,
            out@.to_multiset() == v@.take(i as int).to_multiset(),
            forall|a: int, b: int| 0 <= a <= b < out@.len() ==> out@[a] >= out@[b],
        decreases v@.len() - i,
    {
        let x = v[i];
        let mut pos: usize = 0;
        while pos < out.len() && out[pos] >= x
            invariant
                pos <= out@.len(),
                forall|a: int| 0 <= a < pos ==> out@[a] >= x,
            decreases out@.len() - pos,
        {
            pos += 1;
        }
        let ghost before = out@;
        out.insert(pos, x);
        proof {
            assert(out@.remove(pos as int) =~= before);
            assert(out@[pos as int] == x);
            vstd::seq_lib::to_multiset_remove(out@, pos as int);
            out@.to_multiset_ensures();
            assert(out@.contains(x));
            assert(out@.to_multiset() =~= before.to_multiset().insert(x));
            vstd::seq_lib::to_multiset_build(v@.take(i as int), x);
            assert(out@.to_multiset() =~= before.to_multiset().insert(x));
            assert(v@.take(i + 1) =~= v@.take(i as int).push(x));
        }
        i += 1;
    }
    assert(v@.take(v@.len() as int) =~= v@);
    out
}

impl<K, V> ShardedMap<K, V> {
    /// The capacities that the shards declared, in the order of the shards.
    pub closed spec fn declared(self) -> Seq<usize> {
        Seq::new(self.shards@.len(), |i: int| self.shards@[i].capacity)
    }

    /// Each shard has the capacity that it declared.
    pub proof fn lemma_declared(self)
        ensures
            self.declared().len() == self.shards().len(),
            forall|i: int|
                0 <= i < self.shards().len() ==> (#[trigger] self.shards()[i]).capacity
                    == self.declared()[i],
    {
    }
}

impl<K: Ord, V> ShardedMap<K, V> {
    /// A map with one shard for each of `capacities`, greatest capacity first,
    /// none of them allocated yet. Fails with
    /// [`InvalidCapacity`](ShardedMapError::InvalidCapacity) unless every
    /// capacity is one that a shard may declare.
    pub fn try_new(capacities: Vec<usize>) -> (r: Result<Self, ShardedMapError>)
        requires
            key_order_is_lawful::<K>(),
        ensures
            r is Ok <==> forall|i: int|
                0 <= i < capacities@.len() ==> is_valid_capacity_spec(#[trigger] capacities@[i]),
            r is Err ==> r == Err::<Self, ShardedMapError>(ShardedMapError::InvalidCapacity),
            r is Ok ==> ({
                let m = r->Ok_0;
                &&& m.wf()
                &&& m@ == Map::<K, V>::empty()
                &&& m.shards().len() == capacities@.len()
                &&& m.declared().to_multiset() == capacities@.to_multiset()
                &&& forall|i: int, j: int|
                    0 <= i <= j < m.declared().len() ==> m.declared()[i] >= m.declared()[j]
                &&& forall|i: int|
                    0 <= i < m.shards().len() ==> !(#[trigger] m.shards()[i]).allocated
                        && m.shards()[i].entries == Map::<K, V>::empty()
            }),
    {
        let mut i: usize = 0;
        while i < capacities.len()
            invariant
                i <= capacities@.len(),
                forall|j: int| 0 <= j < i ==> is_valid_capacity_spec(#[trigger] capacities@[j]),
            decreases capacities@.len() - i,
        {
            if !is_valid_capacity(capacities[i]) {
                return Err(ShardedMapError::InvalidCapacity);
            }
            i += 1;
        }
        let sorted = sort_descending(&capacities);
        let mut shards: Vec<Shard<K, V>> = Vec::new();
        let mut j: usize = 0;
        while j < sorted.len()
            invariant
                j <= sorted@.len(),
                shards@.len() == j,
                forall|t: int|
                    0 <= t < j ==> {
                        &&& (#[trigger] shards@[t]).capacity == sorted@[t]
                        &&& !shards@[t].allocated
                        &&& shards@[t].entries@ == Map::<K, V>::empty()
                    },
            decreases sorted@.len() - j,
        {
            shards.push(Shard { entries: BTreeMap::new(), capacity: sorted[j], allocated: false });
            j += 1;
        }
        let m = ShardedMap { shards };
        proof {
            assert(m.declared() =~= sorted@);
            assert(m@ =~= Map::<K, V>::empty());
            assert forall|t: int| 0 <= t < m.shards().len() implies (#[trigger] m.shards()[t]).wf() by {
                assert(!shards@[t].allocated);
            }
        }
        Ok(m)
    }

    /// The sum of the capacities of the allocated shards.
    pub fn capacity(&self) -> (n: usize)
        requires
            self.wf(),
            self.max_capacity_spec() <= usize::MAX,
        ensures
            n == self.capacity_spec(),
    {
        let mut sum: usize = 0;
        let mut i: usize = 0;
        while i < self.shards.len()
            invariant
                i <= self.shards@.len(),
                self.wf(),
                self.max_capacity_spec() <= usize::MAX,
                sum == allocated_sum(self.shards(), i as int),
            decreases self.shards@.len() - i,
        {
            proof {
                lemma_sums_ordered(self.shards(), i + 1);
            }
            if self.shards[i].allocated {
                sum = sum + self.shards[i].capacity;
            }
            i += 1;
        }
        sum
    }

    /// The sum of the capacities that the shards declared.
    pub fn max_capacity(&self) -> (n: usize)
        requires
            self.wf(),
            self.max_capacity_spec() <= usize::MAX,
        ensures
            n == self.max_capacity_spec(),
    {
        let mut sum: usize = 0;
        let mut i: usize = 0;
        while i < self.shards.len()
            invariant
                i <= self.shards@.len(),
                self.wf(),
                self.max_capacity_spec() <= usize::MAX,
                sum == declared_sum(self.shards(), i as int),
            decreases self.shards@.len() - i,
        {
            proof {
                lemma_sums_ordered(self.shards(), i + 1);
            }
            sum = sum + self.shards[i].capacity;
            i += 1;
        }
        sum
    }

    /// The number of entries in the map.
    pub fn len(&self) -> (n: usize)
        requires
            self.wf(),
            self.max_capacity_spec() <= usize::MAX,
        ensures
            n == self.len_spec(),
    {
        let mut sum: usize = 0;
        let mut i: usize = 0;
        while i < self.shards.len()
            invariant
                i <= self.shards@.len(),
                self.wf(),
                self.max_capacity_spec() <= usize::MAX,
                sum == entries_sum(self.shards(), i as int),
            decreases self.shards@.len() - i,
        {
            proof {
                lemma_sums_ordered(self.shards(), i + 1);
            }
            sum = sum + self.shards[i].entries.len();
            i += 1;
        }
        sum
    }

    /// Whether the map holds nothing.
    pub fn is_empty(&self) -> (b: bool)
        requires
            self.wf(),
            self.max_capacity_spec() <= usize::MAX,
        ensures
            b == (self.len_spec() == 0),
    {
        self.len() == 0
    }

    /// How many more entries the allocated shards can take.
    pub fn space(&self) -> (n: usize)
        requires
            self.wf(),
            self.max_capacity_spec() <= usize::MAX,
        ensures
            n == self.capacity_spec() - self.len_spec(),
    {
        proof {
            lemma_sums_ordered(self.shards(), self.shards().len() as int);
        }
        self.capacity() - self.len()
    }

    /// Whether some shard can take one more entry.
    pub fn has_space(&self) -> (b: bool)
        requires
            self.wf(),
        ensures
            b == self.has_space_spec(),
    {
        let mut i: usize = 0;
        while i < self.shards.len()
            invariant
                i <= self.shards@.len(),
                self.wf(),
                forall|j: int| 0 <= j < i ==> !(#[trigger] self.shards()[j]).has_room(),
            decreases self.shards@.len() - i,
        {
            if self.shards[i].allocated && self.shards[i].entries.len() < self.shards[i].capacity {
                assert(self.shards()[i as int].has_room());
                return true;
            }
            i += 1;
        }
        false
    }

    /// `Ok` where some shard can take one more entry, else
    /// [`CapacityOverflow`](ShardedMapError::CapacityOverflow).
    pub fn has_space_err(&self) -> (r: Result<(), ShardedMapError>)
        requires
            self.wf(),
        ensures
            r == (if self.has_space_spec() {
                Ok::<(), ShardedMapError>(())
            } else {
                Err::<(), ShardedMapError>(ShardedMapError::CapacityOverflow)
            }),
    {
        if self.has_space() {
            Ok(())
        } else {
            Err(ShardedMapError::CapacityOverflow)
        }
    }

    /// Allocates the first shard that is not allocated yet, if there is one,
    /// and says whether shards without allocation remain after that.
    pub fn alloc_next_shard(&mut self) -> (more: bool)
        requires
            old(self).wf(),
        ensures
            final(self).wf(),
            final(self)@ == old(self)@,
            final(self).declared() == old(self).declared(),
            final(self).shards().len() == old(self).shards().len(),
            more == (exists|j: int|
                0 <= j < final(self).shards().len() && !(#[trigger] final(self).shards()[j]).allocated),
            (forall|j: int|
                0 <= j < old(self).shards().len() ==> (#[trigger] old(self).shards()[j]).allocated)
                ==> final(self).shards() == old(self).shards() && !more,
            final(self).shards() == after_allocation(old(self).shards()),
    {
        let n = self.shards.len();
        let mut i: usize = 0;
        while i < n
            invariant
                i <= n,
                n == self.shards@.len(),
                *self == *old(self),
                self.wf(),
                forall|j: int| 0 <= j < i ==> (#[trigger] self.shards()[j]).allocated,
            decreases n - i,
        {
            if !self.shards[i].allocated {
                let ghost before = self.shards();
                self.shards[i].allocated = true;
                proof {
                    let after = self.shards();
                    assert(after =~= before.update(
                        i as int,
                        ShardView { allocated: true, ..before[i as int] },
                    ));
                    assert(self.declared() =~= old(self).declared());
                    assert(!before[i as int].allocated);
                    assert forall|a: int, k: K| holds(after, a, k) == holds(before, a, k) by {}
                    assert(union_of(after) =~= union_of(before));
                    assert forall|j: int| i < j < n implies !(#[trigger] after[j]).allocated by {
                        assert(before[j].allocated ==> before[i as int].allocated);
                    }
                    if i != n - 1 {
                        assert(!after[n - 1].allocated);
                    }
                    assert(is_first_unallocated(before, i as int));
                    lemma_first_unallocated(before, i as int);
                }
                return i != n - 1;
            }
            i += 1;
        }
        proof {
            assert forall|a: int| !is_first_unallocated(self.shards(), a) by {
                if 0 <= a < self.shards().len() {
                    assert(self.shards()[a].allocated);
                }
            }
        }
        false
    }

    /// Empties every shard; the shards stay as they were declared and
    /// allocated.
    pub fn clear_shards(&mut self)
        requires
            old(self).wf(),
        ensures
            final(self).wf(),
            final(self)@ == Map::<K, V>::empty(),
            final(self).declared() == old(self).declared(),
            final(self).shards().len() == old(self).shards().len(),
            forall|i: int|
                0 <= i < final(self).shards().len() ==> (#[trigger] final(self).shards()[i])
                    == (ShardView { entries: Map::<K, V>::empty(), ..old(self).shards()[i] }),
    {
        let n = self.shards.len();
        let mut i: usize = 0;
        while i < n
            invariant
                i <= n,
                n == self.shards@.len(),
                n == old(self).shards@.len(),
                self.declared() == old(self).declared(),
                forall|j: int|
                    0 <= j < i ==> (#[trigger] self.shards()[j]) == (ShardView {
                        entries: Map::<K, V>::empty(),
                        ..old(self).shards()[j]
                    }),
                forall|j: int| i <= j < n ==> (#[trigger] self.shards()[j]) == old(self).shards()[j],
            decreases n - i,
        {
            let ghost before = self.shards();
            self.shards[i].entries.clear();
            proof {
                assert(self.declared() =~= old(self).declared());
                assert forall|j: int| 0 <= j < n && j != i implies #[trigger] self.shards()[j]
                    == before[j] by {}
                assert(before[i as int] == old(self).shards()[i as int]);
                assert(self.shards()[i as int] == (ShardView {
                    entries: Map::<K, V>::empty(),
                    ..before[i as int]
                }));
            }
            i += 1;
        }
        proof {
            let after = self.shards();
            assert forall|a: int, k: K| !holds(after, a, k) by {
                if 0 <= a < after.len() {
                    assert(after[a].entries == Map::<K, V>::empty());
                }
            }
            assert(union_of(after) =~= Map::<K, V>::empty());
            assert forall|t: int| 0 <= t < after.len() implies (#[trigger] after[t]).wf() by {
                assert(old(self).shards()[t].wf());
            }
            assert forall|a: int, b: int|
                0 <= a <= b < after.len() && (#[trigger] after[b]).allocated implies (
            #[trigger] after[a]).allocated by {
                assert(old(self).shards()[b].allocated);
                assert(old(self).shards()[a].allocated);
            }
        }
    }

    /// Declares one more shard, after the others and not allocated yet. Fails
    /// with [`InvalidCapacity`](ShardedMapError::InvalidCapacity) unless
    /// `capacity` is one that a shard may declare.
    pub fn try_append_shard(&mut self, capacity: usize) -> (r: Result<(), ShardedMapError>)
        requires
            old(self).wf(),
        ensures
            final(self).wf(),
            final(self)@ == old(self)@,
            r == (if is_valid_capacity_spec(capacity) {
                Ok::<(), ShardedMapError>(())
            } else {
                Err::<(), ShardedMapError>(ShardedMapError::InvalidCapacity)
            }),
            r is Err ==> *final(self) == *old(self),
            r is Ok ==> final(self).shards() == old(self).shards().push(new_shard(capacity))
                && final(self).declared() == old(self).declared().push(capacity),
    {
        if !is_valid_capacity(capacity) {
            return Err(ShardedMapError::InvalidCapacity);
        }
        let ghost before = self.shards();
        self.shards.push(Shard { entries: BTreeMap::new(), capacity, allocated: false });
        proof {
            let after = self.shards();
            assert(after =~= before.push(
                ShardView { capacity: capacity as nat, allocated: false, entries: Map::empty() },
            ));
            assert(self.declared() =~= old(self).declared().push(capacity));
            assert forall|a: int, k: K| holds(after, a, k) == holds(before, a, k) by {}
            assert(union_of(after) =~= union_of(before));
            assert forall|t: int| 0 <= t < after.len() implies (#[trigger] after[t]).wf() by {
                if t < before.len() {
                    assert(before[t].wf());
                }
            }
            assert forall|a: int, b: int|
                0 <= a <= b < after.len() && (#[trigger] after[b]).allocated implies (
            #[trigger] after[a]).allocated by {
                assert(before[b].allocated);
                assert(before[a].allocated);
            }
        }
        Ok(())
    }
}

/// `BTreeMap::get_mut` of the standard library: a mutable reference to the
/// value that the map binds `k` to, or `None` where it binds none. What is
/// written through the reference becomes the value of `k`; the map changes in
/// nothing else.
#[verifier::external_body]
fn entry_mut<'a, K: Ord, V>(m: &'a mut BTreeMap<K, V>, k: &K) -> (r: Option<&'a mut V>)
    ensures
        key_order_is_lawful::<K>() ==> match r {
            Some(v) => old(m)@.contains_key(*k) && *v == old(m)@[*k] && final(m)@ == old(m)@.insert(
                *k,
                *final(v),
            ),
            None => !old(m)@.contains_key(*k) && final(m)@ == old(m)@,
        },
{
    m.get_mut(k)
}

impl<K: Ord, V> ShardedMap<K, V> {
    /// The well-formedness that is left to show after one shard changed.
    proof fn lemma_wf_after_update(self, before: Seq<ShardView<K, V>>, i: int)
        requires
            key_order_is_lawful::<K>(),
            shards_wf(before),
            0 <= i < before.len(),
            self.shards().len() == before.len(),
            forall|j: int| 0 <= j < before.len() && j != i ==> self.shards()[j] == before[j],
            self.shards()[i].wf(),
            self.shards()[i].allocated == before[i].allocated,
            disjoint(self.shards()),
        ensures
            self.wf(),
    {
        let after = self.shards();
        assert forall|t: int| 0 <= t < after.len() implies (#[trigger] after[t]).wf() by {
            assert(before[t].wf());
        }
        assert forall|a: int, b: int|
            0 <= a <= b < after.len() && (#[trigger] after[b]).allocated implies (
        #[trigger] after[a]).allocated by {
            assert(before[b].allocated);
            assert(before[a].allocated);
        }
    }

    /// The value of `key` with the shard that holds it, or `None` where no
    /// shard holds it.
    pub fn get(&self, key: &K) -> (r: Option<(ShardIdx, &V)>)
        requires
            self.wf(),
        ensures
            match r {
                Some((idx, v)) => holds(self.shards(), idx.index(), *key) && self@.contains_key(*key)
                    && *v == self@[*key],
                None => !self@.contains_key(*key),
            },
    {
        let mut i: usize = 0;
        while i < self.shards.len()
            invariant
                i <= self.shards@.len(),
                self.wf(),
                forall|j: int| 0 <= j < i ==> !holds(self.shards(), j, *key),
            decreases self.shards@.len() - i,
        {
            match self.shards[i].entries.get(key) {
                Some(v) => {
                    proof {
                        assert(holds(self.shards(), i as int, *key));
                        lemma_union_lookup(self.shards(), i as int, *key);
                    }
                    return Some((ShardIdx(i), v));
                },
                None => {},
            }
            i += 1;
        }
        proof {
            if self@.contains_key(*key) {
                let j = lemma_union_holder(self.shards(), *key);
                assert(holds(self.shards(), j, *key));
            }
        }
        None
    }

    /// The value of `key` in the shard `idx`, or `None` where that shard does
    /// not hold `key`.
    pub fn get_at(&self, idx: ShardIdx, key: &K) -> (r: Option<&V>)
        requires
            self.wf(),
            self.has_shard(idx),
        ensures
            match r {
                Some(v) => holds(self.shards(), idx.index(), *key) && *v == self@[*key],
                None => !holds(self.shards(), idx.index(), *key),
            },
    {
        let r = self.shards[idx.0].entries.get(key);
        proof {
            if r is Some {
                assert(holds(self.shards(), idx.index(), *key));
                lemma_union_lookup(self.shards(), idx.index(), *key);
            }
        }
        r
    }

    /// A mutable reference to the value of `key`, with the shard that holds
    /// it, or `None` where no shard holds it. What is written through the
    /// reference becomes the value of `key`.
    pub fn get_mut(&mut self, key: &K) -> (r: Option<(ShardIdx, &mut V)>)
        requires
            old(self).wf(),
        ensures
            match r {
                Some((idx, v)) => {
                    &&& holds(old(self).shards(), idx.index(), *key)
                    &&& *v == old(self)@[*key]
                    &&& final(self).shards() == old(self).shards().update(
                        idx.index(),
                        old(self).shards()[idx.index()].with(*key, *final(v)),
                    )
                    &&& final(self)@ == old(self)@.insert(*key, *final(v))
                    &&& final(self).wf()
                },
                None => !old(self)@.contains_key(*key) && final(self).shards() == old(
                    self,
                ).shards(),
            },
    {
        let found = match self.get(key) {
            Some((idx, _)) => Some(idx),
            None => None,
        };
        match found {
            Some(idx) => {
                let at = idx.cloned();
                match self.get_mut_at(idx, key) {
                    Some(v) => Some((at, v)),
                    None => None,
                }
            },
            None => None,
        }
    }

    /// A mutable reference to the value of `key` in the shard `idx`, or `None`
    /// where that shard does not hold `key`. What is written through the
    /// reference becomes the value of `key`.
    pub fn get_mut_at(&mut self, idx: ShardIdx, key: &K) -> (r: Option<&mut V>)
        requires
            old(self).wf(),
            old(self).has_shard(idx),
        ensures
            match r {
                Some(v) => {
                    &&& holds(old(self).shards(), idx.index(), *key)
                    &&& *v == old(self)@[*key]
                    &&& final(self).shards() == old(self).shards().update(
                        idx.index(),
                        old(self).shards()[idx.index()].with(*key, *final(v)),
                    )
                    &&& final(self)@ == old(self)@.insert(*key, *final(v))
                    &&& final(self).wf()
                },
                None => !holds(old(self).shards(), idx.index(), *key) && final(self).shards()
                    == old(self).shards(),
            },
    {
        let ghost before = self.shards();
        let ghost i = idx.index();
        let ghost end = *final(self);
        let r = entry_mut(&mut self.shards[idx.0].entries, key);
        proof {
            if r is Some {
                let written = *final(r->0);
                let after = end.shards();
                assert(after =~= before.update(i, before[i].with(*key, written)));
                assert(holds(before, i, *key));
                assert forall|j: int| j != i implies !holds(before, j, *key) by {}
                lemma_union_insert(before, i, *key, written);
                lemma_union_lookup(before, i, *key);
                assert(before[i].wf());
                assert(before[i].entries.insert(*key, written).dom() =~= before[i].entries.dom());
                end.lemma_wf_after_update(before, i);
            } else {
                assert(end.shards() =~= before);
            }
        }
        r
    }

    /// Takes `key` out of the map and returns its value with the shard that
    /// held it, or `None` where no shard holds it.
    pub fn remove(&mut self, key: &K) -> (r: Option<(ShardIdx, V)>)
        requires
            old(self).wf(),
        ensures
            final(self).wf(),
            final(self)@ == old(self)@.remove(*key),
            match r {
                Some((idx, v)) => {
                    &&& holds(old(self).shards(), idx.index(), *key)
                    &&& v == old(self)@[*key]
                    &&& final(self).shards() == old(self).shards().update(
                        idx.index(),
                        old(self).shards()[idx.index()].without(*key),
                    )
                },
                None => !old(self)@.contains_key(*key) && final(self).shards() == old(
                    self,
                ).shards(),
            },
    {
        let found = match self.get(key) {
            Some((idx, _)) => Some(idx),
            None => None,
        };
        match found {
            Some(idx) => {
                let at = idx.cloned();
                match self.remove_at(idx, key) {
                    Some(v) => Some((at, v)),
                    None => None,
                }
            },
            None => {
                assert(old(self)@.remove(*key) =~= old(self)@);
                None
            },
        }
    }

    /// Takes `key` out of the shard `idx` and returns its value, or `None`
    /// where that shard does not hold `key`.
    pub fn remove_at(&mut self, idx: ShardIdx, key: &K) -> (r: Option<V>)
        requires
            old(self).wf(),
            old(self).has_shard(idx),
        ensures
            final(self).wf(),
            match r {
                Some(v) => {
                    &&& holds(old(self).shards(), idx.index(), *key)
                    &&& v == old(self)@[*key]
                    &&& final(self)@ == old(self)@.remove(*key)
                    &&& final(self).shards() == old(self).shards().update(
                        idx.index(),
                        old(self).shards()[idx.index()].without(*key),
                    )
                },
                None => !holds(old(self).shards(), idx.index(), *key) && final(self).shards()
                    == old(self).shards(),
            },
    {
        let ghost before = self.shards();
        let ghost i = idx.index();
        let r = self.shards[idx.0].entries.remove(key);
        proof {
            let after = self.shards();
            if r is Some {
                assert(after =~= before.update(i, before[i].without(*key)));
                lemma_union_remove(before, i, *key);
                lemma_union_lookup(before, i, *key);
                assert(before[i].wf());
                self.lemma_wf_after_update(before, i);
            } else {
                assert(before[i].entries.remove(*key) =~= before[i].entries);
                assert(after =~= before);
            }
        }
        r
    }

    /// Binds `key` to `value`. Where a shard holds `key` already, the value is
    /// replaced there and the previous one returned. Otherwise the entry goes
    /// to the first shard that can take one more, or the call fails with
    /// [`CapacityOverflow`](ShardedMapError::CapacityOverflow) and changes
    /// nothing.
    pub fn try_insert(&mut self, key: K, value: V) -> (r: Result<
        (ShardIdx, Option<V>),
        ShardedMapError,
    >)
        requires
            old(self).wf(),
        ensures
            final(self).wf(),
            match r {
                Ok((idx, previous)) => {
                    &&& old(self).has_shard(idx)
                    &&& final(self)@ == old(self)@.insert(key, value)
                    &&& final(self).shards() == old(self).shards().update(
                        idx.index(),
                        old(self).shards()[idx.index()].with(key, value),
                    )
                    &&& match previous {
                        Some(v) => holds(old(self).shards(), idx.index(), key) && v == old(
                            self,
                        )@[key],
                        None => {
                            &&& !old(self)@.contains_key(key)
                            &&& old(self).shards()[idx.index()].has_room()
                            &&& forall|j: int|
                                0 <= j < idx.index() ==> !(#[trigger] old(self).shards()[j]).has_room()
                        },
                    }
                },
                Err(e) => {
                    &&& e == ShardedMapError::CapacityOverflow
                    &&& !old(self)@.contains_key(key)
                    &&& !old(self).has_space_spec()
                    &&& final(self).shards() == old(self).shards()
                },
            },
    {
        let found = match self.get(&key) {
            Some((idx, _)) => Some(idx),
            None => None,
        };
        match found {
            Some(idx) => {
                let ghost before = self.shards();
                let ghost i = idx.index();
                let previous = self.shards[idx.0].entries.insert(key, value);
                proof {
                    let after = self.shards();
                    assert(after =~= before.update(i, before[i].with(key, value)));
                    assert forall|j: int| j != i implies !holds(before, j, key) by {}
                    lemma_union_insert(before, i, key, value);
                    lemma_union_lookup(before, i, key);
                    assert(before[i].wf());
                    assert(before[i].entries.insert(key, value).dom() =~= before[i].entries.dom());
                    self.lemma_wf_after_update(before, i);
                }
                Ok((idx, previous))
            },
            None => match self.try_insert_new(key, value) {
                Ok(idx) => Ok((idx, None)),
                Err(e) => Err(e),
            },
        }
    }

    /// Binds `key`, which no shard holds yet, to `value` in the first shard
    /// that can take one more entry, or fails with
    /// [`CapacityOverflow`](ShardedMapError::CapacityOverflow) and changes
    /// nothing.
    ///
    /// This skips the search for `key`: the caller has made it already.
    pub fn try_insert_new(&mut self, key: K, value: V) -> (r: Result<ShardIdx, ShardedMapError>)
        requires
            old(self).wf(),
            !old(self)@.contains_key(key),
        ensures
            final(self).wf(),
            match r {
                Ok(idx) => {
                    &&& old(self).has_shard(idx)
                    &&& old(self).shards()[idx.index()].has_room()
                    &&& forall|j: int|
                        0 <= j < idx.index() ==> !(#[trigger] old(self).shards()[j]).has_room()
                    &&& final(self)@ == old(self)@.insert(key, value)
                    &&& final(self).shards() == old(self).shards().update(
                        idx.index(),
                        old(self).shards()[idx.index()].with(key, value),
                    )
                },
                Err(e) => {
                    &&& e == ShardedMapError::CapacityOverflow
                    &&& !old(self).has_space_spec()
                    &&& final(self).shards() == old(self).shards()
                },
            },
    {
        let mut i: usize = 0;
        while i < self.shards.len()
            invariant
                i <= self.shards@.len(),
                *self == *old(self),
                self.wf(),
                !self@.contains_key(key),
                forall|j: int| 0 <= j < i ==> !(#[trigger] self.shards()[j]).has_room(),
            decreases self.shards@.len() - i,
        {
            if self.shards[i].allocated && self.shards[i].entries.len() < self.shards[i].capacity {
                assert(self.shards()[i as int].has_room());
                match self.try_insert_new_at(ShardIdx(i), key, value) {
                    Ok(()) => {
                        return Ok(ShardIdx(i));
                    },
                    Err(e) => {
                        return Err(e);
                    },
                }
            }
            i += 1;
        }
        Err(ShardedMapError::CapacityOverflow)
    }

    /// Binds `key`, which no shard holds yet, to `value` in the shard `idx`,
    /// or fails with [`CapacityOverflow`](ShardedMapError::CapacityOverflow)
    /// where that shard cannot take one more entry, and changes nothing.
    pub fn try_insert_new_at(&mut self, idx: ShardIdx, key: K, value: V) -> (r: Result<
        (),
        ShardedMapError,
    >)
        requires
            old(self).wf(),
            old(self).has_shard(idx),
            !old(self)@.contains_key(key),
        ensures
            final(self).wf(),
            r == (if old(self).shards()[idx.index()].has_room() {
                Ok::<(), ShardedMapError>(())
            } else {
                Err::<(), ShardedMapError>(ShardedMapError::CapacityOverflow)
            }),
            r is Ok ==> final(self)@ == old(self)@.insert(key, value) && final(self).shards()
                == old(self).shards().update(
                idx.index(),
                old(self).shards()[idx.index()].with(key, value),
            ),
            r is Err ==> final(self).shards() == old(self).shards(),
    {
        let ghost before = self.shards();
        let ghost i = idx.index();
        if !(self.shards[idx.0].allocated && self.shards[idx.0].entries.len()
            < self.shards[idx.0].capacity) {
            return Err(ShardedMapError::CapacityOverflow);
        }
        self.shards[idx.0].entries.insert(key, value);
        proof {
            let after = self.shards();
            assert(after =~= before.update(i, before[i].with(key, value)));
            assert forall|j: int| !holds(before, j, key) by {
                if holds(before, j, key) {
                    lemma_union_lookup(before, j, key);
                }
            }
            lemma_union_insert(before, i, key, value);
            assert(before[i].wf());
            self.lemma_wf_after_update(before, i);
        }
        Ok(())
    }
}

/// The union of shards that each hold finitely many entries holds finitely
/// many.
pub proof fn lemma_union_finite<K, V>(shards: Seq<ShardView<K, V>>)
    requires
        forall|i: int| 0 <= i < shards.len() ==> (#[trigger] shards[i]).entries.dom().finite(),
    ensures
        union_of(shards).dom().finite(),
    decreases shards.len(),
{
    if shards.len() == 0 {
        assert(union_of(shards).dom() =~= Set::<K>::empty());
    } else {
        let rest = shards.drop_last();
        let last = shards.len() - 1;
        assert forall|i: int| 0 <= i < rest.len() implies (#[trigger] rest[i]).entries.dom().finite() by {
            assert(rest[i] == shards[i]);
        }
        lemma_union_finite(rest);
        assert forall|k: K|
            union_of(shards).dom().contains(k) <==> union_of(rest).dom().union(
                shards[last].entries.dom(),
            ).contains(k) by {
            if union_of(shards).contains_key(k) {
                let i = choose|i: int| holds(shards, i, k);
                if i < last {
                    assert(holds(rest, i, k));
                }
            }
            if union_of(rest).contains_key(k) {
                let i = choose|i: int| holds(rest, i, k);
                assert(holds(shards, i, k));
            }
            if shards[last].entries.contains_key(k) {
                assert(holds(shards, last, k));
            }
        }
        assert(union_of(shards).dom() =~= union_of(rest).dom().union(shards[last].entries.dom()));
    }
}

impl<K: Ord, V> ShardedMap<K, V> {
    /// A well-formed map holds finitely many entries.
    pub proof fn lemma_finite(self)
        requires
            self.wf(),
        ensures
            self@.dom().finite(),
    {
        assert forall|i: int| 0 <= i < self.shards().len() implies (
        #[trigger] self.shards()[i]).entries.dom().finite() by {
            assert(self.shards()[i].wf());
        }
        lemma_union_finite(self.shards());
    }
}

/// Seven times a power of two is a capacity that a shard may declare, as long
/// as it is less than `2^24`.
pub proof fn lemma_seven_shifted_is_valid(n: usize, shift: nat)
    requires
        shift <= 21,
        n == 7 * vstd::arithmetic::power2::pow2(shift),
    ensures
        is_valid_capacity_spec(n),
    decreases shift,
{
    vstd::arithmetic::power2::lemma2_to64();
    reveal_with_fuel(is_power_of_two, 4);
    assert(is_power_of_two(8));
    lemma_odd_part_of_shifted(7, shift);
    vstd::arithmetic::power2::lemma_pow2_strictly_increases(shift, 22);
}

/// Factors of two do not change the odd part.
proof fn lemma_odd_part_of_shifted(odd: nat, shift: nat)
    requires
        odd % 2 == 1,
    ensures
        odd_part(odd * vstd::arithmetic::power2::pow2(shift)) == odd,
    decreases shift,
{
    let p = vstd::arithmetic::power2::pow2(shift);
    if shift == 0 {
        vstd::arithmetic::power2::lemma2_to64();
    } else {
        let half = vstd::arithmetic::power2::pow2((shift - 1) as nat);
        vstd::arithmetic::power2::lemma_pow2_unfold(shift);
        vstd::arithmetic::power2::lemma_pow2_pos((shift - 1) as nat);
        lemma_odd_part_of_shifted(odd, (shift - 1) as nat);
        assert(odd * p == 2 * (odd * half)) by (nonlinear_arith)
            requires
                p == 2 * half,
        ;
        assert(odd * half > 0) by (nonlinear_arith)
            requires
                odd >= 1,
                half >= 1,
        ;
    }
}

/// All the items of a sequence that holds what `n` copies of `x` hold are
/// `x`.
pub proof fn lemma_same_items(s: Seq<usize>, copies: Seq<usize>, x: usize)
    requires
        s.to_multiset() == copies.to_multiset(),
        forall|i: int| 0 <= i < copies.len() ==> copies[i] == x,
    ensures
        s.len() == copies.len(),
        forall|i: int| 0 <= i < s.len() ==> s[i] == x,
{
    s.to_multiset_ensures();
    copies.to_multiset_ensures();
    assert forall|i: int| 0 <= i < s.len() implies s[i] == x by {
        assert(s.contains(s[i]));
        assert(copies.to_multiset().count(s[i]) > 0);
        assert(copies.contains(s[i]));
    }
}

impl<K: Ord + Copy, V: Copy> ShardedMap<K, V> {
    /// All entries of the map, each once, shard by shard.
    pub fn entries(&self) -> (r: Vec<(K, V)>)
        requires
            self.wf(),
        ensures
            r@.len() == self.len_spec(),
            forall|i: int|
                0 <= i < r@.len() ==> self@.contains_key((#[trigger] r@[i]).0) && self@[r@[i].0]
                    == r@[i].1,
            forall|k: K| #[trigger]
                self@.contains_key(k) ==> exists|i: int| 0 <= i < r@.len() && r@[i].0 == k,
            forall|i: int, j: int| 0 <= i < j < r@.len() ==> r@[i].0 != r@[j].0,
    {
        let mut out: Vec<(K, V)> = Vec::new();
        let ghost mut origin: Seq<int> = Seq::empty();
        let mut s: usize = 0;
        while s < self.shards.len()
            invariant
                s <= self.shards@.len(),
                self.wf(),
                origin.len() == out@.len(),
                out@.len() == entries_sum(self.shards(), s as int),
                forall|i: int|
                    0 <= i < out@.len() ==> 0 <= #[trigger] origin[i] < s && holds(
                        self.shards(),
                        origin[i],
                        out@[i].0,
                    ) && self.shards()[origin[i]].entries[out@[i].0] == out@[i].1,
                forall|t: int, k: K|
                    0 <= t < s && #[trigger] holds(self.shards(), t, k) ==> exists|i: int|
                        0 <= i < out@.len() && out@[i].0 == k,
                forall|i: int, j: int| 0 <= i < j < out@.len() ==> out@[i].0 != out@[j].0,
            decreases self.shards@.len() - s,
        {
            let ghost base = out@;
            let ghost base_origin = origin;
            let ghost entries = self.shards()[s as int].entries;
            let shard = &self.shards[s];
            let ghost items = vstd::std_specs::btree::spec_btree_map_iter(
                &shard.entries,
            ).remaining();
            for pair in it: shard.entries.iter()
                invariant
                    s < self.shards@.len(),
                    base_origin.len() == base.len(),
                    forall|i: int|
                        0 <= i < base.len() ==> 0 <= #[trigger] base_origin[i] < s && holds(
                            self.shards(),
                            base_origin[i],
                            base[i].0,
                        ) && self.shards()[base_origin[i]].entries[base[i].0] == base[i].1,
                    forall|t: int, k: K|
                        0 <= t < s && #[trigger] holds(self.shards(), t, k) ==> exists|i: int|
                            0 <= i < base.len() && base[i].0 == k,
                    forall|i: int, j: int| 0 <= i < j < base.len() ==> base[i].0 != base[j].0,
                    self.wf(),
                    entries == self.shards()[s as int].entries,
                    it.seq() == items,
                    items.len() == entries.dom().len(),
                    items.no_duplicates(),
                    forall|i: int|
                        0 <= i < items.len() ==> entries.contains_key(*(#[trigger] items[i]).0)
                            && entries[*items[i].0] == *items[i].1,
                    forall|k: K| #[trigger]
                        entries.contains_key(k) ==> items.contains((&k, &entries[k])),
                    out@.len() == base.len() + it.index(),
                    origin.len() == out@.len(),
                    forall|i: int| 0 <= i < base.len() ==> (#[trigger] out@[i]) == base[i],
                    forall|i: int|
                        0 <= i < base_origin.len() ==> (#[trigger] origin[i]) == base_origin[i],
                    forall|i: int|
                        0 <= i < it.index() ==> (#[trigger] out@[base.len() + i]) == (
                            *items[i].0,
                            *items[i].1,
                        ) && origin[base.len() + i] == s,
            {
                let ghost listed = out@;
                let ghost listed_origin = origin;
                out.push((*pair.0, *pair.1));
                proof {
                    origin = origin.push(s as int);
                    assert forall|i: int| 0 <= i < base.len() implies (#[trigger] out@[i])
                        == base[i] by {
                        assert(listed[i] == base[i]);
                    }
                    assert forall|i: int| 0 <= i < base_origin.len() implies (
                    #[trigger] origin[i]) == base_origin[i] by {
                        assert(listed_origin[i] == base_origin[i]);
                    }
                }
            }
            proof {
                let shards = self.shards();
                assert forall|i: int| 0 <= i < out@.len() implies 0 <= #[trigger] origin[i] < s
                    + 1 && holds(shards, origin[i], out@[i].0)
                    && shards[origin[i]].entries[out@[i].0] == out@[i].1 by {
                    if i >= base.len() {
                        let j = i - base.len();
                        assert(out@[base.len() + j] == (*items[j].0, *items[j].1));
                        assert(origin[base.len() + j] == s);
                        assert(entries.contains_key(*items[j].0));
                        assert(holds(shards, s as int, out@[i].0));
                    } else {
                        assert(out@[i] == base[i]);
                        assert(origin[i] == base_origin[i]);
                        assert(0 <= base_origin[i] < s);
                    }
                }
                assert forall|t: int, k: K| 0 <= t < s + 1 && #[trigger] holds(shards, t, k) implies exists|
                    i: int,
                | 0 <= i < out@.len() && out@[i].0 == k by {
                    if t == s {
                        assert(items.contains((&k, &entries[k])));
                        let j = choose|j: int| 0 <= j < items.len() && items[j] == (&k, &entries[k]);
                        assert(out@[base.len() + j] == (*items[j].0, *items[j].1));
                    } else {
                        let i = choose|i: int| 0 <= i < base.len() && base[i].0 == k;
                        assert(out@[i].0 == k);
                    }
                }
                assert forall|i: int, j: int| 0 <= i < j < out@.len() implies out@[i].0
                    != out@[j].0 by {
                    if out@[i].0 == out@[j].0 {
                        let k = out@[i].0;
                        assert(holds(shards, origin[i], k));
                        assert(holds(shards, origin[j], k));
                        if i >= base.len() {
                            let a = i - base.len();
                            let b = j - base.len();
                            assert(out@[base.len() + a] == (*items[a].0, *items[a].1));
                            assert(out@[base.len() + b] == (*items[b].0, *items[b].1));
                            assert(items[a] == items[b]);
                        } else if j >= base.len() {
                            let b = j - base.len();
                            assert(out@[base.len() + b] == (*items[b].0, *items[b].1));
                            assert(origin[base.len() + b] == s);
                            assert(out@[i] == base[i]);
                            assert(origin[i] == base_origin[i]);
                            assert(0 <= base_origin[i] < s);
                        } else {
                            assert(out@[i] == base[i]);
                            assert(out@[j] == base[j]);
                        }
                    }
                }
            }
            s += 1;
        }
        proof {
            let shards = self.shards();
            assert forall|i: int| 0 <= i < out@.len() implies self@.contains_key(
                (#[trigger] out@[i]).0,
            ) && self@[out@[i].0] == out@[i].1 by {
                assert(holds(shards, origin[i], out@[i].0));
                lemma_union_lookup(shards, origin[i], out@[i].0);
            }
            assert forall|k: K| #[trigger] self@.contains_key(k) implies exists|i: int|
                0 <= i < out@.len() && out@[i].0 == k by {
                let t = lemma_union_holder(shards, k);
                assert(holds(shards, t, k));
            }
        }
        out
    }
}

/// A shard as it is declared: of the given capacity, not allocated, empty.
pub open spec fn new_shard<K, V>(capacity: usize) -> ShardView<K, V> {
    ShardView { capacity: capacity as nat, allocated: false, entries: Map::empty() }
}

/// Whether `i` is the first shard that is not allocated.
pub open spec fn is_first_unallocated<K, V>(shards: Seq<ShardView<K, V>>, i: int) -> bool {
    &&& 0 <= i < shards.len()
    &&& !shards[i].allocated
    &&& forall|j: int| 0 <= j < i ==> (#[trigger] shards[j]).allocated
}

/// The shards after the first of them that is not allocated has been
/// allocated; the same shards where all are allocated.
pub open spec fn after_allocation<K, V>(shards: Seq<ShardView<K, V>>) -> Seq<ShardView<K, V>> {
    if exists|i: int| is_first_unallocated(shards, i) {
        let i = choose|i: int| is_first_unallocated(shards, i);
        shards.update(i, ShardView { allocated: true, ..shards[i] })
    } else {
        shards
    }
}

/// There is one first shard without allocation at most.
pub proof fn lemma_first_unallocated<K, V>(shards: Seq<ShardView<K, V>>, i: int)
    requires
        is_first_unallocated(shards, i),
    ensures
        after_allocation(shards) == shards.update(i, ShardView { allocated: true, ..shards[i] }),
{
    let chosen = choose|a: int| is_first_unallocated(shards, a);
    assert(is_first_unallocated(shards, chosen));
    if chosen < i {
        assert(shards[chosen].allocated);
    }
    if i < chosen {
        assert(shards[i].allocated);
    }
}

/// The keys that each shard holds.
pub open spec fn homes_of<K, V>(shards: Seq<ShardView<K, V>>) -> Seq<Set<K>> {
    Seq::new(shards.len(), |i: int| shards[i].entries.dom())
}

/// The declared capacity of each shard, and whether it is allocated.
pub open spec fn layout_of<K, V>(shards: Seq<ShardView<K, V>>) -> Seq<(nat, bool)> {
    Seq::new(shards.len(), |i: int| (shards[i].capacity, shards[i].allocated))
}

/// The shard that holds `k`, where one does.
pub open spec fn home_in<K, V>(shards: Seq<ShardView<K, V>>, k: K) -> int {
    choose|i: int| holds(shards, i, k)
}

/// Whether `i` is the first shard that can take one more entry.
pub open spec fn is_first_room<K, V>(shards: Seq<ShardView<K, V>>, i: int) -> bool {
    &&& 0 <= i < shards.len()
    &&& shards[i].has_room()
    &&& forall|j: int| 0 <= j < i ==> !(#[trigger] shards[j]).has_room()
}

/// The first shard that can take one more entry, where one can.
pub open spec fn first_room_in<K, V>(shards: Seq<ShardView<K, V>>) -> int {
    choose|i: int| is_first_room(shards, i)
}

/// The keys of each shard after shard `i` took the key `k`.
pub open spec fn with_key_at<K>(homes: Seq<Set<K>>, i: int, k: K) -> Seq<Set<K>> {
    homes.update(i, homes[i].insert(k))
}

/// The keys of each shard after shard `i` lost the key `k`.
pub open spec fn without_key_at<K>(homes: Seq<Set<K>>, i: int, k: K) -> Seq<Set<K>> {
    homes.update(i, homes[i].remove(k))
}

/// The shard that holds a key is the only one that does.
pub proof fn lemma_home<K, V>(shards: Seq<ShardView<K, V>>, i: int, k: K)
    requires
        disjoint(shards),
        holds(shards, i, k),
    ensures
        home_in(shards, k) == i,
{
    assert(holds(shards, home_in(shards, k), k));
}

/// There is one first shard with room at most.
pub proof fn lemma_first_room<K, V>(shards: Seq<ShardView<K, V>>, i: int)
    requires
        is_first_room(shards, i),
    ensures
        first_room_in(shards) == i,
{
    let chosen = first_room_in(shards);
    assert(is_first_room(shards, chosen));
    if chosen < i {
        assert(!shards[chosen].has_room());
    }
    if i < chosen {
        assert(!shards[i].has_room());
    }
}

/// Binding a key in a shard adds the key to that shard's keys and leaves the
/// layout as it is; where the shard held the key, its keys stay as they are,
/// and every shard has the room that it had.
pub proof fn lemma_homes_with<K, V>(shards: Seq<ShardView<K, V>>, i: int, k: K, v: V)
    requires
        0 <= i < shards.len(),
        shards[i].entries.dom().finite(),
    ensures
        homes_of(shards.update(i, shards[i].with(k, v))) == with_key_at(homes_of(shards), i, k),
        layout_of(shards.update(i, shards[i].with(k, v))) == layout_of(shards),
        shards[i].entries.contains_key(k) ==> {
            &&& homes_of(shards.update(i, shards[i].with(k, v))) == homes_of(shards)
            &&& forall|j: int|
                0 <= j < shards.len() ==> (#[trigger] shards.update(
                    i,
                    shards[i].with(k, v),
                )[j]).has_room() == shards[j].has_room()
        },
{
    let after = shards.update(i, shards[i].with(k, v));
    assert(homes_of(after) =~= homes_of(shards).update(i, homes_of(shards)[i].insert(k)));
    assert(layout_of(after) =~= layout_of(shards));
    if shards[i].entries.contains_key(k) {
        assert(shards[i].entries.insert(k, v).dom() =~= shards[i].entries.dom());
        assert(homes_of(after) =~= homes_of(shards));
    }
}

/// Removing a key from a shard removes it from that shard's keys and leaves
/// the layout as it is.
pub proof fn lemma_homes_without<K, V>(shards: Seq<ShardView<K, V>>, i: int, k: K)
    requires
        0 <= i < shards.len(),
    ensures
        homes_of(shards.update(i, shards[i].without(k))) == without_key_at(
            homes_of(shards),
            i,
            k,
        ),
        layout_of(shards.update(i, shards[i].without(k))) == layout_of(shards),
{
    let after = shards.update(i, shards[i].without(k));
    assert(homes_of(after) =~= homes_of(shards).update(i, homes_of(shards)[i].remove(k)));
    assert(layout_of(after) =~= layout_of(shards));
}

impl<K, V> ShardedMap<K, V> {
    /// The keys that each shard holds.
    pub open spec fn homes(self) -> Seq<Set<K>> {
        homes_of(self.shards())
    }

    /// The declared capacity of each shard, and whether it is allocated.
    pub open spec fn layout(self) -> Seq<(nat, bool)> {
        layout_of(self.shards())
    }

    /// The shard that holds `k`, where one does.
    pub open spec fn home_of(self, k: K) -> int {
        home_in(self.shards(), k)
    }

    /// The first shard that can take one more entry, where one can.
    pub open spec fn first_room(self) -> int {
        first_room_in(self.shards())
    }
}

} // verus!
