//! A key table that stays in a short vector while few keys are live.

use std::collections::HashMap;
use std::hash::Hash;
use vstd::prelude::*;
use vstd::std_specs::cmp::PartialEqSpec;
use vstd::std_specs::hash::obeys_key_model;

verus! {

broadcast use vstd::std_specs::hash::group_hash_axioms;

/// Number of inline entries before the table promotes to a hash map.
pub const INLINE_CAP: usize = 4;

/// What a key type has to promise for a table of its keys to work: `==` tells
/// exactly the different keys apart, hashing is deterministic, and a clone is
/// the key itself. The integer types keep these promises
/// ([`lemma_integers_are_lawful_keys`]). With keys that break
/// them nothing is said of what a table finds.
pub open spec fn lawful_key<K: Eq + Hash + Clone>() -> bool {
    &&& obeys_key_model::<K>()
    &&& K::obeys_eq_spec()
    &&& forall|a: K, b: K| #[trigger] a.eq_spec(&b) <==> a == b
    &&& forall|a: K, b: K| #[trigger] cloned(a, b) ==> a == b
}

/// The integer types make lawful keys.
pub proof fn lemma_integers_are_lawful_keys()
    ensures
        lawful_key::<u8>(),
        lawful_key::<u16>(),
        lawful_key::<u32>(),
        lawful_key::<u64>(),
        lawful_key::<u128>(),
        lawful_key::<usize>(),
        lawful_key::<i8>(),
        lawful_key::<i16>(),
        lawful_key::<i32>(),
        lawful_key::<i64>(),
        lawful_key::<i128>(),
        lawful_key::<isize>(),
{
    assert(obeys_key_model::<u8>() && obeys_key_model::<i8>());
    assert(obeys_key_model::<u16>() && obeys_key_model::<i16>());
    assert(obeys_key_model::<u32>() && obeys_key_model::<i32>());
    assert(obeys_key_model::<u64>() && obeys_key_model::<i64>());
    assert(obeys_key_model::<u128>() && obeys_key_model::<i128>());
    assert(obeys_key_model::<usize>() && obeys_key_model::<isize>());
}

/// Another copy of a key.
pub(crate) fn copy_key<K: Eq + Hash + Clone>(key: &K) -> (copy: K)
    ensures
        lawful_key::<K>() ==> copy == *key,
{
    let copy: K = key.clone();
    assert(cloned(*key, copy));
    copy
}

/// The map that a list of pairs stands for: where a key occurs twice, the
/// first pair counts.
pub open spec fn pairs_map<K, V>(pairs: Seq<(K, V)>) -> Map<K, V>
    decreases pairs.len(),
{
    if pairs.len() == 0 {
        Map::empty()
    } else {
        pairs_map(pairs.skip(1)).insert(pairs[0].0, pairs[0].1)
    }
}

/// No key occurs twice.
pub open spec fn distinct_keys<K, V>(pairs: Seq<(K, V)>) -> bool {
    forall|i: int, j: int| 0 <= i < j < pairs.len() ==> pairs[i].0 != pairs[j].0
}

/// The pairs whose key is not `key`, in order.
pub open spec fn without_key<K, V>(pairs: Seq<(K, V)>, key: K) -> Seq<(K, V)> {
    pairs.filter(|pair: (K, V)| pair.0 != key)
}

/// What the key table retains for one key: the generation registered there and
/// the slot that the generation publishes through.
pub struct SlotEntry<S> {
    pub generation: usize,
    pub slot: S,
}

/// Key-table storage: a list of pairs for the common case of a few live keys,
/// a hash map once more than [`INLINE_CAP`] have been live at once. The inline
/// form neither hashes nor probes; a promoted table stays promoted.
pub enum SmallMap<K, V> {
    Inline(Vec<(K, V)>),
    Hash(HashMap<K, V>),
}

impl<K, V> View for SmallMap<K, V> {
    type V = Map<K, V>;

    open spec fn view(&self) -> Map<K, V> {
        match self {
            SmallMap::Inline(pairs) => pairs_map(pairs@),
            SmallMap::Hash(map) => map@,
        }
    }
}

impl<K, V> SmallMap<K, V> {
    /// The inline form holds at most [`INLINE_CAP`] pairs, no key twice.
    pub open spec fn wf(&self) -> bool {
        match self {
            SmallMap::Inline(pairs) => pairs@.len() <= INLINE_CAP && distinct_keys(pairs@),
            SmallMap::Hash(_) => true,
        }
    }

    /// Whether the inline form has no room left.
    pub open spec fn inline_full(&self) -> bool {
        match self {
            SmallMap::Inline(pairs) => pairs@.len() >= INLINE_CAP,
            SmallMap::Hash(_) => false,
        }
    }

    /// Whether the table has promoted to a hash map.
    pub open spec fn promoted(&self) -> bool {
        self is Hash
    }
}

/// A pair in the list is in the map's domain, and the domain holds no other key.
proof fn lemma_pairs_domain<K, V>(pairs: Seq<(K, V)>, key: K)
    ensures
        pairs_map(pairs).contains_key(key) <==> exists|i: int|
            0 <= i < pairs.len() && (#[trigger] pairs[i]).0 == key,
    decreases pairs.len(),
{
    if pairs.len() > 0 {
        let rest = pairs.skip(1);
        lemma_pairs_domain(rest, key);
        if pairs[0].0 != key && pairs_map(pairs).contains_key(key) {
            let i = choose|i: int| 0 <= i < rest.len() && (#[trigger] rest[i]).0 == key;
            assert(pairs[i + 1].0 == key);
        }
        if exists|i: int| 0 <= i < pairs.len() && (#[trigger] pairs[i]).0 == key {
            let i = choose|i: int| 0 <= i < pairs.len() && (#[trigger] pairs[i]).0 == key;
            if i > 0 {
                assert(rest[i - 1].0 == key);
            }
        }
    }
}

/// The first pair with a key decides what the key maps to.
proof fn lemma_pairs_first<K, V>(pairs: Seq<(K, V)>, at: int)
    requires
        0 <= at < pairs.len(),
        forall|i: int| 0 <= i < at ==> (#[trigger] pairs[i]).0 != pairs[at].0,
    ensures
        pairs_map(pairs).contains_key(pairs[at].0),
        pairs_map(pairs)[pairs[at].0] == pairs[at].1,
    decreases pairs.len(),
{
    if at > 0 {
        let rest = pairs.skip(1);
        assert forall|i: int| 0 <= i < at - 1 implies (#[trigger] rest[i]).0 != rest[at - 1].0 by {
            assert(pairs[i + 1].0 != pairs[at].0);
        }
        lemma_pairs_first(rest, at - 1);
        assert(pairs[0].0 != pairs[at].0);
    }
}

/// A pair with a new key at the end adds that key to the map.
proof fn lemma_pairs_push<K, V>(pairs: Seq<(K, V)>, key: K, value: V)
    requires
        !pairs_map(pairs).contains_key(key),
    ensures
        pairs_map(pairs.push((key, value))) == pairs_map(pairs).insert(key, value),
    decreases pairs.len(),
{
    let longer = pairs.push((key, value));
    if pairs.len() == 0 {
        assert(longer.skip(1) == pairs);
    } else {
        let rest = pairs.skip(1);
        assert(longer.skip(1) == rest.push((key, value)));
        lemma_pairs_push(rest, key, value);
        assert(pairs_map(longer) == pairs_map(pairs).insert(key, value));
    }
}

/// Dropping all pairs of a key removes the key from the map and keeps the rest.
proof fn lemma_pairs_without<K, V>(pairs: Seq<(K, V)>, key: K)
    ensures
        pairs_map(without_key(pairs, key)) == pairs_map(pairs).remove(key),
    decreases pairs.len(),
{
    let keep = |pair: (K, V)| pair.0 != key;
    if pairs.len() == 0 {
        reveal(Seq::filter);
        assert(pairs_map(without_key(pairs, key)) == pairs_map(pairs).remove(key));
    } else {
        let rest = pairs.skip(1);
        lemma_pairs_without(rest, key);
        assert(pairs == seq![pairs[0]] + rest);
        Seq::filter_distributes_over_add(seq![pairs[0]], rest, keep);
        lemma_filter_one(pairs[0], keep);
        let left = without_key(pairs, key);
        if pairs[0].0 == key {
            assert(left == without_key(rest, key));
        } else {
            assert(left.skip(1) == without_key(rest, key));
            assert(left[0] == pairs[0]);
        }
        assert(pairs_map(left) == pairs_map(pairs).remove(key));
    }
}

/// Filtering a single item keeps it or leaves nothing.
proof fn lemma_filter_one<T>(item: T, keep: spec_fn(T) -> bool)
    ensures
        seq![item].filter(keep) == if keep(item) {
            seq![item]
        } else {
            Seq::empty()
        },
{
    reveal(Seq::filter);
    assert(seq![item].drop_last() == Seq::<T>::empty());
    assert(Seq::<T>::empty().filter(keep) == Seq::<T>::empty());
}

/// Filtering a prefix by one more item.
proof fn lemma_filter_step<T>(items: Seq<T>, at: int, keep: spec_fn(T) -> bool)
    requires
        0 <= at < items.len(),
    ensures
        items.take(at + 1).filter(keep) == if keep(items[at]) {
            items.take(at).filter(keep).push(items[at])
        } else {
            items.take(at).filter(keep)
        },
{
    assert(items.take(at + 1).drop_last() == items.take(at));
    reveal(Seq::filter);
}

/// Keys that differ in a list still differ once some pairs are gone.
proof fn lemma_distinct_without<K, V>(pairs: Seq<(K, V)>, key: K)
    requires
        distinct_keys(pairs),
    ensures
        distinct_keys(without_key(pairs, key)),
    decreases pairs.len(),
{
    reveal(Seq::filter);
    let keep = |pair: (K, V)| pair.0 != key;
    if pairs.len() > 0 {
        let front = pairs.drop_last();
        lemma_distinct_without(front, key);
        let left = front.filter(keep);
        assert forall|i: int| 0 <= i < left.len() implies (#[trigger] left[i]).0
            != pairs.last().0 by {
            front.lemma_filter_pred(keep, i);
            lemma_filter_member(front, keep, i);
            let j = choose|j: int| 0 <= j < front.len() && front[j] == left[i];
            assert(pairs[j].0 != pairs[pairs.len() - 1].0);
        }
    }
}

/// What a filter lets through comes from the list.
proof fn lemma_filter_member<T>(items: Seq<T>, keep: spec_fn(T) -> bool, at: int)
    requires
        0 <= at < items.filter(keep).len(),
    ensures
        exists|j: int| 0 <= j < items.len() && items[j] == items.filter(keep)[at],
    decreases items.len(),
{
    reveal(Seq::filter);
    if items.len() > 0 {
        let front = items.drop_last();
        if at < front.filter(keep).len() {
            lemma_filter_member(front, keep, at);
            let j = choose|j: int| 0 <= j < front.len() && front[j] == front.filter(keep)[at];
            assert(items[j] == items.filter(keep)[at]);
        } else {
            assert(items[items.len() - 1] == items.filter(keep)[at]);
        }
    }
}

/// The index of the first pair with `key`.
fn position<K: Eq + Hash + Clone, V>(pairs: &Vec<(K, V)>, key: &K) -> (found: Option<usize>)
    ensures
        found matches Some(at) ==> at < pairs@.len(),
        lawful_key::<K>() ==> match found {
            Some(at) => {
                &&& pairs@[at as int].0 == *key
                &&& forall|i: int| 0 <= i < at ==> (#[trigger] pairs@[i]).0 != *key
            },
            None => forall|i: int| 0 <= i < pairs@.len() ==> (#[trigger] pairs@[i]).0 != *key,
        },
{
    let mut at: usize = 0;
    while at < pairs.len()
        invariant
            at <= pairs@.len(),
            lawful_key::<K>() ==> forall|i: int|
                0 <= i < at ==> (#[trigger] pairs@[i]).0 != *key,
        decreases pairs@.len() - at,
    {
        if pairs[at].0 == *key {
            return Some(at);
        }
        at = at + 1;
    }
    None
}

/// Drops every pair with `key` and keeps the order of the others.
fn retain_other_keys<K: Eq + Hash + Clone, V>(pairs: &mut Vec<(K, V)>, key: &K)
    ensures
        lawful_key::<K>() ==> final(pairs)@ == without_key(old(pairs)@, *key),
{
    let ghost all = pairs@;
    let ghost keep = |pair: (K, V)| pair.0 != *key;
    let ghost mut seen: int = 0;
    let mut at: usize = 0;
    proof {
        reveal(Seq::filter);
        assert(all.take(0).filter(keep) == Seq::<(K, V)>::empty());
        assert(pairs@ == all.take(0).filter(keep) + all.skip(0));
    }
    while at < pairs.len()
        invariant
            at <= pairs@.len(),
            keep == (|pair: (K, V)| pair.0 != *key),
            lawful_key::<K>() ==> {
                &&& 0 <= seen <= all.len()
                &&& at == all.take(seen).filter(keep).len()
                &&& pairs@ == all.take(seen).filter(keep) + all.skip(seen)
            },
        decreases pairs@.len() - at,
    {
        proof {
            if lawful_key::<K>() {
                lemma_filter_step(all, seen, keep);
                assert(pairs@[at as int] == all[seen]);
                assert(all.skip(seen) == seq![all[seen]] + all.skip(seen + 1));
            }
        }
        if pairs[at].0 == *key {
            pairs.remove(at);
            proof {
                if lawful_key::<K>() {
                    assert(pairs@ == all.take(seen + 1).filter(keep) + all.skip(seen + 1));
                }
            }
        } else {
            proof {
                if lawful_key::<K>() {
                    assert(pairs@ == all.take(seen + 1).filter(keep) + all.skip(seen + 1));
                }
            }
            at = at + 1;
        }
        proof {
            seen = seen + 1;
        }
    }
    proof {
        if lawful_key::<K>() {
            assert(all.skip(seen).len() == 0);
            assert(all.take(seen) == all);
            assert(pairs@ == all.filter(keep));
        }
    }
}

/// Moves all pairs into an empty hash map, the last pair first, so that the
/// first pair of a key is the one that stays.
fn promote<K: Eq + Hash + Clone, V>(pairs: &mut Vec<(K, V)>, map: &mut HashMap<K, V>)
    requires
        old(map)@ == Map::<K, V>::empty(),
    ensures
        lawful_key::<K>() ==> final(map)@ == pairs_map(old(pairs)@),
{
    let ghost all = pairs@;
    proof {
        assert(all.skip(all.len() as int).len() == 0);
        assert(map@ == pairs_map(all.skip(all.len() as int)));
    }
    while pairs.len() > 0
        invariant
            pairs@.len() <= all.len(),
            pairs@ == all.take(pairs@.len() as int),
            lawful_key::<K>() ==> map@ == pairs_map(all.skip(pairs@.len() as int)),
        decreases pairs@.len(),
    {
        let ghost at = pairs@.len() - 1;
        if let Some((key, value)) = pairs.pop() {
            proof {
                assert(all.skip(at)[0] == (key, value));
                assert(all.skip(at).skip(1) == all.skip(at + 1));
            }
            map.insert(key, value);
        }
    }
    proof {
        assert(all.skip(0) == all);
    }
}

impl<K, V> Default for SmallMap<K, V> {
    /// An empty table, in its inline form.
    fn default() -> (map: Self)
        ensures
            map@ == Map::<K, V>::empty(),
            map.wf(),
            !map.promoted(),
    {
        SmallMap::Inline(Vec::new())
    }
}

impl<K: Eq + Hash + Clone, V> SmallMap<K, V> {
    /// What the table holds for `key`.
    pub fn get(&self, key: &K) -> (found: Option<&V>)
        ensures
            lawful_key::<K>() ==> match found {
                Some(value) => self@.contains_key(*key) && *value == self@[*key],
                None => !self@.contains_key(*key),
            },
    {
        match self {
            SmallMap::Inline(pairs) => {
                let found: Option<usize> = position(pairs, key);
                proof {
                    lemma_pairs_domain(pairs@, *key);
                }
                match found {
                    Some(at) => {
                        proof {
                            if lawful_key::<K>() {
                                lemma_pairs_first(pairs@, at as int);
                            }
                        }
                        Some(&pairs[at].1)
                    },
                    None => None,
                }
            },
            SmallMap::Hash(map) => map.get(key),
        }
    }

    /// Whether `key` has no entry.
    pub fn is_vacant(&self, key: &K) -> (vacant: bool)
        ensures
            lawful_key::<K>() ==> vacant == !self@.contains_key(*key),
    {
        match self {
            SmallMap::Inline(pairs) => {
                let found: Option<usize> = position(pairs, key);
                proof {
                    lemma_pairs_domain(pairs@, *key);
                }
                found.is_none()
            },
            SmallMap::Hash(map) => !map.contains_key(key),
        }
    }

    /// Adds an entry at a vacant key. A full inline table promotes to a hash
    /// map first.
    pub fn insert_vacant(&mut self, key: K, value: V)
        requires
            lawful_key::<K>() ==> !old(self)@.contains_key(key),
        ensures
            lawful_key::<K>() ==> {
                &&& final(self)@ == old(self)@.insert(key, value)
                &&& old(self).wf() ==> final(self).wf()
            },
            final(self).promoted() <==> old(self).promoted() || old(self).inline_full(),
    {
        match self {
            SmallMap::Inline(pairs) => {
                if pairs.len() >= INLINE_CAP {
                    let mut map: HashMap<K, V> = HashMap::with_capacity(INLINE_CAP * 2);
                    promote(pairs, &mut map);
                    map.insert(key, value);
                    *self = SmallMap::Hash(map);
                } else {
                    proof {
                        if lawful_key::<K>() {
                            lemma_pairs_push(pairs@, key, value);
                            lemma_pairs_domain(pairs@, key);
                        }
                    }
                    pairs.push((key, value));
                }
            },
            SmallMap::Hash(map) => {
                map.insert(key, value);
            },
        }
    }

    /// Removes the entry at `key`, if there is one.
    pub fn remove(&mut self, key: &K)
        ensures
            lawful_key::<K>() ==> {
                &&& final(self)@ == old(self)@.remove(*key)
                &&& old(self).wf() ==> final(self).wf()
            },
            final(self).promoted() == old(self).promoted(),
    {
        match self {
            SmallMap::Inline(pairs) => {
                proof {
                    lemma_pairs_without(pairs@, *key);
                    pairs@.lemma_filter_len(|pair: (K, V)| pair.0 != *key);
                    if distinct_keys(pairs@) {
                        lemma_distinct_without(pairs@, *key);
                    }
                }
                retain_other_keys(pairs, key);
            },
            SmallMap::Hash(map) => {
                map.remove(key);
            },
        }
    }
}

impl<K: Eq + Hash + Clone, S> SmallMap<K, SlotEntry<S>> {
    /// Removes the entry at `key` if it is exactly `generation`, and says
    /// whether it did.
    pub fn remove_if(&mut self, key: &K, generation: usize) -> (removed: bool)
        ensures
            lawful_key::<K>() ==> {
                &&& removed == (old(self)@.contains_key(*key) && old(self)@[*key].generation
                    == generation)
                &&& removed ==> final(self)@ == old(self)@.remove(*key)
                &&& old(self).wf() ==> final(self).wf()
            },
            !removed ==> *final(self) == *old(self),
            final(self).promoted() == old(self).promoted(),
    {
        let current: bool = match self.get(key) {
            Some(entry) => entry.generation == generation,
            None => false,
        };
        if current {
            self.remove(key);
        }
        current
    }
}

} // verus!
