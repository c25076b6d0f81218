//! Maps and sets keyed by pool identifiers.
use vstd::prelude::*;

use crate::words::PoolId;

verus! {

/// Whether an identifier is among the keys of some entries.
pub open spec fn has_key<V>(entries: Seq<(PoolId, V)>, id: PoolId) -> bool {
    exists|i: int| 0 <= i < entries.len() && (#[trigger] entries[i]).0 == id
}

/// Whether no identifier occurs twice among the keys of some entries.
pub open spec fn distinct_keys<V>(entries: Seq<(PoolId, V)>) -> bool {
    forall|i: int, j: int|
        0 <= i < j < entries.len() ==> (#[trigger] entries[i]).0 != (#[trigger] entries[j]).0
}

/// Where an identifier stands among the keys of some entries.
pub open spec fn key_index<V>(entries: Seq<(PoolId, V)>, id: PoolId) -> int {
    choose|i: int| 0 <= i < entries.len() && (#[trigger] entries[i]).0 == id
}

/// The map that entries make up.
pub open spec fn map_of<V>(entries: Seq<(PoolId, V)>) -> Map<PoolId, V> {
    Map::new(|id: PoolId| has_key(entries, id), |id: PoolId| entries[key_index(entries, id)].1)
}

/// An entry with distinct keys stands in the map under its key.
pub proof fn map_of_entry<V>(entries: Seq<(PoolId, V)>, i: int)
    requires
        distinct_keys(entries),
        0 <= i < entries.len(),
    ensures
        map_of(entries).contains_key(entries[i].0),
        map_of(entries)[entries[i].0] == entries[i].1,
{
    assert(has_key(entries, entries[i].0));
    let j = key_index(entries, entries[i].0);
    assert(entries[j].0 == entries[i].0);
}

/// Removing an entry removes its key from the map.
proof fn map_of_remove<V>(entries: Seq<(PoolId, V)>, i: int)
    requires
        distinct_keys(entries),
        0 <= i < entries.len(),
    ensures
        map_of(entries.remove(i)) == map_of(entries).remove(entries[i].0),
        distinct_keys(entries.remove(i)),
{
    let rest = entries.remove(i);
    assert(distinct_keys(rest)) by {
        assert forall|a: int, b: int| 0 <= a < b < rest.len() implies (#[trigger] rest[a]).0 != (
        #[trigger] rest[b]).0 by {
            let x = if a < i {
                a
            } else {
                a + 1
            };
            let y = if b < i {
                b
            } else {
                b + 1
            };
            assert(entries[x].0 != entries[y].0);
        }
    }
    assert forall|id: PoolId| #[trigger]
        map_of(rest).contains_key(id) == map_of(entries).remove(entries[i].0).contains_key(id) by {
        if has_key(rest, id) {
            let a = key_index(rest, id);
            let x = if a < i {
                a
            } else {
                a + 1
            };
            assert(entries[x].0 == id);
        }
        if has_key(entries, id) && id != entries[i].0 {
            let x = key_index(entries, id);
            let a = if x < i {
                x
            } else {
                x - 1
            };
            assert(rest[a].0 == id);
        }
    }
    assert forall|id: PoolId| #[trigger] map_of(rest).contains_key(id) implies map_of(rest)[id]
        == map_of(entries).remove(entries[i].0)[id] by {
        let a = key_index(rest, id);
        let x = if a < i {
            a
        } else {
            a + 1
        };
        assert(entries[x] == rest[a]);
        map_of_entry(entries, x);
        map_of_entry(rest, a);
    }
    assert(map_of(rest) =~= map_of(entries).remove(entries[i].0));
}

/// Appending an entry with a new key adds it to the map.
proof fn map_of_push<V>(entries: Seq<(PoolId, V)>, id: PoolId, value: V)
    requires
        distinct_keys(entries),
        !has_key(entries, id),
    ensures
        map_of(entries.push((id, value))) == map_of(entries).insert(id, value),
        distinct_keys(entries.push((id, value))),
{
    let more = entries.push((id, value));
    assert(distinct_keys(more)) by {
        assert forall|a: int, b: int| 0 <= a < b < more.len() implies (#[trigger] more[a]).0 != (
        #[trigger] more[b]).0 by {
            assert(more[a] == entries[a]);
        }
    }
    map_of_entry(more, entries.len() as int);
    assert forall|k: PoolId| #[trigger]
        map_of(more).contains_key(k) == map_of(entries).insert(id, value).contains_key(k) by {
        if has_key(more, k) && k != id {
            let a = key_index(more, k);
            assert(entries[a].0 == k);
        }
        if has_key(entries, k) {
            let a = key_index(entries, k);
            assert(more[a].0 == k);
        }
    }
    assert forall|k: PoolId| #[trigger] map_of(more).contains_key(k) implies map_of(more)[k]
        == map_of(entries).insert(id, value)[k] by {
        if k != id {
            let a = key_index(more, k);
            assert(more[a] == entries[a]);
            map_of_entry(entries, a);
            map_of_entry(more, a);
        }
    }
    assert(map_of(more) =~= map_of(entries).insert(id, value));
}

/// Replacing the value of an entry replaces it in the map.
proof fn map_of_update<V>(entries: Seq<(PoolId, V)>, i: int, value: V)
    requires
        distinct_keys(entries),
        0 <= i < entries.len(),
    ensures
        map_of(entries.update(i, (entries[i].0, value))) == map_of(entries).insert(
            entries[i].0,
            value,
        ),
        distinct_keys(entries.update(i, (entries[i].0, value))),
{
    let id = entries[i].0;
    let after = entries.update(i, (id, value));
    assert(distinct_keys(after)) by {
        assert forall|a: int, b: int| 0 <= a < b < after.len() implies (#[trigger] after[a]).0 != (
        #[trigger] after[b]).0 by {
            assert(entries[a].0 != entries[b].0);
        }
    }
    map_of_entry(after, i);
    map_of_entry(entries, i);
    assert forall|k: PoolId| #[trigger]
        map_of(after).contains_key(k) == map_of(entries).insert(id, value).contains_key(k) by {
        if has_key(after, k) {
            let a = key_index(after, k);
            assert(entries[a].0 == k);
        }
        if has_key(entries, k) {
            let a = key_index(entries, k);
            assert(after[a].0 == k);
        }
    }
    assert forall|k: PoolId| #[trigger] map_of(after).contains_key(k) implies map_of(after)[k]
        == map_of(entries).insert(id, value)[k] by {
        if k != id {
            let a = key_index(after, k);
            assert(after[a] == entries[a]);
            map_of_entry(entries, a);
            map_of_entry(after, a);
        }
    }
    assert(map_of(after) =~= map_of(entries).insert(id, value));
}

/// A map from pool identifiers. Its entries keep the order in which their keys
/// came.
#[derive(Debug)]
pub struct PoolIdMap<V> {
    entries: Vec<(PoolId, V)>,
}

impl<V> View for PoolIdMap<V> {
    type V = Map<PoolId, V>;

    closed spec fn view(&self) -> Map<PoolId, V> {
        map_of(self.entries@)
    }
}

impl<V> PoolIdMap<V> {
    #[verifier::type_invariant]
    spec fn keys_are_distinct(&self) -> bool {
        distinct_keys(self.entries@)
    }

    /// A map without entries.
    pub fn new() -> (r: PoolIdMap<V>)
        ensures
            r@.dom().is_empty(),
            r@ == Map::<PoolId, V>::empty(),
    {
        let r: PoolIdMap<V> = PoolIdMap { entries: Vec::new() };
        assert(r@ =~= Map::<PoolId, V>::empty());
        r
    }

    /// Where a key stands among the entries.
    fn position(&self, id: &PoolId) -> (r: Option<usize>)
        ensures
            r is Some <==> has_key(self.entries@, *id),
            r matches Some(i) ==> i < self.entries@.len() && self.entries@[i as int].0 == *id,
    {
        let mut i: usize = 0;
        while i < self.entries.len()
            invariant
                i <= self.entries.len(),
                forall|j: int| 0 <= j < i ==> (#[trigger] self.entries@[j]).0 != *id,
            decreases self.entries.len() - i,
        {
            if self.entries[i].0 == *id {
                return Some(i);
            }
            i = i + 1;
        }
        None
    }

    /// Whether the map has a key.
    pub fn contains_key(&self, id: &PoolId) -> (r: bool)
        ensures
            r == self@.contains_key(*id),
    {
        self.position(id).is_some()
    }

    /// The value under a key.
    pub fn get(&self, id: &PoolId) -> (r: Option<&V>)
        ensures
            r is Some <==> self@.contains_key(*id),
            r matches Some(v) ==> *v == self@[*id],
    {
        match self.position(id) {
            Some(i) => {
                proof {
                    use_type_invariant(self);
                    map_of_entry(self.entries@, i as int);
                }
                Some(&self.entries[i].1)
            },
            None => None,
        }
    }

    /// Puts a value under a key, in place of any that was there.
    pub fn insert(&mut self, id: PoolId, value: V)
        ensures
            final(self)@ == old(self)@.insert(id, value),
            !old(self)@.contains_key(id) ==> final(self).order() == old(self).order().push(
                (id, value),
            ),
            forall|i: int|
                0 <= i < old(self).order().len() && (#[trigger] old(self).order()[i]).0 == id
                    ==> final(self).order() == old(self).order().update(i, (id, value)),
    {
        proof {
            use_type_invariant(&*self);
        }
        let position: Option<usize> = self.position(&id);
        let mut entries: Vec<(PoolId, V)> = Vec::new();
        std::mem::swap(&mut entries, &mut self.entries);
        match position {
            Some(i) => {
                proof {
                    map_of_update(entries@, i as int, value);
                }
                entries[i] = (id, value);
            },
            None => {
                proof {
                    map_of_push(entries@, id, value);
                }
                entries.push((id, value));
            },
        }
        self.entries = entries;
    }

    /// Takes out the value under a key.
    pub fn remove(&mut self, id: &PoolId) -> (r: Option<V>)
        ensures
            final(self)@ == old(self)@.remove(*id),
            r is Some <==> old(self)@.contains_key(*id),
            r matches Some(v) ==> v == old(self)@[*id],
            !old(self)@.contains_key(*id) ==> final(self).order() == old(self).order(),
            forall|i: int|
                0 <= i < old(self).order().len() && (#[trigger] old(self).order()[i]).0 == *id
                    ==> final(self).order() == old(self).order().remove(i),
    {
        proof {
            use_type_invariant(&*self);
        }
        match self.position(id) {
            Some(i) => {
                proof {
                    map_of_remove(self.entries@, i as int);
                    map_of_entry(self.entries@, i as int);
                }
                let mut entries: Vec<(PoolId, V)> = Vec::new();
                std::mem::swap(&mut entries, &mut self.entries);
                let entry: (PoolId, V) = entries.remove(i);
                self.entries = entries;
                Some(entry.1)
            },
            None => {
                assert(self@.remove(*id) =~= self@);
                None
            },
        }
    }

    /// The number of entries. They make up the map, each with a key of its own.
    pub fn len(&self) -> (r: usize)
        ensures
            r == self.order().len(),
            self@ == map_of(self.order()),
            distinct_keys(self.order()),
    {
        proof {
            use_type_invariant(self);
        }
        self.entries.len()
    }

    /// The entries in the order in which their keys came.
    pub closed spec fn order(&self) -> Seq<(PoolId, V)> {
        self.entries@
    }

    /// The entry at a place in the order.
    pub fn entry(&self, i: usize) -> (r: (PoolId, &V))
        requires
            i < self.order().len(),
        ensures
            (r.0, *r.1) == self.order()[i as int],
    {
        (self.entries[i].0, &self.entries[i].1)
    }

    /// The keys in the order in which they came.
    pub fn keys(&self) -> (r: Vec<PoolId>)
        ensures
            r@ == Seq::new(self.order().len(), |i: int| self.order()[i].0),
            r@.no_duplicates(),
            r@.to_set() == self@.dom(),
    {
        let mut out: Vec<PoolId> = Vec::new();
        let mut i: usize = 0;
        while i < self.entries.len()
            invariant
                i <= self.entries.len(),
                out@ == Seq::new(i as nat, |j: int| self.entries@[j].0),
            decreases self.entries.len() - i,
        {
            out.push(self.entries[i].0);
            i = i + 1;
            assert(out@ =~= Seq::new(i as nat, |j: int| self.entries@[j].0));
        }
        proof {
            use_type_invariant(self);
            assert forall|id: PoolId| #[trigger] out@.to_set().contains(id) == self@.dom().contains(
                id,
            ) by {
                if has_key(self.entries@, id) {
                    let k = key_index(self.entries@, id);
                    assert(out@[k] == id);
                }
            }
            assert(out@.to_set() =~= self@.dom());
        }
        out
    }
}

impl<V: Copy> Clone for PoolIdMap<V> {
    fn clone(&self) -> (r: PoolIdMap<V>)
        ensures
            r@ == self@,
            r.order() == self.order(),
    {
        let mut entries: Vec<(PoolId, V)> = Vec::new();
        let mut i: usize = 0;
        while i < self.entries.len()
            invariant
                i <= self.entries.len(),
                entries@ == self.entries@.take(i as int),
            decreases self.entries.len() - i,
        {
            entries.push((self.entries[i].0, self.entries[i].1));
            i = i + 1;
            assert(entries@ =~= self.entries@.take(i as int));
        }
        proof {
            use_type_invariant(self);
            assert(entries@ =~= self.entries@);
        }
        PoolIdMap { entries }
    }
}

/// A set of pool identifiers.
#[derive(Debug)]
pub struct PoolIdSet {
    members: PoolIdMap<()>,
}

impl View for PoolIdSet {
    type V = Set<PoolId>;

    closed spec fn view(&self) -> Set<PoolId> {
        self.members@.dom()
    }
}

impl PoolIdSet {
    /// A set without members.
    pub fn new() -> (r: PoolIdSet)
        ensures
            r@ == Set::<PoolId>::empty(),
    {
        let r: PoolIdSet = PoolIdSet { members: PoolIdMap::new() };
        assert(r@ =~= Set::<PoolId>::empty());
        r
    }

    /// Adds a member.
    pub fn insert(&mut self, id: PoolId)
        ensures
            final(self)@ == old(self)@.insert(id),
    {
        self.members.insert(id, ());
        assert(self@ =~= old(self)@.insert(id));
    }

    /// Takes out a member.
    pub fn remove(&mut self, id: &PoolId)
        ensures
            final(self)@ == old(self)@.remove(*id),
    {
        self.members.remove(id);
        assert(self@ =~= old(self)@.remove(*id));
    }

    /// Whether an identifier is a member.
    pub fn contains(&self, id: &PoolId) -> (r: bool)
        ensures
            r == self@.contains(*id),
    {
        self.members.contains_key(id)
    }

    /// Whether there is no member.
    pub fn is_empty(&self) -> (r: bool)
        ensures
            r == (self@ == Set::<PoolId>::empty()),
    {
        let keys: Vec<PoolId> = self.members.keys();
        proof {
            if keys@.len() == 0 {
                assert(keys@.to_set() =~= Set::<PoolId>::empty());
            } else {
                assert(keys@.to_set().contains(keys@[0]));
            }
        }
        keys.len() == 0
    }

    /// The members, each once.
    pub fn to_vec(&self) -> (r: Vec<PoolId>)
        ensures
            r@.no_duplicates(),
            r@.to_set() == self@,
    {
        self.members.keys()
    }
}

impl Clone for PoolIdSet {
    fn clone(&self) -> (r: PoolIdSet)
        ensures
            r@ == self@,
    {
        PoolIdSet { members: self.members.clone() }
    }
}

} // verus!
