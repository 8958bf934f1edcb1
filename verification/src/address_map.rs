//! A map from addresses to values that remembers the order in which the
//! addresses came in.

use crate::address::Address;
use vstd::prelude::*;

verus! {

/// The place of `key` among `keys`: its index, or `keys.len()` where it does
/// not occur.
pub open spec fn position(keys: Seq<Address>, key: Address) -> int {
    if keys.contains(key) {
        keys.index_of(key)
    } else {
        keys.len() as int
    }
}

/// Where no key occurs twice, a key is found at the one index that holds it.
pub proof fn lemma_position(keys: Seq<Address>, key: Address, i: int)
    requires
        keys.no_duplicates(),
        0 <= i < keys.len(),
        keys[i] == key,
    ensures
        position(keys, key) == i,
        keys.contains(key),
{
    assert(keys.contains(key));
    let j = keys.index_of(key);
    assert(0 <= j < keys.len() && keys[j] == key);
}

/// A key that occurs lies at its position; one that does not has the length
/// for its position.
pub proof fn lemma_position_range(keys: Seq<Address>, key: Address)
    ensures
        0 <= position(keys, key) <= keys.len(),
        position(keys, key) < keys.len() <==> keys.contains(key),
        keys.contains(key) ==> keys[position(keys, key)] == key,
{
    if keys.contains(key) {
        let j = keys.index_of(key);
        assert(0 <= j < keys.len() && keys[j] == key);
    }
}

/// Values by address, in the order in which the addresses were first
/// inserted. `keys[i]` is the address of `values[i]`.
#[derive(Clone, Debug)]
pub struct AddressMap<V> {
    pub keys: Vec<Address>,
    pub values: Vec<V>,
}

impl<V> AddressMap<V> {
    /// One value for each key, and no key twice.
    pub open spec fn wf(&self) -> bool {
        &&& self.keys@.len() == self.values@.len()
        &&& self.keys@.no_duplicates()
    }

    pub open spec fn contains_key(&self, key: Address) -> bool {
        self.keys@.contains(key)
    }

    pub fn new() -> (map: Self)
        ensures
            map.wf(),
            map.keys@ == Seq::<Address>::empty(),
            map.values@ == Seq::<V>::empty(),
    {
        AddressMap { keys: Vec::new(), values: Vec::new() }
    }

    pub fn len(&self) -> (len: usize)
        requires
            self.wf(),
        ensures
            len == self.keys@.len(),
    {
        self.keys.len()
    }

    /// The index of `key`, if it is in the map.
    pub fn find(&self, key: &Address) -> (found: Option<usize>)
        requires
            self.wf(),
        ensures
            match found {
                Some(i) => i < self.keys@.len() && self.keys@[i as int] == *key && position(
                    self.keys@,
                    *key,
                ) == i,
                None => !self.keys@.contains(*key) && position(self.keys@, *key)
                    == self.keys@.len(),
            },
    {
        let mut i: usize = 0;
        while i < self.keys.len()
            invariant
                self.wf(),
                i <= self.keys@.len(),
                forall|j: int| 0 <= j < i ==> self.keys@[j] != *key,
            decreases self.keys@.len() - i,
        {
            if self.keys[i] == *key {
                proof {
                    lemma_position(self.keys@, *key, i as int);
                }
                return Some(i);
            }
            i += 1;
        }
        None
    }

    /// Adds a key that the map does not hold yet, behind all others.
    pub fn push(&mut self, key: Address, value: V)
        requires
            old(self).wf(),
            !old(self).keys@.contains(key),
        ensures
            final(self).wf(),
            final(self).keys@ == old(self).keys@.push(key),
            final(self).values@ == old(self).values@.push(value),
    {
        self.keys.push(key);
        self.values.push(value);
        proof {
            let keys = self.keys@;
            assert forall|i: int, j: int|
                0 <= i < keys.len() && 0 <= j < keys.len() && i != j implies keys[i]
                != keys[j] by {
                if i == keys.len() - 1 {
                    assert(old(self).keys@[j] == keys[j]);
                } else if j == keys.len() - 1 {
                    assert(old(self).keys@[i] == keys[i]);
                } else {
                    assert(old(self).keys@[i] == keys[i]);
                    assert(old(self).keys@[j] == keys[j]);
                }
            }
        }
    }

    /// Takes the key at index `i` and its value out; those behind move up.
    pub fn remove_at(&mut self, i: usize) -> (removed: (Address, V))
        requires
            old(self).wf(),
            i < old(self).keys@.len(),
        ensures
            final(self).wf(),
            final(self).keys@ == old(self).keys@.remove(i as int),
            final(self).values@ == old(self).values@.remove(i as int),
            removed.0 == old(self).keys@[i as int],
            removed.1 == old(self).values@[i as int],
    {
        let key = self.keys.remove(i);
        let value = self.values.remove(i);
        proof {
            lemma_remove_keeps_distinct(old(self).keys@, i as int);
        }
        (key, value)
    }
}

/// Taking one key out of a list without duplicates leaves no duplicates, and
/// the key taken is no longer in it.
pub proof fn lemma_remove_keeps_distinct(keys: Seq<Address>, i: int)
    requires
        keys.no_duplicates(),
        0 <= i < keys.len(),
    ensures
        keys.remove(i).no_duplicates(),
        !keys.remove(i).contains(keys[i]),
        forall|k: Address| k != keys[i] ==> (keys.remove(i).contains(k) <==> keys.contains(k)),
{
    let rest = keys.remove(i);
    assert forall|a: int, b: int|
        0 <= a < rest.len() && 0 <= b < rest.len() && a != b implies rest[a] != rest[b] by {
        let a_before = if a < i {
            a
        } else {
            a + 1
        };
        let b_before = if b < i {
            b
        } else {
            b + 1
        };
        assert(rest[a] == keys[a_before]);
        assert(rest[b] == keys[b_before]);
    }
    if rest.contains(keys[i]) {
        let a = rest.index_of(keys[i]);
        let a_before = if a < i {
            a
        } else {
            a + 1
        };
        assert(rest[a] == keys[a_before]);
    }
    assert forall|k: Address| k != keys[i] implies (rest.contains(k) <==> keys.contains(k)) by {
        if rest.contains(k) {
            let a = rest.index_of(k);
            let a_before = if a < i {
                a
            } else {
                a + 1
            };
            assert(rest[a] == keys[a_before]);
        }
        if keys.contains(k) {
            let a_before = keys.index_of(k);
            let a = if a_before < i {
                a_before
            } else {
                a_before - 1
            };
            assert(rest[a] == keys[a_before]);
        }
    }
}


impl<V: View> View for AddressMap<V> {
    type V = Map<Address, V::V>;

    /// What the map holds, by address, without the order of the addresses.
    open spec fn view(&self) -> Map<Address, V::V> {
        Map::new(
            |key: Address| self.keys@.contains(key),
            |key: Address| self.values@[position(self.keys@, key)]@,
        )
    }
}

impl<V: View> AddressMap<V> {
    /// A map that differs from `before` only in the value at index `i` holds
    /// what `before` held, with the new value under the key at `i`.
    pub proof fn lemma_view_after_update(before: &Self, after: &Self, i: int)
        requires
            before.wf(),
            0 <= i < before.keys@.len(),
            after.keys@ == before.keys@,
            after.values@.len() == before.values@.len(),
            forall|j: int|
                0 <= j < before.values@.len() && j != i ==> after.values@[j]@
                    == before.values@[j]@,
        ensures
            after.wf(),
            after@ == before@.insert(before.keys@[i], after.values@[i]@),
    {
        let keys = before.keys@;
        assert forall|key: Address| after@.dom().contains(key) implies #[trigger] after@[key]
            == before@.insert(keys[i], after.values@[i]@)[key] by {
            lemma_position_range(keys, key);
            lemma_position(keys, keys[i], i);
        }
        assert(after@.dom() =~= before@.insert(keys[i], after.values@[i]@).dom()) by {
            lemma_position(keys, keys[i], i);
        }
        assert(after@ =~= before@.insert(keys[i], after.values@[i]@));
    }

    /// A map that holds one more key than `before`, behind the others, holds
    /// what `before` held and the new value under the new key.
    pub proof fn lemma_view_after_push(before: &Self, after: &Self)
        requires
            before.wf(),
            after.keys@.len() == before.keys@.len() + 1,
            after.values@.len() == before.values@.len() + 1,
            after.keys@.drop_last() == before.keys@,
            !before.keys@.contains(after.keys@.last()),
            forall|j: int| 0 <= j < before.values@.len() ==> after.values@[j]@ == before.values@[j]@,
        ensures
            after.wf(),
            after@ == before@.insert(after.keys@.last(), after.values@.last()@),
    {
        let keys = after.keys@;
        let key = keys.last();
        assert forall|a: int, b: int|
            0 <= a < keys.len() && 0 <= b < keys.len() && a != b implies keys[a] != keys[b] by {
            if a < keys.len() - 1 {
                assert(before.keys@[a] == keys[a]);
            }
            if b < keys.len() - 1 {
                assert(before.keys@[b] == keys[b]);
            }
        }
        let expected = before@.insert(key, after.values@.last()@);
        assert forall|k: Address| after@.dom().contains(k) <==> expected.dom().contains(k) by {
            if keys.contains(k) {
                let a = keys.index_of(k);
                if a < keys.len() - 1 {
                    assert(before.keys@[a] == k);
                }
            }
            if before.keys@.contains(k) {
                let a = before.keys@.index_of(k);
                assert(keys[a] == k);
            }
            if k == key {
                assert(keys[keys.len() - 1] == k);
            }
        }
        assert(after@.dom() =~= expected.dom());
        assert forall|k: Address| after@.dom().contains(k) implies #[trigger] after@[k]
            == expected[k] by {
            lemma_position_range(keys, k);
            let a = position(keys, k);
            if k == key {
                lemma_position(keys, k, keys.len() - 1);
            } else {
                assert(a < keys.len() - 1);
                assert(before.keys@[a] == k);
                lemma_position(before.keys@, k, a);
            }
        }
        assert(after@ =~= expected);
    }

    /// A map that lacks the key at index `i` of `before`, and is `before`
    /// otherwise, holds what `before` held without that key.
    pub proof fn lemma_view_after_remove(before: &Self, after: &Self, i: int)
        requires
            before.wf(),
            0 <= i < before.keys@.len(),
            after.keys@ == before.keys@.remove(i),
            after.values@.len() == before.values@.len() - 1,
            forall|j: int| 0 <= j < i ==> after.values@[j]@ == before.values@[j]@,
            forall|j: int|
                i <= j < after.values@.len() ==> after.values@[j]@ == before.values@[j + 1]@,
        ensures
            after.wf(),
            after@ == before@.remove(before.keys@[i]),
    {
        let keys = before.keys@;
        let rest = after.keys@;
        lemma_remove_keeps_distinct(keys, i);
        let expected = before@.remove(keys[i]);
        assert(after@.dom() =~= expected.dom());
        assert forall|k: Address| after@.dom().contains(k) implies #[trigger] after@[k]
            == expected[k] by {
            lemma_position_range(rest, k);
            let a = position(rest, k);
            let a_before = if a < i {
                a
            } else {
                a + 1
            };
            assert(rest[a] == keys[a_before]);
            lemma_position(keys, k, a_before);
        }
        assert(after@ =~= expected);
    }

    /// The value under the key at index `i` is the one at index `i`.
    pub proof fn lemma_view_at(&self, i: int)
        requires
            self.wf(),
            0 <= i < self.keys@.len(),
        ensures
            self@.dom().contains(self.keys@[i]),
            self@[self.keys@[i]] == self.values@[i]@,
    {
        lemma_position(self.keys@, self.keys@[i], i);
    }
}

} // verus!
