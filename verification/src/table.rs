//! Tables keyed by text.
//!
//! A table keeps its rows in the order in which their keys first came; no key comes twice.

use vstd::prelude::*;
use vstd::string::*;

use crate::lists;
use crate::text;

verus! {

/// A map from text to `T` that remembers the order of its keys.
#[derive(Debug)]
pub struct Table<T> {
    keys: Vec<String>,
    values: Vec<T>,
}

impl<T> Table<T> {
    #[verifier::type_invariant]
    spec fn sound(self) -> bool {
        &&& self.keys@.len() == self.values@.len()
        &&& self.spec_keys().no_duplicates()
    }

    /// The keys in order.
    pub closed spec fn spec_keys(self) -> Seq<Seq<char>> {
        lists::views(self.keys@)
    }

    /// The values in the order of their keys.
    pub closed spec fn spec_values(self) -> Seq<T> {
        self.values@
    }

    /// What the table maps each key to.
    pub open spec fn map(self) -> Map<Seq<char>, T> {
        Map::new(
            |k: Seq<char>| self.spec_keys().contains(k),
            |k: Seq<char>| self.spec_values()[self.spec_keys().index_of(k)],
        )
    }

    /// What the table maps a key to, if anything.
    pub open spec fn lookup(self, key: Seq<char>) -> Option<T> {
        self.map().get(key)
    }

    pub fn new() -> (r: Self)
        ensures
            r.map() == Map::<Seq<char>, T>::empty(),
            r.spec_keys() == Seq::<Seq<char>>::empty(),
            r.spec_values() == Seq::<T>::empty(),
    {
        let keys: Vec<String> = Vec::new();
        assert(lists::views(keys@) == Seq::<Seq<char>>::empty());
        let r = Table { keys, values: Vec::new() };
        assert(r.map() =~= Map::<Seq<char>, T>::empty());
        r
    }

    /// How many rows there are. No key comes twice, and the table maps the key of each
    /// row to the value of that row.
    pub fn len(&self) -> (r: usize)
        ensures
            r == self.spec_keys().len(),
            r == self.spec_values().len(),
            self.spec_keys().no_duplicates(),
            forall|i: int|
                #![trigger self.spec_keys()[i]]
                #![trigger self.spec_values()[i]]
                0 <= i < r ==> self.map().contains_pair(
                    self.spec_keys()[i],
                    self.spec_values()[i],
                ),
    {
        proof {
            use_type_invariant(&*self);
            assert forall|i: int|
                #![trigger self.spec_keys()[i]]
                #![trigger self.spec_values()[i]]
                0 <= i < self.spec_keys().len() implies self.map().contains_pair(
                self.spec_keys()[i],
                self.spec_values()[i],
            ) by {
                self.row_is_mapped(i);
            }
        }
        self.keys.len()
    }

    /// The key of a row.
    pub fn key_at(&self, i: usize) -> (r: &str)
        requires
            i < self.spec_keys().len(),
        ensures
            r@ == self.spec_keys()[i as int],
    {
        self.keys[i].as_str()
    }

    /// The value of a row.
    pub fn value_at(&self, i: usize) -> (r: &T)
        requires
            i < self.spec_keys().len(),
        ensures
            *r == self.spec_values()[i as int],
            self.map().contains_pair(self.spec_keys()[i as int], *r),
    {
        proof {
            use_type_invariant(&*self);
            self.row_is_mapped(i as int);
        }
        &self.values[i]
    }

    /// The row of a key.
    pub fn position(&self, key: &str) -> (r: Option<usize>)
        ensures
            r is Some <==> self.map().contains_key(key@),
            r matches Some(i) ==> i < self.spec_keys().len() && self.spec_keys()[i as int] == key@
                && self.spec_values()[i as int] == self.map()[key@],
    {
        proof {
            use_type_invariant(&*self);
        }
        for i in 0..self.keys.len()
            invariant
                self.sound(),
                forall|j: int| 0 <= j < i ==> #[trigger] self.spec_keys()[j] != key@,
        {
            if text::same(self.keys[i].as_str(), key) {
                assert(self.spec_keys()[i as int] == key@);
                proof {
                    self.row_is_mapped(i as int);
                }
                return Some(i);
            }
            assert(self.spec_keys()[i as int] == self.keys@[i as int]@);
        }
        None
    }

    /// What the table maps a key to.
    pub fn get(&self, key: &str) -> (r: Option<&T>)
        ensures
            r is Some <==> self.map().contains_key(key@),
            r matches Some(v) ==> *v == self.map()[key@],
    {
        proof {
            use_type_invariant(&*self);
        }
        match self.position(key) {
            Some(i) => Some(&self.values[i]),
            None => None,
        }
    }

    /// Maps a key to a value, in the row it had or in a new last row.
    pub fn insert(&mut self, key: &str, value: T)
        ensures
            final(self).map() == old(self).map().insert(key@, value),
            old(self).map().contains_key(key@) ==> final(self).spec_keys() == old(self).spec_keys() && final(self).spec_values() == old(self).spec_values().update(
                old(self).spec_keys().index_of(key@),
                value,
            ),
            !old(self).map().contains_key(key@) ==> final(self).spec_keys() == old(self).spec_keys().push(key@) && final(self).spec_values() == old(self).spec_values().push(value),
    {
        proof {
            use_type_invariant(&*self);
        }
        let ghost before = *self;
        let found = self.position(key);
        let mut emptied = Table { keys: Vec::new(), values: Vec::new() };
        std::mem::swap(self, &mut emptied);
        let mut keys = emptied.keys;
        let mut values = emptied.values;
        match found {
            Some(i) => {
                values.set(i, value);
                *self = Table { keys, values };
                proof {
                    before.row_is_mapped(i as int);
                    assert(self.spec_keys() == before.spec_keys());
                    assert(self.spec_values() == before.spec_values().update(i as int, value));
                    assert(before.spec_keys().index_of(key@) == i);
                    assert(self.map() =~= before.map().insert(key@, value));
                }
            },
            None => {
                let owned = key.to_owned();
                proof {
                    lists::views_push(keys@, owned);
                }
                keys.push(owned);
                values.push(value);
                proof {
                    let ks = before.spec_keys();
                    assert(!ks.contains(key@));
                    assert(lists::views(keys@) == ks.push(key@));
                    assert(lists::views(keys@).no_duplicates());
                }
                *self = Table { keys, values };
                proof {
                    let ks = before.spec_keys();
                    assert(self.spec_keys() == ks.push(key@));
                    assert(self.spec_values() == before.spec_values().push(value));
                    assert forall|k: Seq<char>| #[trigger]
                        self.map().contains_key(k) == before.map().insert(key@, value).contains_key(
                        k,
                    ) by {
                        if ks.contains(k) {
                            let j = ks.index_of(k);
                            assert(self.spec_keys()[j] == k);
                        }
                        assert(self.spec_keys()[ks.len() as int] == key@);
                    }
                    assert forall|k: Seq<char>| #[trigger]
                        self.map().contains_key(k) implies self.map()[k] == before.map().insert(
                        key@,
                        value,
                    )[k] by {
                        let j = self.spec_keys().index_of(k);
                        if k == key@ {
                            self.row_is_mapped(ks.len() as int);
                        } else {
                            assert(ks[j] == k);
                            before.row_is_mapped(j);
                        }
                    }
                    assert(self.map() =~= before.map().insert(key@, value));
                }
            },
        }
    }

    /// Puts a value in a row and gives back the one it held.
    pub fn replace_at(&mut self, i: usize, value: T) -> (r: T)
        requires
            i < old(self).spec_keys().len(),
        ensures
            final(self).spec_keys() == old(self).spec_keys(),
            final(self).spec_values() == old(self).spec_values().update(i as int, value),
            final(self).map() == old(self).map().insert(old(self).spec_keys()[i as int], value),
            r == old(self).spec_values()[i as int],
            old(self).map().contains_pair(old(self).spec_keys()[i as int], r),
    {
        proof {
            use_type_invariant(&*self);
        }
        let ghost before = *self;
        let mut emptied = Table { keys: Vec::new(), values: Vec::new() };
        std::mem::swap(self, &mut emptied);
        let keys = emptied.keys;
        let mut values = emptied.values;
        let ghost new_value = value;
        values.push(value);
        let r = values.swap_remove(i);
        assert(values@ =~= before.spec_values().update(i as int, new_value));
        *self = Table { keys, values };
        proof {
            let k = before.spec_keys()[i as int];
            before.row_is_mapped(i as int);
            assert forall|q: Seq<char>| #[trigger]
                self.map().contains_key(q) implies self.map()[q] == before.map().insert(
                k,
                new_value,
            )[q] by {
                let j = before.spec_keys().index_of(q);
                before.row_is_mapped(j);
            }
            assert(self.map() =~= before.map().insert(k, new_value));
        }
        r
    }

    /// Removes a key; the other rows keep their order.
    pub fn remove(&mut self, key: &str) -> (r: Option<T>)
        ensures
            final(self).map() == old(self).map().remove(key@),
            r == old(self).lookup(key@),
            !old(self).map().contains_key(key@) ==> final(self).spec_keys() == old(self).spec_keys() && final(self).spec_values() == old(self).spec_values(),
            old(self).map().contains_key(key@) ==> final(self).spec_keys() == old(self).spec_keys().remove(old(self).spec_keys().index_of(key@)) && final(self).spec_values() == old(self).spec_values().remove(
                old(self).spec_keys().index_of(key@),
            ),
    {
        proof {
            use_type_invariant(&*self);
        }
        let ghost before = *self;
        match self.position(key) {
            Some(i) => {
                let mut emptied = Table { keys: Vec::new(), values: Vec::new() };
                std::mem::swap(self, &mut emptied);
                let mut keys = emptied.keys;
                let mut values = emptied.values;
                let _ = keys.remove(i);
                let value = values.remove(i);
                let ghost ks = before.spec_keys();
                proof {
                    before.row_is_mapped(i as int);
                    assert(lists::views(keys@) =~= ks.remove(i as int));
                    assert forall|a: int, b: int|
                        0 <= a < keys@.len() && 0 <= b < keys@.len() && a != b implies lists::views(
                        keys@,
                    )[a] != lists::views(keys@)[b] by {
                        let x = if a < i { a } else { a + 1 };
                        let y = if b < i { b } else { b + 1 };
                        assert(ks[x] != ks[y]);
                    }
                }
                *self = Table { keys, values };
                proof {
                    assert(self.spec_keys() == ks.remove(i as int));
                    assert(self.spec_values() == before.spec_values().remove(i as int));
                    assert(ks.index_of(key@) == i);
                    assert forall|k: Seq<char>| #[trigger]
                        self.map().contains_key(k) == before.map().remove(key@).contains_key(k) by {
                        if self.spec_keys().contains(k) {
                            let j = self.spec_keys().index_of(k);
                            let x = if j < i { j } else { j + 1 };
                            assert(ks[x] == k);
                        } else if ks.contains(k) && k != key@ {
                            let x = ks.index_of(k);
                            let j = if x < i { x } else { x - 1 };
                            assert(self.spec_keys()[j] == k);
                        }
                    }
                    assert forall|k: Seq<char>| #[trigger]
                        self.map().contains_key(k) implies self.map()[k] == before.map()[k] by {
                        let j = self.spec_keys().index_of(k);
                        let x = if j < i { j } else { j + 1 };
                        assert(ks[x] == k);
                        before.row_is_mapped(x);
                    }
                    assert(self.map() =~= before.map().remove(key@));
                }
                Some(value)
            },
            None => {
                assert(self.map() =~= before.map().remove(key@));
                None
            },
        }
    }

    /// The keys in order.
    pub fn key_list(&self) -> (r: Vec<String>)
        ensures
            lists::views(r@) == self.spec_keys(),
    {
        lists::duplicate_all(self.keys.as_slice())
    }

    proof fn row_is_mapped(self, i: int)
        requires
            self.sound(),
            0 <= i < self.spec_keys().len(),
        ensures
            self.map().contains_pair(self.spec_keys()[i], self.spec_values()[i]),
            self.spec_keys().index_of(self.spec_keys()[i]) == i,
    {
        let k = self.spec_keys()[i];
        assert(self.spec_keys().contains(k));
        let j = self.spec_keys().index_of(k);
        assert(self.spec_keys()[j] == k);
        assert(i == j);
    }
}

}
