use std::collections::HashMap;
use std::hash::Hash;

use vstd::prelude::*;

use crate::game::data::mappings::hash_map_get_mut;

verus! {

broadcast use vstd::std_specs::hash::group_hash_axioms;

/// Two hash maps: one from `A` to `B` (the first direction) and one from `B` to `A` (the
/// second direction). Inserting or removing through one direction also updates the other
/// direction for the value that was replaced or removed.
pub struct PairMap<A, B>(HashMap<A, B>, HashMap<B, A>);

impl<A, B> PairMap<A, B> where A: Copy + Hash + Eq, B: Copy + Hash + Eq {
    /// Both key types behave as hash map keys (as integers do)
    pub open spec fn keys_ok() -> bool {
        &&& vstd::std_specs::hash::obeys_key_model::<A>()
        &&& vstd::std_specs::hash::obeys_key_model::<B>()
    }

    /// The map of the first direction
    pub closed spec fn first(&self) -> Map<A, B> {
        self.0@
    }

    /// The map of the second direction
    pub closed spec fn second(&self) -> Map<B, A> {
        self.1@
    }

    /// Read after write: once `insert` stored a value under a key in the first direction,
    /// `get` gives that value for the key and what it gave before for every other key
    pub proof fn law_get_after_insert(before: &Self, after: &Self, key: A, value: B, other: A)
        requires
            after.first() == before.first().insert(key, value),
        ensures
            after.first().contains_key(key),
            after.first()[key] == value,
            other != key ==> (after.first().contains_key(other) <==> before.first().contains_key(
                other,
            )),
            other != key && before.first().contains_key(other) ==> after.first()[other]
                == before.first()[other],
    {
    }

    /// Once `remove` took a key out of the first direction, `get` finds nothing under it
    pub proof fn law_get_after_remove(before: &Self, after: &Self, key: A)
        requires
            after.first() == before.first().remove(key),
        ensures
            !after.first().contains_key(key),
    {
    }

    /// Both directions hold finitely many entries
    pub proof fn lemma_finite(&self)
        ensures
            self.first().dom().finite(),
            self.second().dom().finite(),
    {
    }

    /// Removing a key from the first direction takes one entry away when the key was there,
    /// and none otherwise
    pub proof fn law_len_after_remove(before: &Self, after: &Self, key: A)
        requires
            after.first() == before.first().remove(key),
        ensures
            after.first().len() == before.first().len() - (if before.first().contains_key(key) {
                1int
            } else {
                0int
            }),
    {
        before.lemma_finite();
    }

    /// Two empty maps
    pub fn new() -> (r: Self)
        ensures
            r.first() == Map::<A, B>::empty(),
            r.second() == Map::<B, A>::empty(),
    {
        PairMap(HashMap::new(), HashMap::new())
    }

    /// The value stored under the key in the first direction
    pub fn get(&self, key: A) -> (r: Option<B>)
        requires
            Self::keys_ok(),
        ensures
            r == (if self.first().contains_key(key) {
                Some(self.first()[key])
            } else {
                None
            }),
    {
        match self.0.get(&key) {
            Some(v) => Some(*v),
            None => None,
        }
    }

    /// A reference to the value stored under the key in the first direction, through which
    /// only the first direction changes
    pub fn get_mut(&mut self, key: A) -> (r: Option<&mut B>)
        requires
            Self::keys_ok(),
        ensures
            final(self).second() == old(self).second(),
            match r {
                Some(v) => {
                    &&& old(self).first().contains_key(key)
                    &&& *v == old(self).first()[key]
                    &&& final(self).first() == old(self).first().insert(key, *final(v))
                },
                None => !old(self).first().contains_key(key) && final(self).first() == old(
                    self,
                ).first(),
            },
    {
        hash_map_get_mut(&mut self.0, &key)
    }

    /// Stores the value under the key in the first direction. When a value was replaced, it
    /// is removed from the second direction and the new value is stored there under the key;
    /// the replaced value is returned. A new key leaves the second direction as it is.
    pub fn insert(&mut self, key: A, value: B) -> (r: Option<B>)
        requires
            Self::keys_ok(),
        ensures
            final(self).first() == old(self).first().insert(key, value),
            match r {
                Some(old_value) => {
                    &&& old(self).first().contains_key(key)
                    &&& old_value == old(self).first()[key]
                    &&& final(self).second() == old(self).second().remove(old_value).insert(
                        value,
                        key,
                    )
                },
                None => !old(self).first().contains_key(key) && final(self).second() == old(
                    self,
                ).second(),
            },
    {
        match self.0.insert(key, value) {
            Some(old_value) => {
                self.1.remove(&old_value);
                self.1.insert(value, key);
                Some(old_value)
            },
            None => None,
        }
    }

    /// Removes the key from the first direction and its value from the second direction
    pub fn remove(&mut self, key: A) -> (r: Option<B>)
        requires
            Self::keys_ok(),
        ensures
            final(self).first() == old(self).first().remove(key),
            match r {
                Some(value) => {
                    &&& old(self).first().contains_key(key)
                    &&& value == old(self).first()[key]
                    &&& final(self).second() == old(self).second().remove(value)
                },
                None => !old(self).first().contains_key(key) && final(self).second() == old(
                    self,
                ).second(),
            },
    {
        if let Some(value) = self.0.remove(&key) {
            self.1.remove(&value);
            Some(value)
        } else {
            None
        }
    }

    /// Empties both directions
    pub fn clear(&mut self)
        ensures
            final(self).first() == Map::<A, B>::empty(),
            final(self).second() == Map::<B, A>::empty(),
    {
        self.0.clear();
        self.1.clear();
    }

    /// Whether the first direction is empty
    pub fn is_empty(&self) -> (r: bool)
        ensures
            r == (self.first().len() == 0),
    {
        proof {
            if self.first().len() == 0 {
                assert(self.first() =~= Map::<A, B>::empty());
            }
        }
        self.0.is_empty()
    }

    /// The number of entries of the first direction
    pub fn len(&self) -> (r: usize)
        requires
            Self::keys_ok(),
        ensures
            r == self.first().len(),
    {
        self.0.len()
    }

    /// The value stored under the key in the second direction
    pub fn get2(&self, key: B) -> (r: Option<A>)
        requires
            Self::keys_ok(),
        ensures
            r == (if self.second().contains_key(key) {
                Some(self.second()[key])
            } else {
                None
            }),
    {
        match self.1.get(&key) {
            Some(v) => Some(*v),
            None => None,
        }
    }

    /// A reference to the value stored under the key in the second direction, through which
    /// only the second direction changes
    pub fn get_mut2(&mut self, key: B) -> (r: Option<&mut A>)
        requires
            Self::keys_ok(),
        ensures
            final(self).first() == old(self).first(),
            match r {
                Some(v) => {
                    &&& old(self).second().contains_key(key)
                    &&& *v == old(self).second()[key]
                    &&& final(self).second() == old(self).second().insert(key, *final(v))
                },
                None => !old(self).second().contains_key(key) && final(self).second() == old(
                    self,
                ).second(),
            },
    {
        hash_map_get_mut(&mut self.1, &key)
    }

    /// Stores the value under the key in the second direction. When a value was replaced, it
    /// is removed from the first direction and the new value is stored there under the key;
    /// the replaced value is returned. A new key leaves the first direction as it is.
    pub fn insert2(&mut self, key: B, value: A) -> (r: Option<A>)
        requires
            Self::keys_ok(),
        ensures
            final(self).second() == old(self).second().insert(key, value),
            match r {
                Some(old_value) => {
                    &&& old(self).second().contains_key(key)
                    &&& old_value == old(self).second()[key]
                    &&& final(self).first() == old(self).first().remove(old_value).insert(
                        value,
                        key,
                    )
                },
                None => !old(self).second().contains_key(key) && final(self).first() == old(
                    self,
                ).first(),
            },
    {
        match self.1.insert(key, value) {
            Some(old_value) => {
                self.0.remove(&old_value);
                self.0.insert(value, key);
                Some(old_value)
            },
            None => None,
        }
    }

    /// Removes the key from the second direction and its value from the first direction
    pub fn remove2(&mut self, key: B) -> (r: Option<A>)
        requires
            Self::keys_ok(),
        ensures
            final(self).second() == old(self).second().remove(key),
            match r {
                Some(value) => {
                    &&& old(self).second().contains_key(key)
                    &&& value == old(self).second()[key]
                    &&& final(self).first() == old(self).first().remove(value)
                },
                None => !old(self).second().contains_key(key) && final(self).first() == old(
                    self,
                ).first(),
            },
    {
        if let Some(value) = self.1.remove(&key) {
            self.0.remove(&value);
            Some(value)
        } else {
            None
        }
    }

    /// Empties both directions
    pub fn clear2(&mut self)
        ensures
            final(self).first() == Map::<A, B>::empty(),
            final(self).second() == Map::<B, A>::empty(),
    {
        self.0.clear();
        self.1.clear();
    }

    /// Whether the second direction is empty
    pub fn is_empty2(&self) -> (r: bool)
        ensures
            r == (self.second().len() == 0),
    {
        proof {
            if self.second().len() == 0 {
                assert(self.second() =~= Map::<B, A>::empty());
            }
        }
        self.1.is_empty()
    }

    /// The number of entries of the second direction
    pub fn len2(&self) -> (r: usize)
        requires
            Self::keys_ok(),
        ensures
            r == self.second().len(),
    {
        self.1.len()
    }
}

} // verus!
