use std::collections::HashMap;

use vstd::prelude::*;

use crate::game::data::{PlayerId, WorldId};

verus! {

broadcast use vstd::std_specs::hash::group_hash_axioms;

/// Kind of data mappings
#[derive(Copy, Clone, Debug, PartialEq, Eq, Hash, Structural)]
pub enum Key {
    World(WorldId),
    Player(PlayerId),
}

impl Key {
    /// The number that a key is stored under: worlds below 256, players from 256 on
    pub open spec fn code_spec(self) -> u16 {
        match self {
            Key::World(world) => world as u16,
            Key::Player(player) => (256 + player) as u16,
        }
    }

    /// Returns the number that the key is stored under
    pub fn code(self) -> (r: u16)
        ensures
            r == self.code_spec(),
    {
        match self {
            Key::World(world) => world as u16,
            Key::Player(player) => 256 + player as u16,
        }
    }
}

/// Calls `HashMap::get_mut`: a reference to the value stored under the key, if any, through
/// which the value in the map is changed
#[verifier::external_body]
pub(crate) fn hash_map_get_mut<'a, K: core::hash::Hash + Eq, V>(
    m: &'a mut HashMap<K, V>,
    k: &K,
) -> (r: Option<&'a mut V>)
    ensures
        vstd::std_specs::hash::obeys_key_model::<K>() ==> match r {
            Some(v) => {
                &&& old(m)@.contains_key(*k)
                &&& *v == old(m)@[*k]
                &&& final(m)@ == old(m)@.insert(*k, *final(v))
            },
            None => !old(m)@.contains_key(*k) && final(m)@ == old(m)@,
        },
{
    m.get_mut(k)
}

/// Contains mappings with a global fallback.
/// The first field contains the global data.
/// The second field contains a map of datas, stored under the keys' numbers.
/// When looking up a mapping and it does not exist, it falls back to the more global one in
/// the following order: Player -> World -> Global
pub struct Mappings<T>(T, HashMap<u16, T>);

impl<T> Mappings<T> {
    /// The global fallback data
    pub closed spec fn global_data(&self) -> T {
        self.0
    }

    /// The data of each mapping
    pub closed spec fn entries(&self) -> Map<Key, T> {
        Map::new(|k: Key| self.1@.contains_key(k.code_spec()), |k: Key| self.1@[k.code_spec()])
    }

    /// The data for the world: its own mapping, or the global data
    pub open spec fn lookup_world(&self, world: WorldId) -> T {
        if self.entries().contains_key(Key::World(world)) {
            self.entries()[Key::World(world)]
        } else {
            self.global_data()
        }
    }

    /// The data for the player in the world: its own mapping, or else the world's
    pub open spec fn lookup_player(&self, world: WorldId, player: PlayerId) -> T {
        if self.entries().contains_key(Key::Player(player)) {
            self.entries()[Key::Player(player)]
        } else {
            self.lookup_world(world)
        }
    }

    /// The mapping that a lookup for the player in the world reaches: the player's own, or
    /// else the world's; `None` when it falls back to the global data
    pub open spec fn lookup_key(&self, world: WorldId, player: PlayerId) -> Option<Key> {
        if self.entries().contains_key(Key::Player(player)) {
            Some(Key::Player(player))
        } else if self.entries().contains_key(Key::World(world)) {
            Some(Key::World(world))
        } else {
            None
        }
    }

    /// Whether `new` differs from `self` at most in the data that a lookup for the player in
    /// the world reaches: the mapping it reaches, or the global data when it reaches none
    pub open spec fn changed_at_lookup(&self, new: &Self, world: WorldId, player: PlayerId) -> bool {
        match self.lookup_key(world, player) {
            Some(k) => {
                &&& new.global_data() == self.global_data()
                &&& new.entries() == self.entries().insert(k, new.entries()[k])
            },
            None => new.entries() == self.entries(),
        }
    }

    /// Constructs a mappings container with a global fallback and no mappings
    pub fn new(global: T) -> (r: Self)
        ensures
            r.global_data() == global,
            r.entries() == Map::<Key, T>::empty(),
    {
        let r = Mappings(global, HashMap::new());
        proof {
            assert(r.entries() =~= Map::<Key, T>::empty());
        }
        r
    }

    /// Gets the global fallback data
    pub fn global(&mut self) -> (r: &mut T)
        ensures
            *r == old(self).global_data(),
            final(self).global_data() == *final(r),
            final(self).entries() == old(self).entries(),
    {
        &mut self.0
    }

    /// Adds a copy of the global fallback data to the specified mapping
    pub fn insert_from_global(&mut self, mapping: Key) where T: Clone
        ensures
            final(self).global_data() == old(self).global_data(),
            final(self).entries().dom() == old(self).entries().dom().insert(mapping),
            forall|k: Key|
                k != mapping && #[trigger] old(self).entries().contains_key(k)
                    ==> final(self).entries()[k] == old(self).entries()[k],
            cloned(old(self).global_data(), final(self).entries()[mapping]),
    {
        let copy = self.0.clone();
        self.1.insert(mapping.code(), copy);
        proof {
            assert forall|k: Key| k.code_spec() == mapping.code_spec() implies k == mapping by {
                match k {
                    Key::World(_) => {},
                    Key::Player(_) => {},
                }
            }
            assert(final(self).entries().dom() =~= old(self).entries().dom().insert(mapping));
        }
    }

    /// Lookup data from a world mapping with fallbacks, for changing it
    pub fn world_get_mut(&mut self, world: WorldId) -> (r: &mut T)
        ensures
            *r == old(self).lookup_world(world),
            old(self).entries().contains_key(Key::World(world)) ==> {
                &&& final(self).entries() == old(self).entries().insert(Key::World(world), *final(r))
                &&& final(self).global_data() == old(self).global_data()
            },
            !old(self).entries().contains_key(Key::World(world)) ==> {
                &&& final(self).entries() == old(self).entries()
                &&& final(self).global_data() == *final(r)
            },
    {
        let code = Key::World(world).code();
        match hash_map_get_mut(&mut self.1, &code) {
            Some(v) => v,
            None => &mut self.0,
        }
    }

    /// Lookup data from a player mapping with fallbacks, for changing it
    pub fn player_get_mut(&mut self, world: WorldId, player: PlayerId) -> (r: &mut T)
        ensures
            *r == old(self).lookup_player(world, player),
            old(self).entries().contains_key(Key::Player(player)) ==> {
                &&& final(self).entries() == old(self).entries().insert(Key::Player(player), *final(r))
                &&& final(self).global_data() == old(self).global_data()
            },
            !old(self).entries().contains_key(Key::Player(player)) && old(self).entries().contains_key(Key::World(world)) ==> {
                &&& final(self).entries() == old(self).entries().insert(Key::World(world), *final(r))
                &&& final(self).global_data() == old(self).global_data()
            },
            !old(self).entries().contains_key(Key::Player(player)) && !old(self).entries().contains_key(Key::World(world)) ==> {
                &&& final(self).entries() == old(self).entries()
                &&& final(self).global_data() == *final(r)
            },
    {
        let code = Key::Player(player).code();
        if self.1.contains_key(&code) {
            match hash_map_get_mut(&mut self.1, &code) {
                Some(v) => v,
                None => &mut self.0,
            }
        } else {
            self.world_get_mut(world)
        }
    }

    /// Lookup data from a world mapping with fallbacks
    pub fn world_get(&self, world: WorldId) -> (r: &T)
        ensures
            *r == self.lookup_world(world),
    {
        let code = Key::World(world).code();
        match self.1.get(&code) {
            Some(v) => v,
            None => &self.0,
        }
    }

    /// Lookup data from a player mapping with fallbacks
    pub fn player_get(&self, world: WorldId, player: PlayerId) -> (r: &T)
        ensures
            *r == self.lookup_player(world, player),
    {
        let code = Key::Player(player).code();
        match self.1.get(&code) {
            Some(v) => v,
            None => self.world_get(world),
        }
    }
}

} // verus!
