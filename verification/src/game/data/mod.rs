pub mod input;
pub mod mappings;
pub mod player;

pub use self::input::Input;
pub use self::player::Player;

use vec_map::VecMap;
use vstd::prelude::*;

use crate::data::cell::ShapeCell;
use crate::data::world::default::World as DefaultWorld;

verus! {

/// Type of the world id
pub type WorldId = u8;

/// Type of the player id
pub type PlayerId = u8;

/// The world that the game is played in: the static sized world of shape cells
pub type GameWorld = DefaultWorld<ShapeCell>;

/// The map from small integer keys to values of the `vec_map` crate; opaque here
#[verifier::external_type_specification]
#[verifier::external_body]
#[verifier::reject_recursive_types(V)]
pub struct ExVecMap<V>(VecMap<V>);

/// What a map of worlds holds: under each world id, the world and whether it is paused
pub uninterp spec fn world_entries(m: VecMap<(GameWorld, bool)>) -> Map<usize, (GameWorld, bool)>;

/// What a map of players holds: the players under their ids
pub uninterp spec fn player_entries(m: VecMap<Player>) -> Map<usize, Player>;

/// Calls `VecMap::new` for worlds: a map without entries
#[verifier::external_body]
fn worlds_new() -> (r: VecMap<(GameWorld, bool)>)
    ensures
        world_entries(r).dom() == Set::<usize>::empty(),
{
    VecMap::new()
}

/// Calls `VecMap::new` for players: a map without entries
#[verifier::external_body]
fn players_new() -> (r: VecMap<Player>)
    ensures
        player_entries(r).dom() == Set::<usize>::empty(),
{
    VecMap::new()
}

/// Calls `VecMap::get` on worlds: the entry under the key, if any
#[verifier::external_body]
pub(crate) fn worlds_get(m: &VecMap<(GameWorld, bool)>, key: usize) -> (r: Option<&(GameWorld, bool)>)
    ensures
        r is Some <==> world_entries(*m).contains_key(key),
        r matches Some(e) ==> *e == world_entries(*m)[key],
{
    m.get(key)
}

/// Calls `VecMap::get` on players: the player under the key, if any
#[verifier::external_body]
pub(crate) fn players_get(m: &VecMap<Player>, key: usize) -> (r: Option<&Player>)
    ensures
        r is Some <==> player_entries(*m).contains_key(key),
        r matches Some(p) ==> *p == player_entries(*m)[key],
{
    m.get(key)
}

/// Calls `VecMap::get_mut` on worlds: a reference to the entry under the key, if any,
/// through which the entry in the map changes
#[verifier::external_body]
pub(crate) fn worlds_get_mut(m: &mut VecMap<(GameWorld, bool)>, key: usize) -> (r: Option<
    &mut (GameWorld, bool),
>)
    ensures
        match r {
            Some(e) => {
                &&& world_entries(*old(m)).contains_key(key)
                &&& *e == world_entries(*old(m))[key]
                &&& world_entries(*final(m)) == world_entries(*old(m)).insert(key, *final(e))
            },
            None => !world_entries(*old(m)).contains_key(key) && world_entries(*final(m))
                == world_entries(*old(m)),
        },
{
    m.get_mut(key)
}

/// Calls `VecMap::get_mut` on players: a reference to the player under the key, if any,
/// through which the player in the map changes
#[verifier::external_body]
pub(crate) fn players_get_mut(m: &mut VecMap<Player>, key: usize) -> (r: Option<&mut Player>)
    ensures
        match r {
            Some(p) => {
                &&& player_entries(*old(m)).contains_key(key)
                &&& *p == player_entries(*old(m))[key]
                &&& player_entries(*final(m)) == player_entries(*old(m)).insert(key, *final(p))
            },
            None => !player_entries(*old(m)).contains_key(key) && player_entries(*final(m))
                == player_entries(*old(m)),
        },
{
    m.get_mut(key)
}

/// Calls `VecMap::insert` on worlds: the entry is stored under the key, and the entry it
/// replaced, if any, is returned
#[verifier::external_body]
pub(crate) fn worlds_insert(m: &mut VecMap<(GameWorld, bool)>, key: usize, value: (GameWorld, bool)) -> (r:
    Option<(GameWorld, bool)>)
    ensures
        world_entries(*final(m)) == world_entries(*old(m)).insert(key, value),
        r is Some <==> world_entries(*old(m)).contains_key(key),
        r matches Some(e) ==> e == world_entries(*old(m))[key],
{
    m.insert(key, value)
}

/// Calls `VecMap::insert` on players: the player is stored under the key, and the player it
/// replaced, if any, is returned
#[verifier::external_body]
pub(crate) fn players_insert(m: &mut VecMap<Player>, key: usize, value: Player) -> (r: Option<Player>)
    ensures
        player_entries(*final(m)) == player_entries(*old(m)).insert(key, value),
        r is Some <==> player_entries(*old(m)).contains_key(key),
        r matches Some(p) ==> p == player_entries(*old(m))[key],
{
    m.insert(key, value)
}

/// Calls `VecMap::len` on players: the number of players
#[verifier::external_body]
pub(crate) fn players_len(m: &VecMap<Player>) -> (r: usize)
    ensures
        r == player_entries(*m).len(),
{
    m.len()
}

/// Calls `VecMap::keys` on players, collected: the ids of the players in ascending order
#[verifier::external_body]
pub(crate) fn players_keys(m: &VecMap<Player>) -> (r: Vec<usize>)
    ensures
        forall|i: int, j: int| 0 <= i < j < r@.len() ==> r@[i] < r@[j],
        forall|k: usize| #![trigger player_entries(*m).contains_key(k)]
            player_entries(*m).contains_key(k) <==> r@.contains(k),
{
    m.keys().collect()
}

/// The worlds and the players of a game
pub struct Data {
    /// Mappings of world ids to worlds, each with whether it is paused
    pub worlds: VecMap<(GameWorld, bool)>,
    /// Mappings of player ids to players
    pub players: VecMap<Player>,
}

impl Data {
    /// The worlds, each with whether it is paused, under their ids
    pub open spec fn worlds_view(&self) -> Map<usize, (GameWorld, bool)> {
        world_entries(self.worlds)
    }

    /// The players under their ids
    pub open spec fn players_view(&self) -> Map<usize, Player> {
        player_entries(self.players)
    }

    /// No worlds and no players
    pub fn new() -> (r: Self)
        ensures
            r.worlds_view() == Map::<usize, (GameWorld, bool)>::empty(),
            r.players_view() == Map::<usize, Player>::empty(),
    {
        Data { worlds: worlds_new(), players: players_new() }
    }
}

} // verus!
