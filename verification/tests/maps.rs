use tetr::data::pair_map::PairMap;
use tetr::game::data::mappings::{Key, Mappings};

#[test]
fn a_pair_map_reads_what_was_inserted() {
    let mut m: PairMap<u32, u8> = PairMap::new();
    assert!(m.is_empty());
    assert_eq!(m.insert(1, 10), None);
    assert_eq!(m.get(1), Some(10));
    assert_eq!(m.len(), 1);
    // A new key is not stored in the second direction
    assert_eq!(m.get2(10), None);
    assert_eq!(m.insert(1, 20), Some(10));
    assert_eq!(m.get(1), Some(20));
    assert_eq!(m.get2(20), Some(1));
    assert_eq!(m.get2(10), None);
    assert_eq!(m.remove(1), Some(20));
    assert_eq!(m.get(1), None);
    assert_eq!(m.get2(20), None);
    assert_eq!(m.remove(1), None);
}

#[test]
fn a_pair_map_works_in_both_directions() {
    let mut m: PairMap<u32, u8> = PairMap::new();
    assert_eq!(m.insert2(5, 50), None);
    assert_eq!(m.get2(5), Some(50));
    assert_eq!(m.len2(), 1);
    assert!(m.is_empty());
    assert_eq!(m.insert2(5, 60), Some(50));
    assert_eq!(m.get(60), Some(5));
    if let Some(v) = m.get_mut2(5) {
        *v = 70;
    }
    assert_eq!(m.get2(5), Some(70));
    if let Some(v) = m.get_mut(60) {
        *v = 6;
    }
    assert_eq!(m.get(60), Some(6));
    assert_eq!(m.remove2(5), Some(70));
    assert_eq!(m.get2(5), None);
    m.clear();
    m.clear2();
    assert!(m.is_empty2());
}

#[test]
fn mappings_fall_back_from_players_to_worlds_to_the_global_data() {
    let mut m: Mappings<u32> = Mappings::new(1);
    assert_eq!(*m.world_get(3), 1);
    assert_eq!(*m.player_get(3, 9), 1);
    m.insert_from_global(Key::World(3));
    *m.world_get_mut(3) = 5;
    assert_eq!(*m.world_get(3), 5);
    assert_eq!(*m.player_get(3, 9), 5);
    assert_eq!(*m.player_get(4, 9), 1);
    m.insert_from_global(Key::Player(9));
    *m.player_get_mut(3, 9) = 7;
    assert_eq!(*m.player_get(3, 9), 7);
    assert_eq!(*m.world_get(3), 5);
    *m.global() = 2;
    assert_eq!(*m.world_get(4), 2);
    *m.player_get_mut(4, 8) = 3;
    assert_eq!(*m.world_get(0), 3);
}

#[test]
fn mapping_keys_have_distinct_numbers() {
    assert_eq!(Key::World(3).code(), 3);
    assert_eq!(Key::Player(3).code(), 259);
}
