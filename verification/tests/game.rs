use std::collections::VecDeque;

use rand::SeedableRng;

use tetr::data::cell::ShapeCell;
use tetr::data::grid::{Grid, Pos};
use tetr::data::shapes::tetrimino::{RotatedShape, Shape};
use tetr::data::world::default::World;
use tetr::data::world::{CellIntersection, World as WorldTrait};
use tetr::game::data::player::Settings;
use tetr::game::data::{Input, Player};
use tetr::game::request::Request;
use tetr::game::state::{
    default_respawn_pos, fastfallen_shape_pos, gravity_step, move_player, resolve_transformed_player,
    respawn_player, spawn_player, GravityOutcome, State,
};
use tetr::input::{perform, TimerAction};

fn rng() -> rand::rngs::StdRng {
    rand::rngs::StdRng::seed_from_u64(42)
}

fn player(shape: Shape, pos: Pos, shadow: bool) -> Player {
    Player {
        pos,
        shadow_pos: None,
        shapes_lookahead: None,
        shape: RotatedShape::new(shape),
        world: 0,
        points: 0,
        settings: Settings { fastfall_shadow: shadow },
    }
}

#[test]
fn players_spawn_centered_at_the_top() {
    let w: World<ShapeCell> = World::default();
    assert_eq!(default_respawn_pos(&RotatedShape::new(Shape::O), &w), Pos { x: 4, y: 0 });
    assert_eq!(default_respawn_pos(&RotatedShape::new(Shape::I), &w), Pos { x: 3, y: 0 });
    let p = spawn_player(1, Settings { fastfall_shadow: true }, Shape::T, &w);
    assert_eq!(p.pos, Pos { x: 4, y: 0 });
    assert_eq!(p.world, 1);
    assert_eq!(p.shape, RotatedShape::new(Shape::T));
}

#[test]
fn fast_falling_lands_on_the_ground_or_on_cells() {
    let mut w: World<ShapeCell> = World::default();
    let o = RotatedShape::new(Shape::O);
    assert_eq!(fastfallen_shape_pos(&o, &w, Pos { x: 4, y: 0 }), Pos { x: 4, y: 18 });
    w.set_position(Pos { x: 5, y: 10 }, ShapeCell(Some(Shape::I))).unwrap();
    assert_eq!(fastfallen_shape_pos(&o, &w, Pos { x: 4, y: 0 }), Pos { x: 4, y: 8 });
    assert_eq!(fastfallen_shape_pos(&o, &w, Pos { x: 6, y: 0 }), Pos { x: 6, y: 18 });
}

#[test]
fn moves_stop_at_walls_and_recalculate_the_shadow() {
    let w: World<ShapeCell> = World::default();
    let mut p = player(Shape::O, Pos { x: 0, y: 3 }, true);
    assert!(!move_player(&mut p, &w, Pos { x: -1, y: 0 }));
    assert_eq!(p.pos, Pos { x: 0, y: 3 });
    assert_eq!(p.shadow_pos, None);
    assert!(move_player(&mut p, &w, Pos { x: 1, y: 0 }));
    assert_eq!(p.pos, Pos { x: 1, y: 3 });
    assert_eq!(p.shadow_pos, Some(Pos { x: 1, y: 18 }));
    assert!(move_player(&mut p, &w, Pos { x: 0, y: 1 }));
    assert_eq!(p.pos, Pos { x: 1, y: 4 });
}

#[test]
fn rotating_next_to_a_wall_kicks_the_shape_away() {
    let w: World<ShapeCell> = World::default();
    // The vertical I has its cells in the third column; at x = 7 that is column 9
    let mut p = player(Shape::I, Pos { x: 7, y: 2 }, false);
    let turned = p.shape.rotated_anticlockwise();
    assert!(resolve_transformed_player(&mut p, turned, &w));
    assert_eq!(p.shape, turned);
    assert_eq!(p.pos, Pos { x: 6, y: 2 });
}

#[test]
fn inputs_move_and_set_the_gravity_timer() {
    let w: World<ShapeCell> = World::default();
    let mut p = player(Shape::T, Pos { x: 3, y: 0 }, false);
    assert_eq!(perform(Input::MoveRight, &mut p, &w), TimerAction::Keep);
    assert_eq!(p.pos, Pos { x: 4, y: 0 });
    assert_eq!(perform(Input::SlowFall, &mut p, &w), TimerAction::Reset);
    assert_eq!(p.pos, Pos { x: 4, y: 1 });
    assert_eq!(perform(Input::FastFall, &mut p, &w), TimerAction::Zero);
    assert_eq!(p.pos, Pos { x: 4, y: 17 });
    assert_eq!(perform(Input::SlowFall, &mut p, &w), TimerAction::Zero);
    assert_eq!(p.pos, Pos { x: 4, y: 17 });
    assert_eq!(perform(Input::Pause, &mut p, &w), TimerAction::Keep);
    assert_eq!(perform(Input::RotateClockwise, &mut p, &w), TimerAction::Keep);
    assert_eq!(p.shape.rotation(), 3);
}

#[test]
fn gravity_moves_down_until_the_shape_lands_and_is_imprinted() {
    let mut w: World<ShapeCell> = World::default();
    let mut r = rng();
    let mut p = player(Shape::O, Pos { x: 4, y: 17 }, false);
    let cell = ShapeCell(Some(Shape::O));
    assert_eq!(gravity_step(&mut p, &mut w, cell, &mut r), GravityOutcome::Moved { pos: Pos { x: 4, y: 18 } });
    match gravity_step(&mut p, &mut w, cell, &mut r) {
        GravityOutcome::Imprinted { shape, pos, full_rows, new_shape, spawn, respawned } => {
            assert_eq!(shape, RotatedShape::new(Shape::O));
            assert_eq!(pos, Pos { x: 4, y: 18 });
            assert_eq!(full_rows, 0);
            assert_eq!(spawn, Pos { x: 4, y: 0 });
            assert!(respawned);
            assert_eq!(p.shape, RotatedShape::new(new_shape));
            assert_eq!(p.pos, spawn);
        },
        other => panic!("expected an imprint, got {:?}", other),
    }
    assert_eq!(w.pos(Pos { x: 4, y: 18 }), cell);
    assert_eq!(w.pos(Pos { x: 5, y: 19 }), cell);
}

#[test]
fn gravity_clears_the_rows_that_the_shape_fills() {
    let mut w: World<ShapeCell> = World::default();
    for x in 0..10 {
        if x != 4 && x != 5 {
            w.set_position(Pos { x, y: 19 }, ShapeCell(Some(Shape::I))).unwrap();
        }
    }
    let mut r = rng();
    let mut p = player(Shape::O, Pos { x: 4, y: 18 }, false);
    match gravity_step(&mut p, &mut w, ShapeCell(Some(Shape::O)), &mut r) {
        GravityOutcome::Imprinted { full_rows, .. } => assert_eq!(full_rows, 1),
        other => panic!("expected an imprint, got {:?}", other),
    }
    assert_eq!(w.pos(Pos { x: 4, y: 19 }), ShapeCell(Some(Shape::O)));
    assert_eq!(w.pos(Pos { x: 0, y: 19 }), ShapeCell(None));
    assert_eq!(w.pos(Pos { x: 4, y: 18 }), ShapeCell(None));
}

#[test]
fn the_next_shape_comes_from_the_queue() {
    let mut p = player(Shape::O, Pos { x: 0, y: 0 }, false);
    let mut queue = VecDeque::new();
    queue.push_front(Shape::I);
    queue.push_front(Shape::L);
    p.shapes_lookahead = Some(queue);
    assert_eq!(p.next_shape(Shape::Z), Shape::I);
    assert_eq!(p.next_shape(Shape::S), Shape::L);
    assert_eq!(p.next_shape(Shape::T), Shape::Z);
    let mut q = player(Shape::O, Pos { x: 0, y: 0 }, false);
    assert_eq!(q.next_shape(Shape::J), Shape::J);
}

#[test]
fn respawning_on_cells_fails() {
    let mut w: World<ShapeCell> = World::default();
    let mut p = player(Shape::O, Pos { x: 4, y: 10 }, true);
    assert!(respawn_player(&mut p, &w, Shape::T, Pos { x: 4, y: 0 }));
    assert_eq!(p.shape, RotatedShape::new(Shape::T));
    assert_eq!(p.shadow_pos, Some(Pos { x: 4, y: 17 }));
    w.set_position(Pos { x: 5, y: 1 }, ShapeCell(Some(Shape::I))).unwrap();
    assert!(!respawn_player(&mut p, &w, Shape::T, Pos { x: 4, y: 0 }));
}

#[test]
fn players_are_added_to_existing_worlds_only() {
    let mut s = State::new(rng());
    assert_eq!(s.add_player(0, Settings { fastfall_shadow: false }), None);
    assert!(s.add_world(0, World::default()).is_none());
    assert_eq!(s.add_player(0, Settings { fastfall_shadow: false }), Some(0));
    assert_eq!(s.add_player(0, Settings { fastfall_shadow: true }), Some(1));
    assert_eq!(s.add_player(3, Settings { fastfall_shadow: true }), None);
    assert_eq!(s.player_ids(), vec![0, 1]);
    let p = s.player(1).unwrap();
    assert_eq!(p.world, 0);
    assert_eq!(p.pos.y, 0);
    assert_eq!(p.shape.rotation(), 0);
    assert!(s.player(2).is_none());
}

#[test]
fn gravity_in_the_state_moves_the_player() {
    let mut s = State::new(rng());
    s.add_world(0, World::default());
    s.add_player(0, Settings { fastfall_shadow: false }).unwrap();
    let before = s.player(0).unwrap().pos;
    assert_eq!(s.gravity(0), Some(GravityOutcome::Moved { pos: Pos { x: before.x, y: before.y + 1 } }));
    assert_eq!(s.player(0).unwrap().pos.y, before.y + 1);
    assert_eq!(s.gravity(9), None);
    let mut imprinted = false;
    for _ in 0..40 {
        if let Some(GravityOutcome::Imprinted { .. }) = s.gravity(0) {
            imprinted = true;
            break;
        }
    }
    assert!(imprinted);
}

#[test]
fn resetting_a_world_respawns_its_players() {
    let mut s = State::new(rng());
    s.add_world(0, World::default());
    s.add_world(1, World::default());
    s.add_player(0, Settings { fastfall_shadow: false }).unwrap();
    s.add_player(1, Settings { fastfall_shadow: false }).unwrap();
    s.add_player(0, Settings { fastfall_shadow: false }).unwrap();
    s.gravity(0);
    s.gravity(1);
    let respawns = s.reset_world(0);
    let ids: Vec<usize> = respawns.iter().map(|r| r.0).collect();
    assert_eq!(ids, vec![0, 2]);
    for (id, shape, pos) in respawns {
        let p = s.player(id).unwrap();
        assert_eq!(p.shape, RotatedShape::new(shape));
        assert_eq!(p.pos, pos);
        assert_eq!(pos.y, 0);
    }
    assert_eq!(s.player(1).unwrap().pos.y, 1);
    assert!(s.reset_world(7).is_empty());
    assert_eq!(s.world(0).map(|w| w.1), Some(false));
}

#[test]
fn inputs_reach_players_of_running_worlds() {
    let mut s = State::new(rng());
    s.add_world(0, World::default());
    s.add_player(0, Settings { fastfall_shadow: false }).unwrap();
    let x = s.player(0).unwrap().pos.x;
    assert_eq!(s.perform_input(0, Input::MoveLeft), Some(TimerAction::Keep));
    assert_eq!(s.player(0).unwrap().pos.x, x - 1);
    assert_eq!(s.perform_input(5, Input::MoveLeft), None);
}

#[test]
fn requests_compare_by_their_fields() {
    let a: Request<u8, u8> = Request::PlayerInput { player: 1, input: Input::FastFall };
    assert_eq!(a, Request::PlayerInput { player: 1, input: Input::FastFall });
    assert_ne!(a, Request::GameQuit);
}

#[test]
fn giving_shapes_and_moving_to_the_top() {
    let mut s = State::new(rng());
    s.add_world(0, World::default());
    s.add_player(0, Settings { fastfall_shadow: false }).unwrap();
    s.gravity(0);
    assert!(s.give_shape(0, Shape::Z));
    assert_eq!(s.player(0).unwrap().shape, RotatedShape::new(Shape::Z));
    assert_eq!(s.player(0).unwrap().pos.y, 1);
    assert!(s.move_to_top(0));
    assert_eq!(s.player(0).unwrap().pos.y, 0);
    assert!(!s.give_shape(4, Shape::I));
    assert!(!s.move_to_top(4));
}

#[test]
fn moving_back_undoes_a_move() {
    let mut w: World<ShapeCell> = World::default();
    w.set_position(Pos { x: 0, y: 10 }, ShapeCell(Some(Shape::I))).unwrap();
    let mut p = player(Shape::L, Pos { x: 3, y: 5 }, true);
    let start = p.clone();
    assert!(move_player(&mut p, &w, Pos { x: -1, y: 0 }));
    assert!(move_player(&mut p, &w, Pos { x: 1, y: 0 }));
    assert_eq!(p.pos, start.pos);
    assert_eq!(p.shape, start.shape);
    // Inputs keep the player clear of the imprinted cells
    for input in [Input::MoveLeft, Input::MoveLeft, Input::MoveLeft, Input::RotateClockwise, Input::FastFall] {
        perform(input, &mut p, &w);
        assert_eq!(w.shape_intersects(&p.shape, p.pos), CellIntersection::NoIntersection);
    }
}

#[test]
fn a_player_far_from_the_world_cannot_move_or_rotate() {
    let w: World<ShapeCell> = World::default();
    let mut p = player(Shape::T, Pos { x: 1000, y: -1000 }, true);
    assert!(!move_player(&mut p, &w, Pos { x: -1, y: 0 }));
    assert_eq!(p.pos, Pos { x: 1000, y: -1000 });
    let turned = p.shape.rotated_clockwise();
    assert!(!resolve_transformed_player(&mut p, turned, &w));
    assert_eq!(p.pos, Pos { x: 1000, y: -1000 });
    assert_eq!(perform(Input::MoveLeft, &mut p, &w), TimerAction::Keep);
    assert_eq!(p.pos, Pos { x: 1000, y: -1000 });
}
