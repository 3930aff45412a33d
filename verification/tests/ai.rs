use tetr::controller::ai::bruteforce::{event_response, EventKind, EventResponse};
use tetr::controller::ai::bruteforce::{
    move_step, optimal_target, rotate_step, world_metrics, world_optimality, world_optimality2, Pace, Target,
    WorldMetrics,
};
use tetr::controller::ai::fill_one::{is_shape_inside, lightest_target, map_optimality};
use tetr::data::cell::ShapeCell;
use tetr::data::grid::Pos;
use tetr::data::shapes::tetrimino::{RotatedShape, Shape};
use tetr::data::world::default::World;
use tetr::data::world::World as WorldTrait;
use tetr::game::data::Input;

fn cell() -> ShapeCell {
    ShapeCell(Some(Shape::J))
}

#[test]
fn an_empty_world_measures_nothing() {
    let w: World<ShapeCell> = World::default();
    assert_eq!(
        world_metrics(&w),
        WorldMetrics { rows_completed: 0, columns_height_sum: 0, cells_vertically_blocked_penalty: 0, height_bumpiness: 0 }
    );
    assert_eq!(world_optimality2(&w), 0);
    assert_eq!(world_optimality(&w), 0);
    assert_eq!(map_optimality(&w), 0);
}

#[test]
fn heights_holes_and_bumps() {
    let mut w: World<ShapeCell> = World::default();
    w.set_position(Pos { x: 0, y: 19 }, cell()).unwrap();
    assert_eq!(
        world_metrics(&w),
        WorldMetrics { rows_completed: 0, columns_height_sum: 1, cells_vertically_blocked_penalty: 0, height_bumpiness: 1 }
    );
    assert_eq!(world_optimality2(&w), -10);
    assert_eq!(world_optimality(&w), -3);
    assert_eq!(map_optimality(&w), 3);

    w.set_position(Pos { x: 0, y: 17 }, cell()).unwrap();
    assert_eq!(
        world_metrics(&w),
        WorldMetrics { rows_completed: 0, columns_height_sum: 3, cells_vertically_blocked_penalty: 3, height_bumpiness: 3 }
    );
    assert_eq!(world_optimality2(&w), -51);
    assert_eq!(world_optimality(&w), -52);
    assert_eq!(map_optimality(&w), 52);
}

#[test]
fn completed_rows_count_for_and_bumps_beyond_eight_against() {
    let mut w: World<ShapeCell> = World::default();
    for x in 0..10 {
        w.set_position(Pos { x, y: 19 }, cell()).unwrap();
    }
    for y in 10..19 {
        w.set_position(Pos { x: 9, y }, cell()).unwrap();
    }
    let m = world_metrics(&w);
    assert_eq!(m.rows_completed, 1);
    assert_eq!(m.columns_height_sum, 9 + 10);
    assert_eq!(m.height_bumpiness, 9);
    assert_eq!(m.cells_vertically_blocked_penalty, 0);
    assert_eq!(world_optimality2(&w), 5 - 190 - 6);
}

#[test]
fn the_map_optimality_is_the_opposite_of_the_world_optimality() {
    let mut w: World<ShapeCell> = World::default();
    for (x, y) in [(1, 19), (1, 15), (4, 18), (7, 3), (9, 19)] {
        w.set_position(Pos { x, y }, cell()).unwrap();
    }
    assert_eq!(map_optimality(&w) as i64, -world_optimality(&w));
}

#[test]
fn the_first_best_placement_is_the_target() {
    let w: World<ShapeCell> = World::default();
    assert_eq!(optimal_target(&w, Shape::O, Pos { x: 4, y: 0 }), Some(Target { pos: Pos { x: 0, y: 18 }, rotation: 0 }));
    assert_eq!(optimal_target(&w, Shape::I, Pos { x: 3, y: 0 }), Some(Target { pos: Pos { x: 0, y: 17 }, rotation: 1 }));
}

#[test]
fn the_target_avoids_holes() {
    let mut w: World<ShapeCell> = World::default();
    for x in 0..10 {
        if x != 6 && x != 7 {
            w.set_position(Pos { x, y: 19 }, cell()).unwrap();
        }
    }
    // The O fills the gap and completes the bottom row
    assert_eq!(optimal_target(&w, Shape::O, Pos { x: 4, y: 0 }), Some(Target { pos: Pos { x: 6, y: 18 }, rotation: 0 }));
}

#[test]
fn the_controller_moves_then_falls() {
    let target = Target { pos: Pos { x: 2, y: 17 }, rotation: 1 };
    assert_eq!(move_step(5, 0, target), Some((Input::MoveLeft, Pace::Move)));
    assert_eq!(move_step(0, 0, target), Some((Input::MoveRight, Pace::Move)));
    assert_eq!(move_step(2, 0, target), None);
    assert_eq!(move_step(2, 1, target), Some((Input::SlowFall, Pace::Fall)));
    assert_eq!(rotate_step(0, target), Some(Input::RotateAntiClockwise));
    assert_eq!(rotate_step(1, target), None);
}

#[test]
fn the_lightest_placement_is_the_new_shapes_target() {
    let mut w: World<ShapeCell> = World::default();
    assert_eq!(lightest_target(&w, Shape::O, Pos { x: 4, y: 0 }), Some(Target { pos: Pos { x: 0, y: 18 }, rotation: 0 }));
    for x in 0..10 {
        if x != 6 && x != 7 {
            w.set_position(Pos { x, y: 19 }, cell()).unwrap();
        }
    }
    assert_eq!(lightest_target(&w, Shape::O, Pos { x: 4, y: 0 }), Some(Target { pos: Pos { x: 6, y: 18 }, rotation: 0 }));
}

#[test]
fn shapes_inside_the_world() {
    let w: World<ShapeCell> = World::default();
    let i = RotatedShape::new(Shape::I);
    assert!(is_shape_inside(&w, &i, Pos { x: -2, y: 0 }));
    assert!(!is_shape_inside(&w, &i, Pos { x: -3, y: 0 }));
    assert!(!is_shape_inside(&w, &i, Pos { x: 0, y: 17 }));
    assert!(is_shape_inside(&w, &i, Pos { x: 0, y: 16 }));
}

#[test]
fn the_computer_player_reacts_to_its_own_player_only() {
    assert_eq!(event_response(EventKind::PlayerAdded, 1, 1), EventResponse { reset_target: true, reset_timers: false });
    assert_eq!(event_response(EventKind::PlayerChangedShape, 1, 1), EventResponse { reset_target: true, reset_timers: true });
    assert_eq!(event_response(EventKind::PlayerChangedShape, 0, 1), EventResponse { reset_target: false, reset_timers: false });
    assert_eq!(event_response(EventKind::Other, 1, 1), EventResponse { reset_target: false, reset_timers: false });
}
