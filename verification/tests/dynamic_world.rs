use tetr::data::cell::ShapeCell;
use tetr::data::grid::{Grid, Pos, RectangularBound};
use tetr::data::shapes::tetrimino::{RotatedShape, Shape};
use tetr::data::world::dynamic::World;
use tetr::data::world::{CellIntersection, World as WorldTrait};

fn mark(n: u8) -> ShapeCell {
    ShapeCell(Shape::from_u8(n))
}

/// A world of width 2 whose row `y` holds `mark(y % 7)` in its first column
fn numbered(height: u8) -> World<ShapeCell> {
    let mut w = World::new(2, height);
    for y in 0..height {
        w.set_position(Pos { x: 0, y: y as i16 }, mark(y % 7)).unwrap();
    }
    w
}

#[test]
fn a_new_dynamic_world_has_its_size_and_is_empty() {
    let w: World<ShapeCell> = World::new(3, 4);
    assert_eq!(w.width(), 3);
    assert_eq!(w.height(), 4);
    for y in 0..4 {
        for x in 0..3 {
            assert_eq!(w.pos(Pos { x, y }), ShapeCell(None));
        }
    }
    assert!(w.is_out_of_bounds(Pos { x: 3, y: 0 }));
    assert!(w.is_out_of_bounds(Pos { x: 0, y: 4 }));
}

#[test]
fn dynamic_world_read_after_write() {
    let mut w: World<ShapeCell> = World::new(3, 4);
    assert_eq!(w.set_position(Pos { x: 2, y: 3 }, mark(1)), Ok(()));
    assert_eq!(w.position(Pos { x: 2, y: 3 }), Some(mark(1)));
    assert_eq!(w.position(Pos { x: 1, y: 3 }), Some(ShapeCell(None)));
    assert_eq!(w.set_position(Pos { x: 3, y: 3 }, mark(1)), Err(()));
}

#[test]
fn clearing_rows() {
    let mut w = numbered(5);
    w.clear_rows(1..3);
    assert_eq!(w.pos(Pos { x: 0, y: 0 }), mark(0));
    assert_eq!(w.pos(Pos { x: 0, y: 1 }), ShapeCell(None));
    assert_eq!(w.pos(Pos { x: 0, y: 2 }), ShapeCell(None));
    assert_eq!(w.pos(Pos { x: 0, y: 3 }), mark(3));
}

#[test]
fn moving_rows_down_clears_the_rows_left_behind() {
    let mut w = numbered(7);
    w.move_rows(1..4, 2);
    assert_eq!(w.pos(Pos { x: 0, y: 0 }), mark(0));
    assert_eq!(w.pos(Pos { x: 0, y: 1 }), ShapeCell(None));
    assert_eq!(w.pos(Pos { x: 0, y: 2 }), ShapeCell(None));
    assert_eq!(w.pos(Pos { x: 0, y: 3 }), mark(1));
    assert_eq!(w.pos(Pos { x: 0, y: 4 }), mark(2));
    assert_eq!(w.pos(Pos { x: 0, y: 5 }), mark(3));
    assert_eq!(w.pos(Pos { x: 0, y: 6 }), mark(6));
}

#[test]
fn moving_rows_up_past_themselves() {
    let mut w = numbered(7);
    w.move_rows(4..6, -3);
    assert_eq!(w.pos(Pos { x: 0, y: 1 }), mark(4));
    assert_eq!(w.pos(Pos { x: 0, y: 2 }), mark(5));
    assert_eq!(w.pos(Pos { x: 0, y: 3 }), mark(3));
    assert_eq!(w.pos(Pos { x: 0, y: 4 }), ShapeCell(None));
    assert_eq!(w.pos(Pos { x: 0, y: 5 }), ShapeCell(None));
    assert_eq!(w.pos(Pos { x: 0, y: 6 }), mark(6));
}

#[test]
fn full_rows_of_a_dynamic_world() {
    let mut w: World<ShapeCell> = World::new(2, 4);
    w.set_position(Pos { x: 0, y: 3 }, mark(1)).unwrap();
    w.set_position(Pos { x: 1, y: 3 }, mark(1)).unwrap();
    w.set_position(Pos { x: 1, y: 2 }, mark(2)).unwrap();
    assert_eq!(w.handle_full_rows(2..4), 1);
    assert_eq!(w.pos(Pos { x: 1, y: 3 }), mark(2));
    assert_eq!(w.pos(Pos { x: 0, y: 3 }), ShapeCell(None));
    assert_eq!(w.pos(Pos { x: 1, y: 2 }), ShapeCell(None));
}

#[test]
fn shapes_in_a_dynamic_world() {
    let mut w: World<ShapeCell> = World::new(4, 4);
    let o = RotatedShape::new(Shape::O);
    assert_eq!(w.shape_intersects(&o, Pos { x: 2, y: 2 }), CellIntersection::NoIntersection);
    assert_eq!(w.shape_intersects(&o, Pos { x: 3, y: 2 }), CellIntersection::OutOfBounds(Pos { x: 4, y: 2 }));
    w.imprint_shape(&o, Pos { x: 2, y: 2 }, mark(2));
    assert_eq!(w.shape_intersects(&o, Pos { x: 1, y: 1 }), CellIntersection::Imprint(Pos { x: 2, y: 2 }));
    w.clear();
    assert_eq!(w.pos(Pos { x: 3, y: 3 }), ShapeCell(None));
}

#[test]
fn a_dynamic_world_without_rows() {
    let w: World<ShapeCell> = World::new(3, 0);
    assert_eq!(w.width(), 3);
    assert_eq!(w.height(), 0);
    assert!(w.is_out_of_bounds(Pos { x: 0, y: 0 }));
}
