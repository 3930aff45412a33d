use tetr::data::cell::{Cell, ShapeCell};
use tetr::data::grid::occupancy::GridSerializer;
use tetr::data::grid::printer::OccupyPrinter;
use tetr::data::grid::{Grid, Pos, RectangularBound};
use tetr::data::shapes::tetrimino::{RotatedShape, Shape};
use tetr::data::world::default::World;
use tetr::data::world::{shape_intersects, CellIntersection, World as WorldTrait};

fn filled() -> ShapeCell {
    ShapeCell(Some(Shape::I))
}

fn empty() -> ShapeCell {
    ShapeCell(None)
}

#[test]
fn a_new_world_is_empty() {
    let w: World<ShapeCell> = World::default();
    assert_eq!(w.width(), 10);
    assert_eq!(w.height(), 20);
    for y in 0..20 {
        for x in 0..10 {
            assert_eq!(w.pos(Pos { x, y }), empty());
        }
    }
}

#[test]
fn read_after_write() {
    let mut w: World<ShapeCell> = World::default();
    assert_eq!(w.set_position(Pos { x: 3, y: 7 }, filled()), Ok(()));
    assert_eq!(w.position(Pos { x: 3, y: 7 }), Some(filled()));
    assert_eq!(w.position(Pos { x: 4, y: 7 }), Some(empty()));
    assert_eq!(w.set_position(Pos { x: 10, y: 7 }, filled()), Err(()));
    assert_eq!(w.set_position(Pos { x: 0, y: -1 }, filled()), Err(()));
    assert_eq!(w.position(Pos { x: -1, y: 0 }), None);
}

#[test]
fn clearing_empties_every_cell() {
    let mut w: World<ShapeCell> = World::default();
    w.set_position(Pos { x: 0, y: 0 }, filled()).unwrap();
    w.set_position(Pos { x: 9, y: 19 }, filled()).unwrap();
    w.clear();
    assert_eq!(w.pos(Pos { x: 0, y: 0 }), empty());
    assert_eq!(w.pos(Pos { x: 9, y: 19 }), empty());
}

#[test]
fn an_imprinted_shape_collides_where_it_was_imprinted() {
    let mut w: World<ShapeCell> = World::default();
    let t = RotatedShape::new(Shape::T);
    let at = Pos { x: 2, y: 5 };
    assert_eq!(w.shape_intersects(&t, at), CellIntersection::NoIntersection);
    w.imprint_shape(&t, at, ShapeCell(Some(Shape::T)));
    // T in its first rotation occupies (0,1), (1,1), (2,1) and (1,2)
    assert_eq!(w.pos(Pos { x: 2, y: 6 }), ShapeCell(Some(Shape::T)));
    assert_eq!(w.pos(Pos { x: 4, y: 6 }), ShapeCell(Some(Shape::T)));
    assert_eq!(w.pos(Pos { x: 3, y: 7 }), ShapeCell(Some(Shape::T)));
    assert_eq!(w.pos(Pos { x: 2, y: 5 }), empty());
    assert_eq!(w.shape_intersects(&t, at), CellIntersection::Imprint(Pos { x: 2, y: 6 }));
}

#[test]
fn shapes_out_of_the_world_intersect_its_bounds() {
    let w: World<ShapeCell> = World::default();
    let o = RotatedShape::new(Shape::O);
    assert_eq!(w.shape_intersects(&o, Pos { x: -1, y: 0 }), CellIntersection::OutOfBounds(Pos { x: -1, y: 0 }));
    assert_eq!(w.shape_intersects(&o, Pos { x: 9, y: 0 }), CellIntersection::OutOfBounds(Pos { x: 10, y: 0 }));
    assert_eq!(shape_intersects(&w, &o, Pos { x: 0, y: 19 }), CellIntersection::OutOfBounds(Pos { x: 0, y: 20 }));
    assert_eq!(shape_intersects(&w, &o, Pos { x: 8, y: 18 }), CellIntersection::NoIntersection);
}

#[test]
fn imprinting_skips_the_cells_outside() {
    let mut w: World<ShapeCell> = World::default();
    let o = RotatedShape::new(Shape::O);
    w.imprint_shape(&o, Pos { x: 9, y: -1 }, filled());
    assert_eq!(w.pos(Pos { x: 9, y: 0 }), filled());
    assert_eq!(w.pos(Pos { x: 8, y: 0 }), empty());
}

#[test]
fn full_rows_are_removed_and_the_rows_above_fall() {
    let mut w: World<ShapeCell> = World::default();
    for x in 0..10 {
        w.set_position(Pos { x, y: 19 }, filled()).unwrap();
        w.set_position(Pos { x, y: 17 }, filled()).unwrap();
    }
    w.set_position(Pos { x: 3, y: 18 }, ShapeCell(Some(Shape::O))).unwrap();
    w.set_position(Pos { x: 5, y: 16 }, ShapeCell(Some(Shape::L))).unwrap();
    let removed = w.handle_full_rows(16..20);
    assert_eq!(removed, 2);
    assert_eq!(w.pos(Pos { x: 3, y: 19 }), ShapeCell(Some(Shape::O)));
    assert_eq!(w.pos(Pos { x: 5, y: 18 }), ShapeCell(Some(Shape::L)));
    for x in 0..10 {
        if x != 3 {
            assert_eq!(w.pos(Pos { x, y: 19 }), empty());
        }
        assert_eq!(w.pos(Pos { x, y: 17 }), empty());
    }
}

#[test]
fn rows_outside_the_checked_range_stay() {
    let mut w: World<ShapeCell> = World::default();
    for x in 0..10 {
        w.set_position(Pos { x, y: 19 }, filled()).unwrap();
    }
    assert_eq!(w.handle_full_rows(10..19), 0);
    assert_eq!(w.pos(Pos { x: 0, y: 19 }), filled());
}

#[test]
fn copying_and_moving_rows() {
    let mut w: World<ShapeCell> = World::default();
    w.set_position(Pos { x: 2, y: 4 }, filled()).unwrap();
    w.copy_row(4, 10);
    assert_eq!(w.pos(Pos { x: 2, y: 10 }), filled());
    assert_eq!(w.pos(Pos { x: 2, y: 4 }), filled());
    w.move_row(10, 12);
    assert_eq!(w.pos(Pos { x: 2, y: 12 }), filled());
    assert_eq!(w.pos(Pos { x: 2, y: 10 }), empty());
    w.clear_row(4);
    assert_eq!(w.pos(Pos { x: 2, y: 4 }), empty());
}

#[test]
fn occupied_cells_print_as_hashes() {
    let mut w: World<ShapeCell> = World::default();
    w.set_position(Pos { x: 0, y: 19 }, filled()).unwrap();
    w.set_position(Pos { x: 9, y: 0 }, filled()).unwrap();
    let text = OccupyPrinter(&w).render();
    let lines: Vec<&str> = text.lines().collect();
    assert_eq!(lines.len(), 20);
    assert_eq!(lines[0], "---------#");
    assert_eq!(lines[19], "#---------");
    assert_eq!(lines[5], "----------");
    assert!(text.ends_with('\n'));
}

#[test]
fn shape_cells_are_occupied_or_not() {
    assert!(ShapeCell(Some(Shape::S)).is_occupied());
    assert!(ShapeCell::empty().is_empty());
    assert!(true.is_occupied());
    assert!(!bool::empty());
}

#[test]
fn a_grid_is_written_as_its_size_and_its_occupied_cells() {
    let t = RotatedShape::new(Shape::T);
    let (size, flags) = GridSerializer::new(&t).occupancy();
    assert_eq!((size.x, size.y), (3, 3));
    assert_eq!(flags, vec![false, false, false, true, true, true, false, true, false]);
    let mut w: World<ShapeCell> = World::default();
    w.set_position(Pos { x: 1, y: 0 }, filled()).unwrap();
    let (size, flags) = GridSerializer::new(&w).occupancy();
    assert_eq!((size.x, size.y), (10, 20));
    assert_eq!(flags.len(), 200);
    assert!(flags[1]);
    assert_eq!(flags.iter().filter(|f| **f).count(), 1);
}
