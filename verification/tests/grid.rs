use tetr::data::cell::ShapeCell;
use tetr::data::grid::{
    cells_iter, columns_iter, difference, imprint_bool, is_grid_out_of_bounds, is_position_outside_rectangle,
    is_rectangle_outside_rectangle, iter::PositionedCellIter, pos_relative, row, rows_iter, translate, union, Grid, Pos,
    RectangularBound, Size,
};
use tetr::data::shapes::tetrimino::{RotatedShape, Shape};
use tetr::data::world::default::World;
use tetr::data::world::World as WorldTrait;

#[test]
fn positions_and_sizes() {
    let p = Pos { x: 3, y: -2 };
    assert_eq!(p.add(Pos { x: 1, y: 1 }), Pos { x: 4, y: -1 });
    assert_eq!(p.sub(Pos { x: 1, y: 1 }), Pos { x: 2, y: -3 });
    assert_eq!(p.neg(), Pos { x: -3, y: 2 });
    assert_eq!(p.add_size(Size { x: 2, y: 2 }), Pos { x: 5, y: 0 });
    assert_eq!(p.with_x(9), Pos { x: 9, y: -2 });
    assert_eq!(p.with_y(9), Pos { x: 3, y: 9 });
    let s = Size { x: 2, y: 3 };
    assert_eq!(s.add(Size { x: 1, y: 1 }), Size { x: 3, y: 4 });
    assert_eq!(s.sub(Size { x: 1, y: 1 }), Size { x: 1, y: 2 });
    assert_eq!(s.add_pos(Pos { x: -1, y: 1 }), Pos { x: 1, y: 4 });
    let mut q = Pos { x: 1, y: 2 };
    assert_eq!(q.and_then(5, 6), Pos { x: 1, y: 2 });
    assert_eq!(q, Pos { x: 5, y: 6 });
}

#[test]
fn rectangles() {
    let t = RotatedShape::new(Shape::T);
    assert!(!is_position_outside_rectangle(&t, Pos { x: 2, y: 2 }));
    assert!(is_position_outside_rectangle(&t, Pos { x: 3, y: 2 }));
    assert_eq!(t.bounds(), (Pos { x: 0, y: 0 }, Pos { x: 2, y: 2 }));
    assert_eq!(t.size(), Size { x: 3, y: 3 });
    let w: World<ShapeCell> = World::default();
    assert!(!is_rectangle_outside_rectangle(t, w));
}

#[test]
fn a_shape_out_of_a_world() {
    let w: World<ShapeCell> = World::default();
    let t = RotatedShape::new(Shape::T);
    assert!(!is_grid_out_of_bounds(&w, &t));
    let moved = translate::Grid { grid: &t, pos: Pos { x: 0, y: 0 } };
    assert!(!is_grid_out_of_bounds(&w, &moved));
}

#[test]
fn rows_and_columns() {
    let mut w: World<ShapeCell> = World::default();
    w.set_position(Pos { x: 2, y: 5 }, ShapeCell(Some(Shape::S))).unwrap();
    let mut rows = rows_iter::Iter::new(&w);
    assert_eq!(rows.len(), 20);
    let first = rows.next().unwrap();
    assert_eq!(first.y, 0);
    // One cursor: stepping back returns to the row just yielded
    assert_eq!(rows.next_back().unwrap().y, 0);
    assert!(rows.next_back().is_none());
    let mut backwards = rows_iter::Iter::new(&w).reversed();
    assert_eq!(backwards.next_back().unwrap().y, 19);
    assert_eq!(backwards.next().unwrap().y, 19);
    assert_eq!(rows.len(), 20);

    let mut cells = row::Iter::new(row::Grid { grid: &w, y: 5 });
    assert_eq!(cells.len(), 10);
    assert_eq!(cells.next(), Some((0, ShapeCell(None))));
    assert_eq!(cells.next(), Some((1, ShapeCell(None))));
    assert_eq!(cells.next(), Some((2, ShapeCell(Some(Shape::S)))));

    let mut columns = columns_iter::Iter::new(&w);
    assert_eq!(columns.len(), 10);
    assert_eq!(columns.next().unwrap().x, 0);
    let mut down = tetr::data::grid::column::Iter::new(tetr::data::grid::column::Grid { grid: &w, x: 2 });
    for _ in 0..5 {
        assert_eq!(down.next().unwrap().1, ShapeCell(None));
    }
    assert_eq!(down.next(), Some((5, ShapeCell(Some(Shape::S)))));
}

#[test]
fn iterating_every_cell() {
    let o = RotatedShape::new(Shape::O);
    let mut it = cells_iter::Iter::new(&o);
    let mut n = 0;
    while let Some((_, cell)) = it.next() {
        assert!(cell);
        n += 1;
    }
    assert_eq!(n, 4);
    let t = RotatedShape::new(Shape::T);
    let mut it = PositionedCellIter::new(&t);
    assert_eq!(it.next(), Some((Size { x: 0, y: 0 }, false)));
    assert_eq!(it.next(), Some((Size { x: 1, y: 0 }, false)));
    assert_eq!(it.next(), Some((Size { x: 2, y: 0 }, false)));
    assert_eq!(it.next(), Some((Size { x: 0, y: 1 }, true)));
}

#[test]
fn combined_grids() {
    let mut w: World<ShapeCell> = World::default();
    w.set_position(Pos { x: 0, y: 0 }, ShapeCell(Some(Shape::I))).unwrap();
    let t = RotatedShape::new(Shape::T);
    let shifted = translate::Grid { grid: &t, pos: Pos { x: -4, y: -4 } };
    assert_eq!(shifted.position(Pos { x: 4, y: 5 }), Some(true));
    assert_eq!(shifted.position(Pos { x: 0, y: 0 }), None);
    let both = imprint_bool::Grid { a: &w, b: &shifted };
    assert_eq!(both.pos(Pos { x: 0, y: 0 }), true);
    assert_eq!(both.pos(Pos { x: 5, y: 5 }), true);
    assert_eq!(both.pos(Pos { x: 5, y: 4 }), false);
    let o = RotatedShape::new(Shape::O);
    let diff = difference::Grid { a: &o, b: &t };
    assert_eq!(diff.pos(Pos { x: 0, y: 0 }), true);
    assert_eq!(diff.pos(Pos { x: 0, y: 1 }), false);
    let mut v: World<ShapeCell> = World::default();
    v.set_position(Pos { x: 1, y: 1 }, ShapeCell(Some(Shape::Z))).unwrap();
    let u = union::Grid { a: &w, b: &v, b_x: 1, b_y: 1 };
    assert_eq!(u.pos(Pos { x: 0, y: 0 }), ShapeCell(Some(Shape::I)));
    assert_eq!(u.pos(Pos { x: 0, y: 1 }), ShapeCell(None));
    assert_eq!(u.pos(Pos { x: 0, y: 0 }), ShapeCell(Some(Shape::I)));
    let u2 = union::Grid { a: &v, b: &w, b_x: -1, b_y: -1 };
    assert_eq!(u2.pos(Pos { x: 1, y: 1 }), ShapeCell(Some(Shape::Z)));
    assert_eq!(u2.pos(Pos { x: 2, y: 2 }), ShapeCell(None));
}

#[test]
fn cells_relative_to_the_rectangle() {
    let t = RotatedShape::new(Shape::T);
    assert_eq!(pos_relative(&t, Pos { x: 0, y: 1 }), true);
    assert_eq!(pos_relative(&t, Pos { x: 0, y: 0 }), false);
    let mut w: World<ShapeCell> = World::default();
    w.set_position(Pos { x: 3, y: 2 }, ShapeCell(Some(Shape::L))).unwrap();
    assert_eq!(pos_relative(&w, Pos { x: 3, y: 2 }), ShapeCell(Some(Shape::L)));
}

#[test]
fn rectangles_sharing_a_column_are_not_outside_each_other() {
    let w: World<ShapeCell> = World::default();
    let c0 = tetr::data::grid::column::Grid { grid: &w, x: 0 };
    assert!(!is_rectangle_outside_rectangle(c0, c0));
    let t = RotatedShape::new(Shape::T);
    assert!(!is_rectangle_outside_rectangle(t, c0));
    assert!(!is_rectangle_outside_rectangle(t, translate::Grid { grid: &t, pos: Pos { x: 2, y: 0 } }));
    assert!(is_rectangle_outside_rectangle(t, translate::Grid { grid: &t, pos: Pos { x: 3, y: 0 } }));
    assert!(is_rectangle_outside_rectangle(translate::Grid { grid: &t, pos: Pos { x: 0, y: -3 } }, t));
}

#[test]
fn occupied_cells_out_of_another_grid() {
    let t = RotatedShape::new(Shape::T);
    let mut w: World<ShapeCell> = World::default();
    assert!(!is_grid_out_of_bounds(&t, &w));
    w.set_position(Pos { x: 1, y: 1 }, ShapeCell(Some(Shape::S))).unwrap();
    assert!(!is_grid_out_of_bounds(&t, &w));
    w.set_position(Pos { x: 5, y: 5 }, ShapeCell(Some(Shape::S))).unwrap();
    assert!(is_grid_out_of_bounds(&t, &w));
}

#[test]
fn positioned_cells_in_row_major_order_then_nothing() {
    let t = RotatedShape::new(Shape::T);
    let mut it = PositionedCellIter::new(&t);
    let mut seen = Vec::new();
    while let Some((s, _)) = it.next() {
        seen.push((s.x, s.y));
    }
    let expected: Vec<(u8, u8)> = (0..9u8).map(|i| (i % 3, i / 3)).collect();
    assert_eq!(seen, expected);
    assert_eq!(it.next(), None);
    assert_eq!(it.next(), None);
}

#[test]
fn reversed_rows_from_the_last_up() {
    let w: World<ShapeCell> = World::default();
    let mut it = rows_iter::Iter::new(&w).reversed();
    let mut ys = Vec::new();
    while let Some(r) = it.next_back() {
        ys.push(r.y);
    }
    assert_eq!(ys, (0..20u8).rev().collect::<Vec<u8>>());
    assert!(rows_iter::Iter::new(&w).reversed().next().is_none());
}

#[test]
fn cells_in_row_major_order_each_once_then_nothing() {
    let t = RotatedShape::new(Shape::T);
    let mut it = cells_iter::Iter::new(&t);
    let mut seen = Vec::new();
    while let Some((p, _)) = it.next() {
        seen.push((p.x, p.y));
    }
    let expected: Vec<(i16, i16)> = (0..9i16).map(|i| (i % 3, i / 3)).collect();
    assert_eq!(seen, expected);
    assert!(it.next().is_none());
    assert!(it.next().is_none());
}
