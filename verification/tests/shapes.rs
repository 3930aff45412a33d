use rand::SeedableRng;

use tetr::data::grid::{Grid, Pos, RectangularBound, Size};
use tetr::data::shapes::tetrimino::{RotatedShape, Shape};

fn all_shapes() -> Vec<Shape> {
    vec![Shape::I, Shape::L, Shape::O, Shape::J, Shape::T, Shape::S, Shape::Z]
}

#[test]
fn rotating_back_undoes_a_rotation() {
    for shape in all_shapes() {
        let start = RotatedShape::new(shape);
        for turns in 0..4u8 {
            let s = start.with_rotation(turns);
            assert_eq!(s.rotated_anticlockwise().rotated_clockwise(), s);
            assert_eq!(s.rotated_clockwise().rotated_anticlockwise(), s);
        }
    }
}

#[test]
fn four_quarter_turns_give_the_same_shape() {
    for shape in all_shapes() {
        let s = RotatedShape::new(shape).with_rotation(1);
        let t = s.rotated_anticlockwise().rotated_anticlockwise().rotated_anticlockwise().rotated_anticlockwise();
        assert_eq!(t, s);
    }
}

#[test]
fn rotation_counts_and_sizes() {
    assert_eq!(RotatedShape::new(Shape::I).rotation_count(), 2);
    assert_eq!(RotatedShape::new(Shape::O).rotation_count(), 1);
    assert_eq!(RotatedShape::new(Shape::T).rotation_count(), 4);
    assert_eq!(RotatedShape::new(Shape::S).rotation_count(), 2);
    assert_eq!(RotatedShape::new(Shape::I).dimensions(), Size { x: 4, y: 4 });
    assert_eq!(RotatedShape::new(Shape::O).dimensions(), Size { x: 2, y: 2 });
    assert_eq!(RotatedShape::new(Shape::L).dimensions(), Size { x: 3, y: 3 });
    assert_eq!(RotatedShape::new(Shape::I).center(), Size { x: 2, y: 2 });
    assert_eq!(RotatedShape::new(Shape::O).center_x(), 1);
}

#[test]
fn with_rotation_wraps_around() {
    let t = RotatedShape::new(Shape::T);
    assert_eq!(t.with_rotation(5).rotation(), 1);
    assert_eq!(RotatedShape::new(Shape::I).with_rotation(3).rotation(), 1);
    assert_eq!(t.rotated_clockwise().rotation(), 3);
    assert_eq!(t.rotated_anticlockwise().rotation(), 1);
}

#[test]
fn shape_cells() {
    let (width, cells) = Shape::T.data(0);
    assert_eq!(width, 3);
    assert_eq!(cells, vec![false, false, false, true, true, true, false, true, false]);
    let t = RotatedShape::new(Shape::T);
    assert!(t.filled(1, 2));
    assert!(!t.filled(0, 0));
    assert_eq!(t.pos(Pos { x: 0, y: 1 }), true);
    assert_eq!(t.position(Pos { x: 3, y: 1 }), None);
    assert!(t.is_out_of_bounds(Pos { x: -1, y: 0 }));
    assert_eq!(t.width(), 3);
}

#[test]
fn real_bounds_of_the_occupied_columns() {
    assert_eq!(RotatedShape::new(Shape::I).real_bound_x(), Some((2, 2)));
    assert_eq!(RotatedShape::new(Shape::I).with_rotation(1).real_bound_x(), Some((0, 3)));
    assert_eq!(RotatedShape::new(Shape::O).real_bound_x(), Some((0, 1)));
    assert_eq!(RotatedShape::new(Shape::L).real_bound_x(), Some((1, 2)));
    assert_eq!(RotatedShape::new(Shape::Z).real_bound_x(), Some((1, 2)));
    assert_eq!(RotatedShape::new(Shape::Z).with_rotation(1).real_bound_x(), Some((0, 2)));
}

#[test]
fn rotations_from_the_last_down() {
    let mut it = Shape::L.rotations();
    let mut seen = Vec::new();
    while let Some(s) = it.next() {
        assert_eq!(s.shape(), Shape::L);
        seen.push(s.rotation());
    }
    assert_eq!(seen, vec![3, 2, 1, 0]);
}

#[test]
fn shape_numbers() {
    assert_eq!(Shape::from_u8(0), Some(Shape::I));
    assert_eq!(Shape::from_u8(6), Some(Shape::Z));
    assert_eq!(Shape::from_u8(7), None);
}

#[test]
fn random_shapes_cover_every_shape() {
    let mut rng = rand::rngs::StdRng::seed_from_u64(7);
    let mut seen = Vec::new();
    for _ in 0..500 {
        let s = Shape::rand(&mut rng);
        if !seen.contains(&s) {
            seen.push(s);
        }
    }
    assert_eq!(seen.len(), 7);
}

#[test]
fn rotations_then_nothing() {
    let mut it = Shape::O.rotations();
    assert_eq!(it.next().map(|s| s.rotation()), Some(0));
    assert!(it.next().is_none());
    assert!(it.next().is_none());
}
