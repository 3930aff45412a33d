//! A basic tetrimino shape (4 blocks)

use vstd::prelude::*;

use crate::data::grid::{self, Grid, Pos, RectangularBound, Size, SizeAxis};

verus! {

/// All possible tetrimino shapes
#[derive(Copy, Clone, PartialEq, Eq, Debug, Structural)]
pub enum Shape {
    I,
    L,
    O,
    J,
    T,
    S,
    Z,
}

/// Number of possible tetrimino shapes
pub const SHAPE_COUNT: u8 = 7;

impl Shape {
    /// The shape's number, in declaration order
    pub open spec fn number(self) -> u8 {
        match self {
            Shape::I => 0,
            Shape::L => 1,
            Shape::O => 2,
            Shape::J => 3,
            Shape::T => 4,
            Shape::S => 5,
            Shape::Z => 6,
        }
    }

    /// Number of distinct rotations of the shape
    pub open spec fn rotation_count_spec(self) -> u8 {
        match self {
            Shape::I => 2,
            Shape::L => 4,
            Shape::O => 1,
            Shape::J => 4,
            Shape::T => 4,
            Shape::S => 2,
            Shape::Z => 2,
        }
    }

    /// Width and height in blocks
    pub open spec fn size_spec(self) -> Size {
        match self {
            Shape::I => Size { x: 4, y: 4 },
            Shape::O => Size { x: 2, y: 2 },
            _ => Size { x: 3, y: 3 },
        }
    }

    /// The shape with the given number, if there is one
    pub fn from_u8(n: u8) -> (r: Option<Shape>)
        ensures
            r is Some <==> n < SHAPE_COUNT,
            r matches Some(s) ==> s.number() == n,
    {
        match n {
            0 => Some(Shape::I),
            1 => Some(Shape::L),
            2 => Some(Shape::O),
            3 => Some(Shape::J),
            4 => Some(Shape::T),
            5 => Some(Shape::S),
            6 => Some(Shape::Z),
            _ => None,
        }
    }

    /// The cells of every rotation, row by row (`width * height` cells each)
    pub open spec fn cells_spec(self, rotation: int) -> Seq<bool> {
        match self {
            Shape::I => {
                if rotation == 0 {
                    seq![false, false, true, false, false, false, true, false, false, false, true, false, false, false, true, false]
                } else {
                    seq![false, false, false, false, false, false, false, false, true, true, true, true, false, false, false, false]
                }
            },
            Shape::L => {
                if rotation == 0 {
                    seq![false, true, false, false, true, false, false, true, true]
                } else if rotation == 1 {
                    seq![false, false, false, true, true, true, true, false, false]
                } else if rotation == 2 {
                    seq![true, true, false, false, true, false, false, true, false]
                } else {
                    seq![false, false, true, true, true, true, false, false, false]
                }
            },
            Shape::O => {
                seq![true, true, true, true]
            },
            Shape::J => {
                if rotation == 0 {
                    seq![false, true, false, false, true, false, true, true, false]
                } else if rotation == 1 {
                    seq![true, false, false, true, true, true, false, false, false]
                } else if rotation == 2 {
                    seq![false, true, true, false, true, false, false, true, false]
                } else {
                    seq![false, false, false, true, true, true, false, false, true]
                }
            },
            Shape::T => {
                if rotation == 0 {
                    seq![false, false, false, true, true, true, false, true, false]
                } else if rotation == 1 {
                    seq![false, true, false, true, true, false, false, true, false]
                } else if rotation == 2 {
                    seq![false, true, false, true, true, true, false, false, false]
                } else {
                    seq![false, true, false, false, true, true, false, true, false]
                }
            },
            Shape::S => {
                if rotation == 0 {
                    seq![false, true, false, false, true, true, false, false, true]
                } else {
                    seq![false, false, false, false, true, true, true, true, false]
                }
            },
            Shape::Z => {
                if rotation == 0 {
                    seq![false, false, true, false, true, true, false, true, false]
                } else {
                    seq![false, false, false, true, true, false, false, true, true]
                }
            },
        }
    }

    /// Returns the width of the tetrimino shape's data and its cells (row by row) in the
    /// given rotation
    pub fn data(self, rotation: u8) -> (r: (SizeAxis, Vec<bool>))
        requires
            rotation < self.rotation_count_spec(),
        ensures
            r.0 == self.size_spec().x,
            r.1@ == self.cells_spec(rotation as int),
    {
        match self {
            Shape::I => {
                if rotation == 0 {
                    (4, vec![false, false, true, false, false, false, true, false, false, false, true, false, false, false, true, false])
                } else {
                    (4, vec![false, false, false, false, false, false, false, false, true, true, true, true, false, false, false, false])
                }
            },
            Shape::L => {
                if rotation == 0 {
                    (3, vec![false, true, false, false, true, false, false, true, true])
                } else if rotation == 1 {
                    (3, vec![false, false, false, true, true, true, true, false, false])
                } else if rotation == 2 {
                    (3, vec![true, true, false, false, true, false, false, true, false])
                } else {
                    (3, vec![false, false, true, true, true, true, false, false, false])
                }
            },
            Shape::O => {
                (2, vec![true, true, true, true])
            },
            Shape::J => {
                if rotation == 0 {
                    (3, vec![false, true, false, false, true, false, true, true, false])
                } else if rotation == 1 {
                    (3, vec![true, false, false, true, true, true, false, false, false])
                } else if rotation == 2 {
                    (3, vec![false, true, true, false, true, false, false, true, false])
                } else {
                    (3, vec![false, false, false, true, true, true, false, false, true])
                }
            },
            Shape::T => {
                if rotation == 0 {
                    (3, vec![false, false, false, true, true, true, false, true, false])
                } else if rotation == 1 {
                    (3, vec![false, true, false, true, true, false, false, true, false])
                } else if rotation == 2 {
                    (3, vec![false, true, false, true, true, true, false, false, false])
                } else {
                    (3, vec![false, true, false, false, true, true, false, true, false])
                }
            },
            Shape::S => {
                if rotation == 0 {
                    (3, vec![false, true, false, false, true, true, false, false, true])
                } else {
                    (3, vec![false, false, false, false, true, true, true, true, false])
                }
            },
            Shape::Z => {
                if rotation == 0 {
                    (3, vec![false, false, true, false, true, true, false, true, false])
                } else {
                    (3, vec![false, false, false, true, true, false, false, true, true])
                }
            },
        }
    }

    /// Every rotation has exactly `width * height` cells
    pub proof fn lemma_cells_len(self, rotation: int)
        ensures
            self.cells_spec(rotation).len() == self.size_spec().x * self.size_spec().y,
    {
        match self {
            Shape::I => {
                assert(self.cells_spec(rotation).len() == 16);
                assert(self.size_spec().x == 4 && self.size_spec().y == 4);
                assert(self.size_spec().x * self.size_spec().y == 16) by (nonlinear_arith)
                    requires
                        self.size_spec().x == 4 && self.size_spec().y == 4,
                ;
            },
            Shape::O => {
                assert(self.cells_spec(rotation).len() == 4);
                assert(self.size_spec().x == 2 && self.size_spec().y == 2);
                assert(self.size_spec().x * self.size_spec().y == 4) by (nonlinear_arith)
                    requires
                        self.size_spec().x == 2 && self.size_spec().y == 2,
                ;
            },
            _ => {
                assert(self.cells_spec(rotation).len() == 9);
                assert(self.size_spec().x == 3 && self.size_spec().y == 3);
                assert(self.size_spec().x * self.size_spec().y == 9) by (nonlinear_arith)
                    requires
                        self.size_spec().x == 3 && self.size_spec().y == 3,
                ;
            },
        }
    }

    /// Returns the number of rotations for the current shape
    fn rotation_count(self) -> (r: u8)
        ensures
            r == self.rotation_count_spec(),
    {
        match self {
            Shape::I => 2,
            Shape::L => 4,
            Shape::O => 1,
            Shape::J => 4,
            Shape::T => 4,
            Shape::S => 2,
            Shape::Z => 2,
        }
    }

    /// Returns the width and height in blocks
    fn size(self) -> (r: Size)
        ensures
            r == self.size_spec(),
    {
        match self {
            Shape::I => Size { x: 4, y: 4 },
            Shape::L => Size { x: 3, y: 3 },
            Shape::O => Size { x: 2, y: 2 },
            Shape::J => Size { x: 3, y: 3 },
            Shape::T => Size { x: 3, y: 3 },
            Shape::S => Size { x: 3, y: 3 },
            Shape::Z => Size { x: 3, y: 3 },
        }
    }

    /// Iterator over every rotation of the shape, from the last rotation down to the initial one
    pub fn rotations(self) -> (r: ShapeRotations)
        ensures
            r.kind() == self,
            r.left() == self.rotation_count_spec(),
    {
        ShapeRotations { shape: self, remaining: self.rotation_count() }
    }

    /// A shape drawn uniformly at random by `rng`
    pub fn rand(rng: &mut rand::rngs::StdRng) -> (r: Shape) {
        let n = crate::gen_range_u8(rng, 0, SHAPE_COUNT);
        Shape::from_u8(n).unwrap()
    }
}

/// Whether the cell in column `x` of row `y` is filled in the shape's rotation `r`, as laid
/// out row by row by `data`
pub open spec fn cell_filled(s: Shape, r: int, x: int, y: int) -> bool {
    s.cells_spec(r)[x + y * s.size_spec().x]
}

/// Each rotation of a shape is the previous one turned clockwise by a quarter: the cell in
/// column `x` of row `y` is filled exactly when the cell in column `y` of row `n - 1 - x` was
/// (`n` the side of the shape's square); for the shapes with four rotations the first one is
/// again the last one turned
#[verifier::spinoff_prover]
pub proof fn law_rotation_turns_clockwise(s: Shape, r: int, x: int, y: int)
    requires
        0 <= r < s.rotation_count_spec(),
        r + 1 < s.rotation_count_spec() || s.rotation_count_spec() == 4,
        0 <= x < s.size_spec().x,
        0 <= y < s.size_spec().y,
    ensures
        cell_filled(s, (r + 1) % (s.rotation_count_spec() as int), x, y) == cell_filled(
            s,
            r,
            y,
            s.size_spec().x - 1 - x,
        ),
{
    assert(x == 0 || x == 1 || x == 2 || x == 3);
    assert(y == 0 || y == 1 || y == 2 || y == 3);
    assert(r == 0 || r == 1 || r == 2 || r == 3);
}

/// J is L mirrored left to right: the cell in column `x` of J's rotation `r` is filled
/// exactly when the cell in column `2 - x` of the same row is in L's rotation `-r` (turning
/// one way in the mirror is turning the other way)
#[verifier::spinoff_prover]
pub proof fn law_j_mirrors_l(r: int, x: int, y: int)
    requires
        0 <= r < 4,
        0 <= x < 3,
        0 <= y < 3,
    ensures
        cell_filled(Shape::J, r, x, y) == cell_filled(Shape::L, (4 - r) % 4, 2 - x, y),
{
    assert(x == 0 || x == 1 || x == 2);
    assert(y == 0 || y == 1 || y == 2);
    assert(r == 0 || r == 1 || r == 2 || r == 3);
}

/// The number of filled cells from index `i` on
pub open spec fn filled_count_from(cells: Seq<bool>, i: int) -> int
    decreases cells.len() - i,
{
    if i < 0 || i >= cells.len() {
        0
    } else {
        (if cells[i] {
            1int
        } else {
            0int
        }) + filled_count_from(cells, i + 1)
    }
}

/// The number of filled cells
pub open spec fn filled_count(cells: Seq<bool>) -> int {
    filled_count_from(cells, 0)
}

/// Every rotation of every shape fills exactly four cells: the shapes are tetrominoes
#[verifier::spinoff_prover]
#[verifier::rlimit(50)]
pub proof fn law_four_cells(s: Shape, r: int)
    requires
        0 <= r < s.rotation_count_spec(),
    ensures
        filled_count(s.cells_spec(r)) == 4,
{
    assert(filled_count(Shape::I.cells_spec(0)) == 4) by {
        reveal_with_fuel(filled_count_from, 17);
    }
    assert(filled_count(Shape::I.cells_spec(1)) == 4) by {
        reveal_with_fuel(filled_count_from, 17);
    }
    assert(filled_count(Shape::L.cells_spec(0)) == 4) by {
        reveal_with_fuel(filled_count_from, 17);
    }
    assert(filled_count(Shape::L.cells_spec(1)) == 4) by {
        reveal_with_fuel(filled_count_from, 17);
    }
    assert(filled_count(Shape::L.cells_spec(2)) == 4) by {
        reveal_with_fuel(filled_count_from, 17);
    }
    assert(filled_count(Shape::L.cells_spec(3)) == 4) by {
        reveal_with_fuel(filled_count_from, 17);
    }
    assert(filled_count(Shape::O.cells_spec(0)) == 4) by {
        reveal_with_fuel(filled_count_from, 17);
    }
    assert(filled_count(Shape::J.cells_spec(0)) == 4) by {
        reveal_with_fuel(filled_count_from, 17);
    }
    assert(filled_count(Shape::J.cells_spec(1)) == 4) by {
        reveal_with_fuel(filled_count_from, 17);
    }
    assert(filled_count(Shape::J.cells_spec(2)) == 4) by {
        reveal_with_fuel(filled_count_from, 17);
    }
    assert(filled_count(Shape::J.cells_spec(3)) == 4) by {
        reveal_with_fuel(filled_count_from, 17);
    }
    assert(filled_count(Shape::T.cells_spec(0)) == 4) by {
        reveal_with_fuel(filled_count_from, 17);
    }
    assert(filled_count(Shape::T.cells_spec(1)) == 4) by {
        reveal_with_fuel(filled_count_from, 17);
    }
    assert(filled_count(Shape::T.cells_spec(2)) == 4) by {
        reveal_with_fuel(filled_count_from, 17);
    }
    assert(filled_count(Shape::T.cells_spec(3)) == 4) by {
        reveal_with_fuel(filled_count_from, 17);
    }
    assert(filled_count(Shape::S.cells_spec(0)) == 4) by {
        reveal_with_fuel(filled_count_from, 17);
    }
    assert(filled_count(Shape::S.cells_spec(1)) == 4) by {
        reveal_with_fuel(filled_count_from, 17);
    }
    assert(filled_count(Shape::Z.cells_spec(0)) == 4) by {
        reveal_with_fuel(filled_count_from, 17);
    }
    assert(filled_count(Shape::Z.cells_spec(1)) == 4) by {
        reveal_with_fuel(filled_count_from, 17);
    }
    assert(r == 0 || r == 1 || r == 2 || r == 3);
}

/// A shape with its rotation
#[derive(PartialEq, Eq, Copy, Clone, Debug)]
pub struct RotatedShape {
    shape: Shape,
    rotation: u8,
}

impl RotatedShape {
    /// A rotation is always one of the shape's distinct rotations
    #[verifier::type_invariant]
    pub closed spec fn inv(self) -> bool {
        self.rotation < self.shape.rotation_count_spec()
    }

    /// What the type invariant says: the rotation is one of the shape's rotations
    pub proof fn lemma_inv(self)
        requires
            self.inv(),
        ensures
            self.turn() < self.kind().rotation_count_spec(),
    {
    }


    /// The shape without rotation
    pub closed spec fn kind(self) -> Shape {
        self.shape
    }

    /// The number of rotations from the initial rotation
    pub closed spec fn turn(self) -> u8 {
        self.rotation
    }

    /// The rotated shape with the given shape and rotation
    pub closed spec fn with_turn(shape: Shape, turn: u8) -> Self {
        RotatedShape { shape, rotation: turn }
    }

    /// A rotated shape is determined by its shape and its rotation
    pub proof fn lemma_with_turn(shape: Shape, turn: u8)
        ensures
            Self::with_turn(shape, turn).kind() == shape,
            Self::with_turn(shape, turn).turn() == turn,
            forall|s: Self| s.kind() == shape && s.turn() == turn ==> s == Self::with_turn(shape, turn),
    {
    }

    /// The shape in its initial rotation
    pub fn new(shape: Shape) -> (r: Self)
        ensures
            r.kind() == shape,
            r.turn() == 0,
    {
        RotatedShape { shape, rotation: 0 }
    }

    /// Returns the current shape rotated 90° anticlockwise
    pub fn rotated_anticlockwise(self) -> (r: Self)
        ensures
            r.kind() == self.kind(),
            r.turn() == turn_anticlockwise(self.kind(), self.turn()),
            r == Self::with_turn(self.kind(), turn_anticlockwise(self.kind(), self.turn())),
    {
        proof {
            use_type_invariant(&self);
        }
        RotatedShape { rotation: (self.rotation + 1) % self.shape.rotation_count(), ..self }
    }

    /// Returns the current shape rotated 90° clockwise
    pub fn rotated_clockwise(self) -> (r: Self)
        ensures
            r.kind() == self.kind(),
            r.turn() == turn_clockwise(self.kind(), self.turn()),
            r == Self::with_turn(self.kind(), turn_clockwise(self.kind(), self.turn())),
    {
        proof {
            use_type_invariant(&self);
        }
        RotatedShape {
            rotation: if self.rotation == 0 {
                self.shape.rotation_count()
            } else {
                self.rotation
            } - 1,
            ..self
        }
    }

    /// Number of possible rotations in the range 0 to 360° where the state step is 90° and
    /// the rotation state's cells are not equivalent to another rotation state's cells
    pub fn rotation_count(self) -> (r: u8)
        ensures
            r == self.kind().rotation_count_spec(),
            1 <= r <= 4,
    {
        self.shape.rotation_count()
    }

    /// Returns the current shape rotated an absolute number of times from the initial
    /// rotation with a 90° step
    pub fn with_rotation(self, rotation: u8) -> (r: Self)
        ensures
            r.kind() == self.kind(),
            r.turn() == rotation % self.kind().rotation_count_spec(),
    {
        RotatedShape { rotation: rotation % self.shape.rotation_count(), ..self }
    }

    /// Returns the absolute number of rotations from the current shape's initial position
    pub fn rotation(&self) -> (r: u8)
        ensures
            r == self.turn(),
            r < self.kind().rotation_count_spec(),
    {
        proof {
            use_type_invariant(self);
        }
        self.rotation
    }

    /// Returns the shape without rotation
    pub fn shape(&self) -> (r: Shape)
        ensures
            r == self.kind(),
    {
        self.shape
    }

    /// Returns the width and height of the rotated shape in blocks
    pub fn dimensions(&self) -> (r: Size)
        ensures
            r == self.kind().size_spec(),
    {
        self.shape.size()
    }

    /// Whether the cell `(x, y)` of the rotated shape is occupied
    pub fn filled(&self, x: u8, y: u8) -> (r: bool)
        requires
            x < self.kind().size_spec().x,
            y < self.kind().size_spec().y,
        ensures
            r == shape_cell(*self, x as int, y as int),
    {
        proof {
            use_type_invariant(self);
        }
        let (width, data) = self.shape.data(self.rotation);
        proof {
            self.kind().lemma_cells_len(self.turn() as int);
            assert(x + y * width < data@.len()) by (nonlinear_arith)
                requires
                    0 <= x < width,
                    0 <= y < self.kind().size_spec().y,
                    data@.len() == width * self.kind().size_spec().y,
            ;
        }
        data[x as usize + (y as usize) * (width as usize)]
    }

    /// Returns the horizontal center point (x) of the rotated shape
    pub fn center_x(&self) -> (r: SizeAxis)
        ensures
            r == self.kind().size_spec().x / 2,
    {
        self.width() / 2
    }

    /// Returns the vertical center point (y) of the rotated shape
    pub fn center_y(&self) -> (r: SizeAxis)
        ensures
            r == self.kind().size_spec().y / 2,
    {
        self.height() / 2
    }

    /// Returns the center point (x,y) of the rotated shape
    pub fn center(&self) -> (r: Size)
        ensures
            r == (Size { x: self.kind().size_spec().x / 2, y: self.kind().size_spec().y / 2 }),
    {
        Size { x: self.center_x(), y: self.center_y() }
    }
}

impl RotatedShape {
    /// Whether some cell of column `x` is occupied
    fn column_occupied(&self, x: SizeAxis) -> (r: bool)
        requires
            x < self.kind().size_spec().x,
        ensures
            r == column_filled(*self, x as int),
    {
        let height = self.height();
        let mut y: SizeAxis = 0;
        while y < height
            invariant
                x < self.kind().size_spec().x,
                height == self.kind().size_spec().y,
                y <= height,
                forall|j: int| 0 <= j < y ==> !#[trigger] shape_cell(*self, x as int, j),
            decreases height - y,
        {
            if self.filled(x, y) {
                return true;
            }
            y = y + 1;
        }
        false
    }

    /// The first and the last column with an occupied cell, if any cell is occupied
    pub fn real_bound_x(&self) -> (r: Option<(SizeAxis, SizeAxis)>)
        ensures
            r is None <==> real_bounds(*self) is None,
            r matches Some(b) ==> real_bounds(*self) == Some((b.0 as int, b.1 as int)),
    {
        let width = self.width();
        let mut first: SizeAxis = 0;
        while first < width && !self.column_occupied(first)
            invariant
                width == self.kind().size_spec().x,
                first <= width,
                first_filled_column(*self, first as int) == first_filled_column(*self, 0),
            decreases width - first,
        {
            first = first + 1;
        }
        if first == width {
            return None;
        }
        let mut last: SizeAxis = width - 1;
        proof {
            lemma_filled_columns(*self, first as int);
        }
        while !self.column_occupied(last)
            invariant
                width == self.kind().size_spec().x,
                first < width,
                column_filled(*self, first as int),
                first <= last < width,
                forall|c: int| last < c < width ==> !#[trigger] column_filled(*self, c),
                last_filled_column(*self, last as int) == last_filled_column(*self, width - 1),
            decreases last,
        {
            last = last - 1;
        }
        Some((first, last))
    }
}

/// Whether some cell of column `x` of the rotated shape is occupied
pub open spec fn column_filled(s: RotatedShape, x: int) -> bool {
    exists|y: int| 0 <= y < s.kind().size_spec().y && #[trigger] shape_cell(s, x, y)
}

/// The first column from `x` on with an occupied cell (the width when there is none)
pub open spec fn first_filled_column(s: RotatedShape, x: int) -> int
    decreases s.kind().size_spec().x - x,
{
    if x >= s.kind().size_spec().x {
        s.kind().size_spec().x as int
    } else if column_filled(s, x) {
        x
    } else {
        first_filled_column(s, x + 1)
    }
}

/// The last column up to `x` with an occupied cell (-1 when there is none)
pub open spec fn last_filled_column(s: RotatedShape, x: int) -> int
    decreases x + 1,
{
    if x < 0 {
        -1
    } else if column_filled(s, x) {
        x
    } else {
        last_filled_column(s, x - 1)
    }
}

/// The columns of the first and of the last occupied cells, if any cell is occupied
pub open spec fn real_bounds(s: RotatedShape) -> Option<(int, int)> {
    let first = first_filled_column(s, 0);
    if first >= s.kind().size_spec().x {
        None
    } else {
        Some((first, last_filled_column(s, s.kind().size_spec().x - 1)))
    }
}

/// The first filled column from `x` on is filled when it lies inside the shape
proof fn lemma_filled_columns(s: RotatedShape, x: int)
    requires
        0 <= x,
        first_filled_column(s, x) < s.kind().size_spec().x,
    ensures
        column_filled(s, first_filled_column(s, x)),
    decreases s.kind().size_spec().x - x,
{
    if x < s.kind().size_spec().x && !column_filled(s, x) {
        lemma_filled_columns(s, x + 1);
    }
}

/// The rotation after turning 90° anticlockwise from rotation `t`
pub open spec fn turn_anticlockwise(shape: Shape, t: u8) -> u8 {
    ((t + 1) % (shape.rotation_count_spec() as int)) as u8
}

/// The rotation after turning 90° clockwise from rotation `t`
pub open spec fn turn_clockwise(shape: Shape, t: u8) -> u8 {
    if t == 0 {
        (shape.rotation_count_spec() - 1) as u8
    } else {
        (t - 1) as u8
    }
}

/// The rotation after turning anticlockwise `n` times from rotation `t`
pub open spec fn turn_anticlockwise_times(shape: Shape, t: u8, n: nat) -> u8
    decreases n,
{
    if n == 0 {
        t
    } else {
        turn_anticlockwise(shape, turn_anticlockwise_times(shape, t, (n - 1) as nat))
    }
}

/// Turning clockwise undoes turning anticlockwise and the other way round; both stay among
/// the shape's distinct rotations
pub proof fn lemma_turns_undo(shape: Shape, t: u8)
    requires
        t < shape.rotation_count_spec(),
    ensures
        turn_anticlockwise(shape, t) < shape.rotation_count_spec(),
        turn_clockwise(shape, t) < shape.rotation_count_spec(),
        turn_clockwise(shape, turn_anticlockwise(shape, t)) == t,
        turn_anticlockwise(shape, turn_clockwise(shape, t)) == t,
{
}

/// Turning anticlockwise as many times as the shape has distinct rotations gives the
/// rotation one started from
pub proof fn lemma_full_turn(shape: Shape, t: u8)
    requires
        t < shape.rotation_count_spec(),
    ensures
        turn_anticlockwise_times(shape, t, shape.rotation_count_spec() as nat) == t,
{
    let c = shape.rotation_count_spec() as nat;
    assert(turn_anticlockwise_times(shape, t, 0) == t);
    assert(turn_anticlockwise_times(shape, t, 1) == (t + 1) % (c as int));
    if c >= 2 {
        assert(turn_anticlockwise_times(shape, t, 2) == (t + 2) % (c as int));
    }
    if c >= 3 {
        assert(turn_anticlockwise_times(shape, t, 3) == (t + 3) % (c as int));
    }
    if c >= 4 {
        assert(turn_anticlockwise_times(shape, t, 4) == (t + 4) % (c as int));
    }
}

/// A cell that is occupied in every rotation of the shape
pub open spec fn some_cell(shape: Shape) -> (int, int) {
    match shape {
        Shape::I => (2, 2),
        _ => (1, 1),
    }
}

/// Every rotated shape has an occupied cell
pub proof fn lemma_some_cell(s: RotatedShape)
    requires
        s.turn() < s.kind().rotation_count_spec(),
    ensures
        0 <= some_cell(s.kind()).0 < s.kind().size_spec().x,
        0 <= some_cell(s.kind()).1 < s.kind().size_spec().y,
        shape_cell(s, some_cell(s.kind()).0, some_cell(s.kind()).1),
{
    match s.kind() {
        Shape::I => {
            assert(2 + 2 * 4 == 10);
        },
        Shape::O => {
            assert(1 + 1 * 2 == 3);
        },
        _ => {
            assert(1 + 1 * 3 == 4);
        },
    }
}

/// The cell of a rotated shape at `(x, y)`, inside its size
pub open spec fn shape_cell(s: RotatedShape, x: int, y: int) -> bool {
    s.kind().cells_spec(s.turn() as int)[x + y * s.kind().size_spec().x]
}

impl RectangularBound for RotatedShape {
    open spec fn start(&self) -> Pos {
        Pos { x: 0, y: 0 }
    }

    open spec fn width_spec(&self) -> SizeAxis {
        self.kind().size_spec().x
    }

    open spec fn height_spec(&self) -> SizeAxis {
        self.kind().size_spec().y
    }

    fn bound_start(&self) -> (r: Pos) {
        Pos { x: 0, y: 0 }
    }

    fn width(&self) -> (r: SizeAxis) {
        self.shape.size().x
    }

    fn height(&self) -> (r: SizeAxis) {
        self.shape.size().y
    }
}

impl Grid for RotatedShape {
    type Cell = bool;

    open spec fn oob(&self, pos: Pos) -> bool {
        !grid::in_rect(self, pos)
    }

    open spec fn cell_at(&self, pos: Pos) -> bool {
        shape_cell(*self, pos.x as int, pos.y as int)
    }

    fn is_out_of_bounds(&self, pos: Pos) -> (r: bool) {
        grid::is_position_outside_rectangle(self, pos)
    }

    fn pos(&self, pos: Pos) -> (c: bool) {
        self.filled(pos.x as u8, pos.y as u8)
    }
}

/// Iterator for every rotation the shape has that isn't equivalent to another in the 360°
/// range with a 90° step
pub struct ShapeRotations {
    shape: Shape,
    remaining: u8,
}

impl ShapeRotations {
    /// The shape whose rotations are yielded
    pub closed spec fn kind(self) -> Shape {
        self.shape
    }

    /// How many rotations are left
    pub closed spec fn left(self) -> u8 {
        self.remaining
    }

    /// One step of the iteration from `self` to `next`, yielding `r`: the next lower
    /// rotation while there are rotations left, else nothing
    pub open spec fn step(self, next: Self, r: Option<RotatedShape>) -> bool {
        &&& next.kind() == self.kind()
        &&& self.left() == 0 ==> r is None && next.left() == 0
        &&& self.left() > 0 ==> next.left() == self.left() - 1
        &&& self.left() > 0 ==> (r matches Some(s) && s.kind() == self.kind() && s.turn()
            == next.left())
    }

    /// Yields the rotations from the last one down to the initial one
    pub fn next(&mut self) -> (r: Option<RotatedShape>)
        requires
            old(self).left() <= old(self).kind().rotation_count_spec(),
        ensures
            old(self).step(*final(self), r),
    {
        if self.remaining > 0 {
            self.remaining = self.remaining - 1;
            Some(RotatedShape { shape: self.shape, rotation: self.remaining })
        } else {
            None
        }
    }
}

/// After `i` steps from the start, `count - i` rotations are left (none once all were yielded)
proof fn lemma_rotations_left(
    shape: Shape,
    states: Seq<ShapeRotations>,
    outs: Seq<Option<RotatedShape>>,
    i: int,
)
    requires
        states.len() == outs.len() + 1,
        states[0].kind() == shape,
        states[0].left() == shape.rotation_count_spec(),
        forall|j: int| #![trigger outs[j]] 0 <= j < outs.len() ==> states[j].step(states[j + 1], outs[j]),
        0 <= i < states.len(),
    ensures
        states[i].kind() == shape,
        states[i].left() == (if i < shape.rotation_count_spec() {
            shape.rotation_count_spec() - i
        } else {
            0
        }),
    decreases i,
{
    if i > 0 {
        lemma_rotations_left(shape, states, outs, i - 1);
        let o = outs[i - 1];
    }
}

/// Iterating over the rotations of a shape yields each of its rotations once, from the last
/// one down to the initial one, and then nothing: along any run of steps from the start, the
/// `i`-th item is the rotation `count - 1 - i` while `i < count`, and `None` after that
pub proof fn law_rotations_yield_each_once(
    shape: Shape,
    states: Seq<ShapeRotations>,
    outs: Seq<Option<RotatedShape>>,
)
    requires
        states.len() == outs.len() + 1,
        states[0].kind() == shape,
        states[0].left() == shape.rotation_count_spec(),
        forall|i: int| #![trigger outs[i]] 0 <= i < outs.len() ==> states[i].step(states[i + 1], outs[i]),
    ensures
        forall|i: int|
            0 <= i < outs.len() ==> if i < shape.rotation_count_spec() {
                #[trigger] outs[i] matches Some(s) && s.kind() == shape && s.turn()
                    == shape.rotation_count_spec() - 1 - i
            } else {
                outs[i] is None
            },
{
    assert forall|i: int| 0 <= i < outs.len() implies if i < shape.rotation_count_spec() {
        #[trigger] outs[i] matches Some(s) && s.kind() == shape && s.turn()
            == shape.rotation_count_spec() - 1 - i
    } else {
        outs[i] is None
    } by {
        lemma_rotations_left(shape, states, outs, i);
        lemma_rotations_left(shape, states, outs, i + 1);
    }
}

} // verus!
