use vstd::prelude::*;

use super::{row, Grid, RectangularBound, SizeAxis};

verus! {

/// Iterates through a grid's rows
pub struct Iter<'g, G: 'g> {
    grid: &'g G,
    y: SizeAxis,
}

impl<'g, G> Iter<'g, G> where G: Grid + RectangularBound {
    /// The grid whose rows are yielded
    pub closed spec fn grid(&self) -> &'g G {
        self.grid
    }

    /// The cursor: the next row from the front, and the row after the next one from the back
    pub closed spec fn cursor(&self) -> SizeAxis {
        self.y
    }

    /// Starts before the first row
    pub fn new(grid: &'g G) -> (it: Self)
        ensures
            it.grid() == grid,
            it.cursor() == 0,
    {
        Iter { grid, y: 0 }
    }

    /// Starts after the last row, for iterating backwards
    pub fn reversed(self) -> (it: Self)
        ensures
            it.grid() == self.grid(),
            it.cursor() == self.grid().height_spec(),
    {
        Iter { y: self.grid.height(), ..self }
    }

    /// One step forward from `self` to `next`, yielding `r`: the row at the cursor while
    /// there is one, else nothing
    pub open spec fn step(&self, next: &Self, r: Option<row::Grid<'g, G>>) -> bool {
        &&& next.grid() == self.grid()
        &&& self.cursor() < self.grid().height_spec() ==> {
            &&& r == Some(row::Grid { grid: self.grid(), y: self.cursor() })
            &&& next.cursor() == self.cursor() + 1
        }
        &&& self.cursor() >= self.grid().height_spec() ==> (r is None && next.cursor()
            == self.cursor())
    }

    /// One step back from `self` to `next`, yielding `r`: the row before the cursor while
    /// there is one, else nothing
    pub open spec fn step_back(&self, next: &Self, r: Option<row::Grid<'g, G>>) -> bool {
        &&& next.grid() == self.grid()
        &&& self.cursor() == 0 ==> r is None && next.cursor() == 0
        &&& self.cursor() > 0 ==> {
            &&& next.cursor() == self.cursor() - 1
            &&& r == Some(row::Grid { grid: self.grid(), y: next.cursor() })
        }
    }

    /// Yields the row at the cursor and advances, until the last row
    pub fn next(&mut self) -> (r: Option<row::Grid<'g, G>>)
        ensures
            old(self).step(final(self), r),
    {
        if self.y < self.grid.height() {
            let y = self.y;
            self.y = self.y + 1;
            Some(row::Grid { grid: self.grid, y })
        } else {
            None
        }
    }

    /// Steps back and yields the row before the cursor, until the first row
    pub fn next_back(&mut self) -> (r: Option<row::Grid<'g, G>>)
        ensures
            old(self).step_back(final(self), r),
    {
        if self.y == 0 {
            None
        } else {
            self.y = self.y - 1;
            Some(row::Grid { grid: self.grid, y: self.y })
        }
    }

    /// The number of rows of the grid
    pub fn len(&self) -> (r: usize)
        ensures
            r == self.grid().height_spec(),
    {
        self.grid.height() as usize
    }

    /// Bounds on the number of rows: the number of rows of the grid
    pub fn size_hint(&self) -> (r: (usize, Option<usize>))
        ensures
            r.0 == self.grid().height_spec(),
            r.1 == Some(r.0),
    {
        let len = self.len();
        (len, Some(len))
    }

    /// After `i` steps back from the last row, the cursor is at row `h - i` (at 0 once every
    /// row was yielded)
    proof fn lemma_back_cursor(states: Seq<Self>, outs: Seq<Option<row::Grid<'g, G>>>, i: int)
        requires
            states.len() == outs.len() + 1,
            states[0].cursor() == states[0].grid().height_spec(),
            forall|j: int|
                #![trigger outs[j]]
                0 <= j < outs.len() ==> states[j].step_back(&states[j + 1], outs[j]),
            0 <= i < states.len(),
        ensures
            states[i].grid() == states[0].grid(),
            states[i].cursor() == (if i < states[0].grid().height_spec() {
                states[0].grid().height_spec() - i
            } else {
                0
            }),
        decreases i,
    {
        if i > 0 {
            Self::lemma_back_cursor(states, outs, i - 1);
            let o = outs[i - 1];
        }
    }

    /// Iterating backwards from after the last row yields each row once, from the last one
    /// up to the first, and then nothing; stepping forward from there yields nothing: along
    /// any run of steps back from a reversed iterator over `h` rows, the `i`-th item is row
    /// `h - 1 - i` while `i < h`, and `None` after that
    pub proof fn law_reversed_rows_yield_each_once(
        states: Seq<Self>,
        outs: Seq<Option<row::Grid<'g, G>>>,
    )
        requires
            states.len() == outs.len() + 1,
            states[0].cursor() == states[0].grid().height_spec(),
            forall|i: int|
                #![trigger outs[i]]
                0 <= i < outs.len() ==> states[i].step_back(&states[i + 1], outs[i]),
        ensures
            forall|next: Self, r: Option<row::Grid<'g, G>>|
                #[trigger] states[0].step(&next, r) ==> r is None,
            forall|i: int|
                0 <= i < outs.len() ==> #[trigger] outs[i] == (if i < states[0].grid().height_spec() {
                    Some(
                        row::Grid {
                            grid: states[0].grid(),
                            y: (states[0].grid().height_spec() - 1 - i) as SizeAxis,
                        },
                    )
                } else {
                    None
                }),
    {
        assert forall|i: int| 0 <= i < outs.len() implies #[trigger] outs[i] == (if i
            < states[0].grid().height_spec() {
            Some(
                row::Grid {
                    grid: states[0].grid(),
                    y: (states[0].grid().height_spec() - 1 - i) as SizeAxis,
                },
            )
        } else {
            None
        }) by {
            Self::lemma_back_cursor(states, outs, i);
            Self::lemma_back_cursor(states, outs, i + 1);
        }
    }
}

} // verus!
