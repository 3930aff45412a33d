use vstd::prelude::*;

use super::{end_x, end_y, in_rect, offset, rect_fits, Grid, Pos, RectangularBound};

verus! {

/// Row-major order: `a` comes strictly before `b`
pub open spec fn lex_lt(a: Pos, b: Pos) -> bool {
    a.y < b.y || (a.y == b.y && a.x < b.x)
}

/// Row-major order: `a` comes before `b` or is `b`
pub open spec fn lex_le(a: Pos, b: Pos) -> bool {
    a.y < b.y || (a.y == b.y && a.x <= b.x)
}

/// Iterates through a grid's cells, row by row, yielding the in-bounds positions of the
/// grid's rectangle together with their cells
pub struct Iter<'g, G: 'g> {
    grid: &'g G,
    pos: Pos,
}

impl<'g, G> Iter<'g, G> where G: Grid + RectangularBound {
    /// The grid being iterated
    pub closed spec fn grid(&self) -> &'g G {
        self.grid
    }

    /// The next position to look at
    pub closed spec fn cursor(&self) -> Pos {
        self.pos
    }

    /// The iterator's cursor lies in the rectangle or just after its last column or row
    pub closed spec fn wf(&self) -> bool {
        &&& rect_fits(self.grid)
        &&& self.grid.start().x <= self.pos.x <= end_x(self.grid) + 1
        &&& self.grid.start().y <= self.pos.y <= end_y(self.grid) + 1
    }

    /// Starts at the grid's start position
    pub fn new(grid: &'g G) -> (it: Self)
        ensures
            rect_fits(grid) ==> it.wf(),
            it.grid() == grid,
            it.cursor() == grid.start(),
    {
        Iter { grid, pos: grid.bound_start() }
    }

    /// The next position to look at
    pub fn i(self) -> (p: Pos)
        ensures
            p == self.cursor(),
    {
        self.pos
    }

    /// One step from `self` to `next`, yielding `r`: the first position from the cursor on,
    /// in row-major order, that lies in the rectangle and is in bounds of the grid, with its
    /// cell (the positions of the rectangle skipped on the way are out of bounds), the cursor
    /// then standing just after it; or `None` when no such position is left, the cursor then
    /// standing after the last row
    pub open spec fn step(&self, next: &Self, r: Option<(Pos, G::Cell)>) -> bool {
        &&& next.wf()
        &&& next.grid() == self.grid()
        &&& match r {
            Some((p, c)) => {
                &&& in_rect(self.grid(), p)
                &&& !self.grid().oob(p)
                &&& c == self.grid().cell_at(p)
                &&& lex_le(self.cursor(), p)
                &&& next.cursor() == offset(p, 1, 0)
                &&& forall|q: Pos|
                    #![trigger in_rect(self.grid(), q)]
                    in_rect(self.grid(), q) && lex_le(self.cursor(), q) && lex_lt(q, p)
                        ==> self.grid().oob(q)
            },
            None => {
                &&& forall|q: Pos|
                    #![trigger in_rect(self.grid(), q)]
                    in_rect(self.grid(), q) && lex_le(self.cursor(), q) ==> self.grid().oob(q)
                &&& next.cursor().y == end_y(self.grid()) + 1
            },
        }
    }

    /// Yields the next position in row-major order that lies in the rectangle and is in
    /// bounds of the grid, with its cell. Positions in the rectangle that are skipped are out
    /// of bounds. `None` when no such position is left.
    pub fn next(&mut self) -> (r: Option<(Pos, G::Cell)>)
        requires
            old(self).wf(),
        ensures
            final(self).cursor().x <= end_x(old(self).grid()) + 1,
            final(self).cursor().y <= end_y(old(self).grid()) + 1,
            old(self).step(final(self), r),
    {
        let bound_end = self.grid.bound_end();
        let start_x = self.grid.bound_start().x;
        let ghost old_pos = self.pos;
        let ghost g = self.grid;
        loop
            invariant
                self.grid == g,
                old(self).grid == g,
                old(self).pos == old_pos,
                rect_fits(g),
                bound_end.x == end_x(g),
                bound_end.y == end_y(g),
                start_x == g.start().x,
                g.start().x <= self.pos.x <= end_x(g) + 1,
                g.start().y <= self.pos.y <= end_y(g) + 1,
                lex_le(old_pos, self.pos),
                forall|q: Pos|
                    #![trigger in_rect(g, q)]
                    in_rect(g, q) && lex_le(old_pos, q) && lex_lt(q, self.pos) ==> g.oob(q),
            decreases end_y(g) + 1 - self.pos.y, end_x(g) + 1 - self.pos.x,
        {
            if self.pos.y > bound_end.y {
                return None;
            }
            if self.pos.x > bound_end.x {
                self.pos.x = start_x;
                self.pos.y = self.pos.y + 1;
                continue ;
            }
            let x = self.pos.x;
            self.pos.x = self.pos.x + 1;

            let old_pos_now = self.pos.with_x(x);
            match self.grid.position(old_pos_now) {
                Some(cell) => {
                    return Some((old_pos_now, cell));
                },
                None => {
                    continue ;
                },
            }
        }
    }
}


/// The position of an item (the origin for `None`)
pub open spec fn item_pos<C>(o: Option<(Pos, C)>) -> Pos {
    match o {
        Some(e) => e.0,
        None => Pos { x: 0, y: 0 },
    }
}

/// Whether the `k`-th item yielded is the position `q` (with its cell)
pub open spec fn yields_at<C>(outs: Seq<Option<(Pos, C)>>, k: int, q: Pos) -> bool {
    outs[k] matches Some(e) && e.0 == q
}

/// Whether the position `q` is among the first `i` items yielded
pub open spec fn yielded_before<C>(outs: Seq<Option<(Pos, C)>>, i: int, q: Pos) -> bool {
    exists|k: int| 0 <= k < i && #[trigger] yields_at(outs, k, q)
}

impl<'g, G> Iter<'g, G> where G: Grid + RectangularBound {
    /// After `i` steps from the start: the items yielded so far lie before the cursor, every
    /// in-bounds position of the rectangle before the cursor was yielded, and once nothing
    /// was yielded the cursor stands after the last row
    proof fn lemma_progress(states: Seq<Self>, outs: Seq<Option<(Pos, G::Cell)>>, i: int)
        requires
            states.len() == outs.len() + 1,
            states[0].wf(),
            states[0].cursor() == states[0].grid().start(),
            forall|j: int|
                #![trigger outs[j]]
                0 <= j < outs.len() ==> states[j].step(&states[j + 1], outs[j]),
            0 <= i < states.len(),
        ensures
            states[i].wf(),
            states[i].grid() == states[0].grid(),
            forall|k: int|
                #![trigger outs[k]]
                0 <= k < i && outs[k] is Some ==> lex_lt(item_pos(outs[k]), states[i].cursor()) && in_rect(
                    states[0].grid(),
                    item_pos(outs[k]),
                ),
            forall|q: Pos|
                #![trigger in_rect(states[0].grid(), q)]
                in_rect(states[0].grid(), q) && !states[0].grid().oob(q) && lex_lt(
                    q,
                    states[i].cursor(),
                ) ==> yielded_before(outs, i, q),
            (exists|k: int| 0 <= k < i && #[trigger] outs[k] is None) ==> states[i].cursor().y
                == end_y(states[0].grid()) + 1,
        decreases i,
    {
        let g = states[0].grid();
        if i > 0 {
            Self::lemma_progress(states, outs, i - 1);
            let s0 = states[i - 1];
            let s1 = states[i];
            let o = outs[i - 1];
            assert(s0.step(&s1, o));
            match o {
                Some(e) => {
                    let p = e.0;
                    assert(yields_at(outs, i - 1, p));
                    assert forall|k: int|
                        #![trigger outs[k]]
                        0 <= k < i && outs[k] is Some implies lex_lt(item_pos(outs[k]), s1.cursor()) && in_rect(
                        g,
                        item_pos(outs[k]),
                    ) by {
                        assert(s1.cursor().x == p.x + 1 && s1.cursor().y == p.y);
                        if k < i - 1 {
                            assert(lex_lt(item_pos(outs[k]), s0.cursor()));
                        }
                    }
                    assert forall|q: Pos|
                        #![trigger in_rect(g, q)]
                        in_rect(g, q) && !g.oob(q) && lex_lt(q, s1.cursor()) implies yielded_before(
                        outs,
                        i,
                        q,
                    ) by {
                        if q == p {
                            assert(yields_at(outs, i - 1, q));
                        } else if lex_lt(q, s0.cursor()) {
                            let k = choose|k: int| 0 <= k < i - 1 && #[trigger] yields_at(outs, k, q);
                            assert(yields_at(outs, k, q));
                        } else {
                            assert(lex_le(s0.cursor(), q) && lex_lt(q, p));
                        }
                    }
                    if exists|k: int| 0 <= k < i && #[trigger] outs[k] is None {
                        let k = choose|k: int| 0 <= k < i && #[trigger] outs[k] is None;
                        if k < i - 1 {
                            assert(s0.cursor().y == end_y(g) + 1);
                        }
                    }
                },
                None => {
                    assert forall|q: Pos|
                        #![trigger in_rect(g, q)]
                        in_rect(g, q) && !g.oob(q) && lex_lt(q, s1.cursor()) implies yielded_before(
                        outs,
                        i,
                        q,
                    ) by {
                        if lex_lt(q, s0.cursor()) {
                            let k = choose|k: int| 0 <= k < i - 1 && #[trigger] yields_at(outs, k, q);
                            assert(yields_at(outs, k, q));
                        }
                    }
                    assert forall|k: int|
                        #![trigger outs[k]]
                        0 <= k < i && outs[k] is Some implies lex_lt(item_pos(outs[k]), s1.cursor()) && in_rect(
                        g,
                        item_pos(outs[k]),
                    ) by {
                        if k < i - 1 {
                            assert(lex_lt(item_pos(outs[k]), s0.cursor()));
                        }
                    }
                },
            }
        }
    }

    /// Iterating over a grid's cells from its start yields exactly the in-bounds positions of
    /// its rectangle with their cells, in row-major order and each once, and then nothing:
    /// along any run of steps from the start, every item is such a position with its cell, the
    /// positions yielded increase in row-major order, none is skipped before a yielded one,
    /// every one was yielded before the first `None`, and after a `None` all items are `None`
    pub proof fn law_yields_each_in_bounds_cell_once(
        states: Seq<Self>,
        outs: Seq<Option<(Pos, G::Cell)>>,
    )
        requires
            states.len() == outs.len() + 1,
            states[0].wf(),
            states[0].cursor() == states[0].grid().start(),
            forall|i: int|
                #![trigger outs[i]]
                0 <= i < outs.len() ==> states[i].step(&states[i + 1], outs[i]),
        ensures
            forall|i: int|
                #![trigger outs[i]]
                0 <= i < outs.len() ==> (outs[i] matches Some(e) ==> {
                    &&& in_rect(states[0].grid(), e.0)
                    &&& !states[0].grid().oob(e.0)
                    &&& e.1 == states[0].grid().cell_at(e.0)
                }),
            forall|i: int, j: int|
                #![trigger outs[i], outs[j]]
                0 <= i < j < outs.len() && outs[i] is Some && outs[j] is Some ==> lex_lt(
                    item_pos(outs[i]),
                    item_pos(outs[j]),
                ),
            forall|j: int, q: Pos|
                #![trigger outs[j], in_rect(states[0].grid(), q)]
                0 <= j < outs.len() && in_rect(states[0].grid(), q) && !states[0].grid().oob(q)
                    && (outs[j] is None || lex_lt(q, item_pos(outs[j]))) ==> yielded_before(outs, j, q),
            forall|j: int, k: int|
                #![trigger outs[j], outs[k]]
                0 <= j < k < outs.len() && outs[j] is None ==> outs[k] is None,
    {
        let g = states[0].grid();
        assert forall|i: int|
            #![trigger outs[i]]
            0 <= i < outs.len() implies (outs[i] matches Some(e) ==> {
                &&& in_rect(g, e.0)
                &&& !g.oob(e.0)
                &&& e.1 == g.cell_at(e.0)
            }) by {
            Self::lemma_progress(states, outs, i);
        }
        assert forall|i: int, j: int|
            #![trigger outs[i], outs[j]]
            0 <= i < j < outs.len() && outs[i] is Some && outs[j] is Some implies lex_lt(
                item_pos(outs[i]),
                item_pos(outs[j]),
            ) by {
            Self::lemma_progress(states, outs, j);
        }
        assert forall|j: int, q: Pos|
            #![trigger outs[j], in_rect(g, q)]
            0 <= j < outs.len() && in_rect(g, q) && !g.oob(q) && (outs[j] is None || lex_lt(
                q,
                item_pos(outs[j]),
            )) implies yielded_before(outs, j, q) by {
            Self::lemma_progress(states, outs, j);
            if !lex_lt(q, states[j].cursor()) {
                assert(states[j].step(&states[j + 1], outs[j]));
            }
        }
        assert forall|j: int, k: int|
            #![trigger outs[j], outs[k]]
            0 <= j < k < outs.len() && outs[j] is None implies outs[k] is None by {
            Self::lemma_progress(states, outs, k);
            assert(states[k].step(&states[k + 1], outs[k]));
        }
    }
}

} // verus!
