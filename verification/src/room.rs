use vstd::prelude::*;

use vstd::arithmetic::div_mod::lemma_fundamental_div_mod_converse;

use crate::grid::{cell_bounded, IVec2, CELL_BOUND};

verus! {

/// A rectangular region of cells with classified positions: border walls,
/// doors on the edge midlines, entrances just inside them, and a center.
pub struct Room {
    pub position: IVec2,
    pub size: IVec2,
}

/// The cell at row-major index `k` of the room's coordinate listing.
pub open spec fn row_major_cell(position: IVec2, size: IVec2, k: int) -> IVec2 {
    IVec2 {
        x: (position.x + k % (size.x as int)) as i32,
        y: (position.y + k / (size.x as int)) as i32,
    }
}

impl Room {
    pub open spec fn wf(self) -> bool {
        &&& cell_bounded(self.position)
        &&& 1 <= self.size.x
        &&& 1 <= self.size.y
        &&& self.position.x + self.size.x <= CELL_BOUND
        &&& self.position.y + self.size.y <= CELL_BOUND
    }

    pub open spec fn end_spec(self) -> IVec2 {
        IVec2 {
            x: (self.position.x + self.size.x) as i32,
            y: (self.position.y + self.size.y) as i32,
        }
    }

    pub open spec fn last_spec(self) -> IVec2 {
        IVec2 {
            x: (self.position.x + self.size.x - 1) as i32,
            y: (self.position.y + self.size.y - 1) as i32,
        }
    }

    pub open spec fn center_spec(self) -> IVec2 {
        IVec2 {
            x: (self.position.x + self.size.x as int / 2) as i32,
            y: (self.position.y + self.size.y as int / 2) as i32,
        }
    }

    pub open spec fn contains_spec(self, coords: IVec2) -> bool {
        &&& coords.x >= self.position.x
        &&& coords.y >= self.position.y
        &&& coords.x < self.position.x + self.size.x
        &&& coords.y < self.position.y + self.size.y
    }

    pub fn contains(&self, coords: IVec2) -> (r: bool)
        requires
            self.wf(),
        ensures
            r == self.contains_spec(coords),
    {
        coords.x >= self.position.x && coords.y >= self.position.y && coords.x < self.end().x
            && coords.y < self.end().y
    }

    /// First coordinate past the room on each axis.
    pub fn end(&self) -> (r: IVec2)
        requires
            self.wf(),
        ensures
            r == self.end_spec(),
    {
        self.position.plus(self.size)
    }

    /// Last coordinate inside the room on each axis.
    pub fn last(&self) -> (r: IVec2)
        requires
            self.wf(),
        ensures
            r == self.last_spec(),
    {
        let e = self.end();
        IVec2 { x: e.x - 1, y: e.y - 1 }
    }

    pub fn center(&self) -> (r: IVec2)
        requires
            self.wf(),
        ensures
            r == self.center_spec(),
    {
        let hx = ((self.size.x as u32) / 2) as i32;
        let hy = ((self.size.y as u32) / 2) as i32;
        IVec2 { x: self.position.x + hx, y: self.position.y + hy }
    }

    /// Every cell of the room, row by row from the bottom, left to right.
    pub fn coords(&self) -> (r: Vec<IVec2>)
        requires
            self.wf(),
        ensures
            r@.len() == self.size.x * self.size.y,
            forall|k: int|
                0 <= k < r@.len() ==> r@[k] == row_major_cell(self.position, self.size, k),
    {
        let mut r: Vec<IVec2> = Vec::new();
        let sx = self.size.x;
        let mut y = self.position.y;
        let end = self.end();
        proof {
            assert(r@.len() == (y - self.position.y) * sx) by (nonlinear_arith)
                requires
                    r@.len() == 0,
                    y == self.position.y,
            ;
        }
        while y < end.y
            invariant
                self.wf(),
                sx == self.size.x,
                end == self.end_spec(),
                self.position.y <= y <= end.y,
                r@.len() == (y - self.position.y) * sx,
                forall|k: int|
                    0 <= k < r@.len() ==> r@[k] == row_major_cell(self.position, self.size, k),
            decreases end.y - y,
        {
            let mut x = self.position.x;
            while x < end.x
                invariant
                    self.wf(),
                    sx == self.size.x,
                    end == self.end_spec(),
                    self.position.y <= y < end.y,
                    self.position.x <= x <= end.x,
                    r@.len() == (y - self.position.y) * sx + (x - self.position.x),
                    forall|k: int|
                        0 <= k < r@.len() ==> r@[k] == row_major_cell(self.position, self.size, k),
                decreases end.x - x,
            {
                let ghost k = r@.len() as int;
                proof {
                    assert(0 <= (y - self.position.y) * sx) by (nonlinear_arith)
                        requires
                            0 <= y - self.position.y,
                            0 < sx,
                    ;
                    lemma_fundamental_div_mod_converse(
                        k,
                        sx as int,
                        y - self.position.y,
                        x - self.position.x,
                    );
                    assert((y + 1 - self.position.y) * sx == (y - self.position.y) * sx + sx)
                        by (nonlinear_arith);
                }
                r.push(IVec2 { x, y });
                x = x + 1;
            }
            proof {
                assert((y + 1 - self.position.y) * sx == (y - self.position.y) * sx + sx)
                    by (nonlinear_arith);
            }
            y = y + 1;
        }
        proof {
            assert((end.y - self.position.y) * sx == self.size.x * self.size.y)
                by (nonlinear_arith)
                requires
                    end.y == self.position.y + self.size.y,
                    sx == self.size.x,
            ;
        }
        r
    }

    pub open spec fn is_door_spec(self, coords: IVec2) -> bool {
        ||| coords.x == self.center_spec().x && (coords.y == self.position.y || coords.y
            == self.last_spec().y)
        ||| coords.y == self.center_spec().y && (coords.x == self.position.x || coords.x
            == self.last_spec().x)
    }

    /// A doorway: an edge cell on the room's vertical or horizontal midline.
    pub fn is_door(&self, coords: IVec2) -> (r: bool)
        requires
            self.wf(),
        ensures
            r == self.is_door_spec(coords),
    {
        let c = self.center();
        let l = self.last();
        coords.x == c.x && (coords.y == self.position.y || coords.y == l.y) || coords.y == c.y
            && (coords.x == self.position.x || coords.x == l.x)
    }

    pub open spec fn is_exit_spec(self, coords: IVec2) -> bool {
        ||| coords.x == self.center_spec().x && (coords.y == self.position.y - 1 || coords.y
            == self.end_spec().y)
        ||| coords.y == self.center_spec().y && (coords.x == self.position.x - 1 || coords.x
            == self.end_spec().x)
    }

    /// A cell just outside a doorway.
    pub fn is_exit(&self, coords: IVec2) -> (r: bool)
        requires
            self.wf(),
        ensures
            r == self.is_exit_spec(coords),
    {
        let c = self.center();
        let e = self.end();
        coords.x == c.x && (coords.y == self.position.y - 1 || coords.y == e.y) || coords.y == c.y
            && (coords.x == self.position.x - 1 || coords.x == e.x)
    }

    pub fn is_center(&self, coords: IVec2) -> (r: bool)
        requires
            self.wf(),
        ensures
            r == (coords == self.center_spec()),
    {
        let c = self.center();
        c == coords
    }

    pub open spec fn is_entrance_spec(self, coords: IVec2) -> bool {
        ||| coords.x == self.center_spec().x && (coords.y == self.position.y + 1 || coords.y
            == self.last_spec().y - 1)
        ||| coords.y == self.center_spec().y && (coords.x == self.position.x + 1 || coords.x
            == self.last_spec().x - 1)
    }

    /// A cell just inside a doorway.
    pub fn is_entrance(&self, coords: IVec2) -> (r: bool)
        requires
            self.wf(),
        ensures
            r == self.is_entrance_spec(coords),
    {
        let c = self.center();
        let l = self.last();
        coords.x == c.x && (coords.y == self.position.y + 1 || coords.y == l.y - 1) || coords.y
            == c.y && (coords.x == self.position.x + 1 || coords.x == l.x - 1)
    }

    pub open spec fn is_border_spec(self, coords: IVec2) -> bool {
        ||| coords.x == self.position.x
        ||| coords.y == self.position.y
        ||| coords.x == self.last_spec().x
        ||| coords.y == self.last_spec().y
    }

    /// A cell on the room's outermost ring.
    pub fn is_border(&self, coords: IVec2) -> (r: bool)
        requires
            self.wf(),
        ensures
            r == self.is_border_spec(coords),
    {
        let l = self.last();
        coords.x == self.position.x || coords.y == self.position.y || coords.x == l.x || coords.y
            == l.y
    }
}

} // verus!
