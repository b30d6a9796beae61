use vstd::prelude::*;

verus! {

/// Largest coordinate magnitude a cell may have; keeps every coordinate
/// computation (neighbour steps, world mapping) free of overflow.
pub const CELL_BOUND: i32 = 131072;

/// Largest world-units-per-cell edge a grid may be built with.
pub const MAX_CELL_SIZE: i32 = 4096;

/// An integer 2D vector: a logical cell, or a step between cells.
#[derive(Clone, Copy, PartialEq, Eq, Structural, Debug, Hash)]
pub struct IVec2 {
    pub x: i32,
    pub y: i32,
}

/// Both coordinates within the playable range.
pub open spec fn cell_bounded(c: IVec2) -> bool {
    -CELL_BOUND <= c.x <= CELL_BOUND && -CELL_BOUND <= c.y <= CELL_BOUND
}

/// A single-cell step: each component in {-1, 0, 1}.
pub open spec fn step_vec(d: IVec2) -> bool {
    -1 <= d.x <= 1 && -1 <= d.y <= 1
}

/// One of the five resolved input vectors: an orthogonal unit step or zero.
pub open spec fn ortho_step(d: IVec2) -> bool {
    step_vec(d) && (d.x == 0 || d.y == 0)
}

/// Componentwise sum of two bounded vectors (exact when no overflow occurs).
pub open spec fn vec_add(a: IVec2, b: IVec2) -> IVec2 {
    IVec2 { x: (a.x + b.x) as i32, y: (a.y + b.y) as i32 }
}

impl IVec2 {
    pub fn new(x: i32, y: i32) -> (r: IVec2)
        ensures
            r.x == x,
            r.y == y,
    {
        IVec2 { x, y }
    }

    pub fn zero() -> (r: IVec2)
        ensures
            r.x == 0,
            r.y == 0,
    {
        IVec2 { x: 0, y: 0 }
    }

    pub fn plus(self, o: IVec2) -> (r: IVec2)
        requires
            i32::MIN <= self.x + o.x <= i32::MAX,
            i32::MIN <= self.y + o.y <= i32::MAX,
        ensures
            r.x == self.x + o.x,
            r.y == self.y + o.y,
            r == vec_add(self, o),
    {
        IVec2 { x: self.x + o.x, y: self.y + o.y }
    }
}

/// Pure coordinate mapper between logical cells and world positions.
pub struct Grid {
    pub cell_size: IVec2,
}

/// World position of a cell: componentwise product with the cell size.
pub open spec fn world_of(g: Grid, c: IVec2) -> IVec2 {
    IVec2 { x: (c.x * g.cell_size.x) as i32, y: (c.y * g.cell_size.y) as i32 }
}

impl Grid {
    pub open spec fn wf(self) -> bool {
        1 <= self.cell_size.x <= MAX_CELL_SIZE && 1 <= self.cell_size.y <= MAX_CELL_SIZE
    }

    pub fn new(x: i32, y: i32) -> (r: Grid)
        requires
            1 <= x <= MAX_CELL_SIZE,
            1 <= y <= MAX_CELL_SIZE,
        ensures
            r.cell_size == (IVec2 { x, y }),
            r.wf(),
    {
        Grid { cell_size: IVec2 { x, y } }
    }

    pub fn map_to_world(&self, coords: IVec2) -> (r: IVec2)
        requires
            self.wf(),
            cell_bounded(coords),
        ensures
            r.x == coords.x * self.cell_size.x,
            r.y == coords.y * self.cell_size.y,
            r == world_of(*self, coords),
    {
        proof {
            assert(-0x40000000 <= coords.x * self.cell_size.x <= 0x40000000) by (nonlinear_arith)
                requires
                    -CELL_BOUND <= coords.x <= CELL_BOUND,
                    1 <= self.cell_size.x <= MAX_CELL_SIZE,
            ;
            assert(-0x40000000 <= coords.y * self.cell_size.y <= 0x40000000) by (nonlinear_arith)
                requires
                    -CELL_BOUND <= coords.y <= CELL_BOUND,
                    1 <= self.cell_size.y <= MAX_CELL_SIZE,
            ;
        }
        IVec2 { x: coords.x * self.cell_size.x, y: coords.y * self.cell_size.y }
    }
}

} // verus!
