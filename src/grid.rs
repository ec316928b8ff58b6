use vstd::prelude::*;

verus! {

/// A cell of a floor, 0-indexed; `x` is the column and `y` the row.
#[derive(Clone, Copy, PartialEq, Eq, Structural, Hash, Debug)]
pub struct Coordinate {
    pub x: usize,
    pub y: usize,
}

/// Whether `(x, y)` lies on a `width` by `height` grid.
pub open spec fn in_grid(width: int, height: int, x: int, y: int) -> bool {
    0 <= x < width && 0 <= y < height
}

/// The coordinate of the cell `(x, y)`.
pub open spec fn cell(x: int, y: int) -> Coordinate {
    Coordinate { x: x as usize, y: y as usize }
}

impl Coordinate {
    pub open spec fn within(self, width: int, height: int) -> bool {
        in_grid(width, height, self.x as int, self.y as int)
    }

    pub fn new(x: usize, y: usize) -> (r: Coordinate)
        ensures
            r.x == x,
            r.y == y,
    {
        Coordinate { x, y }
    }

    /// Whether the coordinate lies on a `width` by `height` grid.
    pub fn is_within(&self, width: usize, height: usize) -> (r: bool)
        ensures
            r == self.within(width as int, height as int),
    {
        self.x < width && self.y < height
    }
}

} // verus!
