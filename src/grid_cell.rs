use vstd::prelude::*;

verus! {

/// An integer coordinate in the level lattice; also used as a displacement.
#[derive(Clone, Copy, Debug, PartialEq, Eq, Hash, Structural)]
pub struct GridCell {
    pub x: i32,
    pub y: i32,
    pub z: i32,
}

/// What occupies a cell: a static tile (with its material index), the
/// player, or a movable block (with its identity).
#[derive(Clone, Copy, Debug, PartialEq, Eq, Hash, Structural)]
pub enum GridCellType {
    Tile(i32),
    Player,
    MovingTile(i32),
}

impl GridCellType {
    /// Player and movable blocks are the occupants that move.
    pub open spec fn is_mover(self) -> bool {
        !(self is Tile)
    }
}

/// The component-wise sum, when every component fits in an `i32`.
pub open spec fn sum_fits(a: GridCell, b: GridCell) -> bool {
    i32::MIN <= a.x + b.x <= i32::MAX
    && i32::MIN <= a.y + b.y <= i32::MAX
    && i32::MIN <= a.z + b.z <= i32::MAX
}

/// The component-wise difference, when every component fits in an `i32`.
pub open spec fn diff_fits(a: GridCell, b: GridCell) -> bool {
    i32::MIN <= a.x - b.x <= i32::MAX
    && i32::MIN <= a.y - b.y <= i32::MAX
    && i32::MIN <= a.z - b.z <= i32::MAX
}

pub open spec fn cell_sum(a: GridCell, b: GridCell) -> GridCell {
    GridCell { x: (a.x + b.x) as i32, y: (a.y + b.y) as i32, z: (a.z + b.z) as i32 }
}

pub open spec fn cell_diff(a: GridCell, b: GridCell) -> GridCell {
    GridCell { x: (a.x - b.x) as i32, y: (a.y - b.y) as i32, z: (a.z - b.z) as i32 }
}

/// The displacement that stands for "no pending movement".
pub open spec fn zero_cell() -> GridCell {
    GridCell { x: 0, y: 0, z: 0 }
}

/// One step straight down.
pub open spec fn down_cell() -> GridCell {
    GridCell { x: 0, y: -1i32, z: 0 }
}

impl GridCell {
    pub fn new(x: i32, y: i32, z: i32) -> (r: Self)
        ensures
            r == (GridCell { x, y, z }),
    {
        Self { x, y, z }
    }

    /// Sets the cell back to the zero displacement.
    pub fn reset(&mut self)
        ensures
            *final(self) == zero_cell(),
    {
        self.x = 0;
        self.y = 0;
        self.z = 0;
    }

    /// Whether some component lies below `min` or above `max`.
    pub fn out_of_bounds(&self, min: GridCell, max: GridCell) -> (r: bool)
        ensures
            r == (self.x < min.x || self.y < min.y || self.z < min.z || self.x > max.x
                || self.y > max.y || self.z > max.z),
    {
        self.x < min.x || self.y < min.y || self.z < min.z || self.x > max.x || self.y > max.y
            || self.z > max.z
    }

    pub fn add(self, other: GridCell) -> (r: GridCell)
        requires
            sum_fits(self, other),
        ensures
            r == cell_sum(self, other),
    {
        GridCell { x: self.x + other.x, y: self.y + other.y, z: self.z + other.z }
    }

    pub fn sub(self, other: GridCell) -> (r: GridCell)
        requires
            diff_fits(self, other),
        ensures
            r == cell_diff(self, other),
    {
        GridCell { x: self.x - other.x, y: self.y - other.y, z: self.z - other.z }
    }

    pub fn is_zero(&self) -> (r: bool)
        ensures
            r == (*self == zero_cell()),
    {
        self.x == 0 && self.y == 0 && self.z == 0
    }
}

} // verus!
