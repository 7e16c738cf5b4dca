use vstd::prelude::*;

verus! {

/// Position of a cell in the map.
///
/// The axes are isometric:
/// - x: right towards camera
/// - y: up
/// - z: left towards camera
#[derive(Copy, Clone, Debug, PartialEq, Eq, Structural, Default, Hash)]
pub struct CellIndex {
    pub x: i32,
    pub y: i32,
    pub z: i32,
}

/// Whether an integer fits in an `i32`.
pub open spec fn fits_i32(v: int) -> bool {
    i32::MIN <= v <= i32::MAX
}

impl CellIndex {
    pub fn new(x: i32, y: i32, z: i32) -> (result: CellIndex)
        ensures
            result == (CellIndex { x, y, z }),
    {
        CellIndex { x, y, z }
    }

    /// The cell at `(x + dx, y + dy, z + dz)`, if its coordinates fit in an `i32`.
    pub open spec fn offset_spec(self, dx: int, dy: int, dz: int) -> Option<CellIndex> {
        if fits_i32(self.x + dx) && fits_i32(self.y + dy) && fits_i32(self.z + dz) {
            Some(CellIndex { x: (self.x + dx) as i32, y: (self.y + dy) as i32, z: (self.z + dz) as i32 })
        } else {
            None
        }
    }

    /// Component-wise sum, or `None` where a coordinate would overflow.
    pub fn checked_plus(&self, diff: CellIndex) -> (result: Option<CellIndex>)
        ensures
            result == self.offset_spec(diff.x as int, diff.y as int, diff.z as int),
    {
        let x = self.x as i64 + diff.x as i64;
        let y = self.y as i64 + diff.y as i64;
        let z = self.z as i64 + diff.z as i64;
        if i32::MIN as i64 <= x && x <= i32::MAX as i64 && i32::MIN as i64 <= y && y
            <= i32::MAX as i64 && i32::MIN as i64 <= z && z <= i32::MAX as i64 {
            Some(CellIndex { x: x as i32, y: y as i32, z: z as i32 })
        } else {
            None
        }
    }

    /// Component-wise sum.
    pub fn plus(&self, diff: CellIndex) -> (result: CellIndex)
        requires
            self.offset_spec(diff.x as int, diff.y as int, diff.z as int) is Some,
        ensures
            Some(result) == self.offset_spec(diff.x as int, diff.y as int, diff.z as int),
    {
        CellIndex { x: self.x + diff.x, y: self.y + diff.y, z: self.z + diff.z }
    }

    /// Component-wise difference.
    pub fn minus(&self, other: CellIndex) -> (result: CellIndex)
        requires
            self.offset_spec(-other.x, -other.y, -other.z) is Some,
        ensures
            Some(result) == self.offset_spec(-other.x, -other.y, -other.z),
    {
        CellIndex { x: self.x - other.x, y: self.y - other.y, z: self.z - other.z }
    }
}

/// One level up.
pub fn up() -> (result: CellIndex)
    ensures
        result == (CellIndex { x: 0, y: 1, z: 0 }),
{
    CellIndex { x: 0, y: 1, z: 0 }
}

/// One level down.
pub fn down() -> (result: CellIndex)
    ensures
        result == (CellIndex { x: 0, y: -1i32, z: 0 }),
{
    CellIndex { x: 0, y: -1, z: 0 }
}

} // verus!
