use vstd::prelude::*;
use crate::world::world_map::cell_index::CellIndex;

verus! {

/// Whether the cell is inside the cube with corners `min_cell` and `max_cell` (both included).
pub open spec fn in_cube(idx: CellIndex, min_cell: CellIndex, max_cell: CellIndex) -> bool {
    min_cell.x <= idx.x <= max_cell.x && min_cell.y <= idx.y <= max_cell.y && min_cell.z <= idx.z
        <= max_cell.z
}

pub open spec fn cube_width(min_cell: CellIndex, max_cell: CellIndex) -> int {
    max_cell.x - min_cell.x + 1
}

pub open spec fn cube_height(min_cell: CellIndex, max_cell: CellIndex) -> int {
    max_cell.y - min_cell.y + 1
}

pub open spec fn cube_depth(min_cell: CellIndex, max_cell: CellIndex) -> int {
    max_cell.z - min_cell.z + 1
}

/// Number of cells in the cube.
pub open spec fn cube_volume(min_cell: CellIndex, max_cell: CellIndex) -> int {
    if cube_width(min_cell, max_cell) > 0 && cube_height(min_cell, max_cell) > 0 && cube_depth(
        min_cell,
        max_cell,
    ) > 0 {
        cube_width(min_cell, max_cell) * (cube_depth(min_cell, max_cell) * cube_height(
            min_cell,
            max_cell,
        ))
    } else {
        0
    }
}

/// Position of a cell in the walk over the cube: x varies fastest, then z, then y.
pub open spec fn cube_position(idx: CellIndex, min_cell: CellIndex, max_cell: CellIndex) -> int {
    (idx.x - min_cell.x) + cube_width(min_cell, max_cell) * ((idx.z - min_cell.z) + cube_depth(
        min_cell,
        max_cell,
    ) * (idx.y - min_cell.y))
}

proof fn lemma_split_unique(a1: int, b1: int, a2: int, b2: int, w: int)
    requires
        0 <= a1 < w,
        0 <= a2 < w,
        a1 + w * b1 == a2 + w * b2,
    ensures
        a1 == a2,
        b1 == b2,
{
    if b1 < b2 {
        assert(w * b2 - w * b1 >= w) by (nonlinear_arith)
            requires
                b1 < b2,
                w > 0,
        ;
    } else if b1 > b2 {
        assert(w * b1 - w * b2 >= w) by (nonlinear_arith)
            requires
                b1 > b2,
                w > 0,
        ;
    }
}

proof fn lemma_split_bound(a: int, b: int, w: int, n: int)
    requires
        0 <= a < w,
        0 <= b < n,
    ensures
        0 <= a + w * b < w * n,
{
    assert(0 <= a + w * b < w * n) by (nonlinear_arith)
        requires
            0 <= a < w,
            0 <= b < n,
    ;
}

/// The walk visits each cell of the cube once, at a position below the volume.
pub proof fn lemma_cube_position(idx: CellIndex, min_cell: CellIndex, max_cell: CellIndex)
    requires
        in_cube(idx, min_cell, max_cell),
    ensures
        0 <= cube_position(idx, min_cell, max_cell) < cube_volume(min_cell, max_cell),
        forall|other: CellIndex|
            in_cube(other, min_cell, max_cell) && cube_position(other, min_cell, max_cell)
                == cube_position(idx, min_cell, max_cell) ==> other == idx,
{
    let w = cube_width(min_cell, max_cell);
    let d = cube_depth(min_cell, max_cell);
    let h = cube_height(min_cell, max_cell);
    lemma_split_bound(idx.z - min_cell.z, idx.y - min_cell.y, d, h);
    lemma_split_bound(
        idx.x - min_cell.x,
        (idx.z - min_cell.z) + d * (idx.y - min_cell.y),
        w,
        d * h,
    );
    assert forall|other: CellIndex|
        in_cube(other, min_cell, max_cell) && cube_position(other, min_cell, max_cell)
            == cube_position(idx, min_cell, max_cell) implies other == idx by {
        lemma_split_unique(
            idx.x - min_cell.x,
            (idx.z - min_cell.z) + d * (idx.y - min_cell.y),
            other.x - min_cell.x,
            (other.z - min_cell.z) + d * (other.y - min_cell.y),
            w,
        );
        lemma_split_unique(
            idx.z - min_cell.z,
            idx.y - min_cell.y,
            other.z - min_cell.z,
            other.y - min_cell.y,
            d,
        );
    }
}

/// What a walk over the cube lists: each cell of the cube at its position.
pub open spec fn is_cube_walk(cells: Seq<CellIndex>, min_cell: CellIndex, max_cell: CellIndex) -> bool {
    &&& cells.len() == cube_volume(min_cell, max_cell)
    &&& forall|k: int|
        0 <= k < cells.len() ==> in_cube(#[trigger] cells[k], min_cell, max_cell) && cube_position(
            cells[k],
            min_cell,
            max_cell,
        ) == k
    &&& forall|idx: CellIndex|
        in_cube(idx, min_cell, max_cell) ==> cells[#[trigger] cube_position(idx, min_cell, max_cell)]
            == idx
}

/// The cells of the cube with corners `min_cell` and `max_cell`, x varying fastest, then z,
/// then y.
pub fn cell_cube(min_cell: CellIndex, max_cell: CellIndex) -> (result: Vec<CellIndex>)
    ensures
        is_cube_walk(result@, min_cell, max_cell),
{
    let mut result: Vec<CellIndex> = Vec::new();
    if max_cell.x < min_cell.x || max_cell.y < min_cell.y || max_cell.z < min_cell.z {
        return result;
    }
    let ghost w = cube_width(min_cell, max_cell);
    let ghost d = cube_depth(min_cell, max_cell);
    let mut y: i64 = min_cell.y as i64;
    while y <= max_cell.y as i64
        invariant
            min_cell.x <= max_cell.x,
            min_cell.y <= max_cell.y,
            min_cell.z <= max_cell.z,
            w == cube_width(min_cell, max_cell),
            d == cube_depth(min_cell, max_cell),
            min_cell.y <= y <= max_cell.y + 1,
            result@.len() == w * (d * (y - min_cell.y)),
            forall|k: int|
                0 <= k < result@.len() ==> in_cube(#[trigger] result@[k], min_cell, max_cell)
                    && cube_position(result@[k], min_cell, max_cell) == k,
        decreases max_cell.y + 1 - y,
    {
        let mut z: i64 = min_cell.z as i64;
        while z <= max_cell.z as i64
            invariant
                min_cell.x <= max_cell.x,
                min_cell.z <= max_cell.z,
                w == cube_width(min_cell, max_cell),
                d == cube_depth(min_cell, max_cell),
                min_cell.y <= y <= max_cell.y,
                min_cell.z <= z <= max_cell.z + 1,
                result@.len() == w * ((z - min_cell.z) + d * (y - min_cell.y)),
                forall|k: int|
                    0 <= k < result@.len() ==> in_cube(#[trigger] result@[k], min_cell, max_cell)
                        && cube_position(result@[k], min_cell, max_cell) == k,
            decreases max_cell.z + 1 - z,
        {
            let mut x: i64 = min_cell.x as i64;
            while x <= max_cell.x as i64
                invariant
                    min_cell.x <= max_cell.x,
                    w == cube_width(min_cell, max_cell),
                    d == cube_depth(min_cell, max_cell),
                    min_cell.y <= y <= max_cell.y,
                    min_cell.z <= z <= max_cell.z,
                    min_cell.x <= x <= max_cell.x + 1,
                    result@.len() == (x - min_cell.x) + w * ((z - min_cell.z) + d * (y
                        - min_cell.y)),
                    forall|k: int|
                        0 <= k < result@.len() ==> in_cube(
                            #[trigger] result@[k],
                            min_cell,
                            max_cell,
                        ) && cube_position(result@[k], min_cell, max_cell) == k,
                decreases max_cell.x + 1 - x,
            {
                result.push(CellIndex { x: x as i32, y: y as i32, z: z as i32 });
                x = x + 1;
            }
            assert(w + w * ((z - min_cell.z) + d * (y - min_cell.y)) == w * ((z + 1 - min_cell.z)
                + d * (y - min_cell.y))) by (nonlinear_arith);
            z = z + 1;
        }
        assert(w * (d + d * (y - min_cell.y)) == w * (d * (y + 1 - min_cell.y))) by (nonlinear_arith);
        y = y + 1;
    }
    proof {
        assert forall|idx: CellIndex| in_cube(idx, min_cell, max_cell) implies result@[#[trigger] cube_position(
            idx,
            min_cell,
            max_cell,
        )] == idx by {
            lemma_cube_position(idx, min_cell, max_cell);
            let k = cube_position(idx, min_cell, max_cell);
            assert(in_cube(result@[k], min_cell, max_cell));
        }
    }
    result
}

/// Componentwise minimum of two cells.
pub open spec fn spec_min_corner(a: CellIndex, b: CellIndex) -> CellIndex {
    CellIndex {
        x: if a.x <= b.x { a.x } else { b.x },
        y: if a.y <= b.y { a.y } else { b.y },
        z: if a.z <= b.z { a.z } else { b.z },
    }
}

/// Componentwise maximum of two cells.
pub open spec fn spec_max_corner(a: CellIndex, b: CellIndex) -> CellIndex {
    CellIndex {
        x: if a.x >= b.x { a.x } else { b.x },
        y: if a.y >= b.y { a.y } else { b.y },
        z: if a.z >= b.z { a.z } else { b.z },
    }
}

/// The cells of the cube that has `a` and `b` as opposite corners, whichever they are.
pub fn cell_cube_from_mixed(a: CellIndex, b: CellIndex) -> (result: Vec<CellIndex>)
    ensures
        is_cube_walk(result@, spec_min_corner(a, b), spec_max_corner(a, b)),
{
    let min_cell = CellIndex {
        x: if a.x <= b.x { a.x } else { b.x },
        y: if a.y <= b.y { a.y } else { b.y },
        z: if a.z <= b.z { a.z } else { b.z },
    };
    let max_cell = CellIndex {
        x: if a.x >= b.x { a.x } else { b.x },
        y: if a.y >= b.y { a.y } else { b.y },
        z: if a.z >= b.z { a.z } else { b.z },
    };
    cell_cube(min_cell, max_cell)
}

} // verus!
