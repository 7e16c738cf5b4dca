use vstd::prelude::*;
use crate::world::world_map::cell::{Cell, TileType};
use crate::world::world_map::cell_index::CellIndex;

verus! {

/// Number of cells along each side of a chunk.
pub const CHUNK_SIDE: i32 = 16;

/// Number of cells in a chunk.
pub const SIZE: usize = 4096;

/// The chunk that holds a coordinate: the coordinate divided by the side, rounding down.
pub open spec fn chunk_coord(v: int) -> int {
    v / 16
}

/// Position of a coordinate inside its chunk.
pub open spec fn local_coord(v: int) -> int {
    v % 16
}

/// Index of the chunk that holds the cell.
pub open spec fn spec_chunk_index(idx: CellIndex) -> CellIndex {
    CellIndex {
        x: chunk_coord(idx.x as int) as i32,
        y: chunk_coord(idx.y as int) as i32,
        z: chunk_coord(idx.z as int) as i32,
    }
}

/// Position of the cell inside the cells of its chunk: x varies fastest, then z, then y.
pub open spec fn spec_local_offset(idx: CellIndex) -> int {
    local_coord(idx.x as int) + 16 * local_coord(idx.z as int) + 256 * local_coord(idx.y as int)
}

/// The cell at position `i` of the chunk with index `chunk_index`.
pub open spec fn spec_cell_index_in_chunk(chunk_index: CellIndex, i: int) -> CellIndex {
    CellIndex {
        x: (16 * chunk_index.x + i % 16) as i32,
        y: (16 * chunk_index.y + i / 256) as i32,
        z: (16 * chunk_index.z + (i / 16) % 16) as i32,
    }
}

/// Chunk coordinates whose cells all have `i32` coordinates.
pub open spec fn chunk_coord_in_range(c: int) -> bool {
    -134217728 <= c <= 134217727
}

pub open spec fn chunk_index_in_range(chunk_index: CellIndex) -> bool {
    chunk_coord_in_range(chunk_index.x as int) && chunk_coord_in_range(chunk_index.y as int)
        && chunk_coord_in_range(chunk_index.z as int)
}

proof fn lemma_coord_roundtrip(v: int)
    requires
        i32::MIN <= v <= i32::MAX,
    ensures
        chunk_coord_in_range(chunk_coord(v)),
        0 <= local_coord(v) < 16,
        16 * chunk_coord(v) + local_coord(v) == v,
{
}

proof fn lemma_coord_split(c: int, l: int)
    requires
        0 <= l < 16,
    ensures
        chunk_coord(16 * c + l) == c,
        local_coord(16 * c + l) == l,
{
    assert((16 * c + l) / 16 == c) by (nonlinear_arith)
        requires
            0 <= l < 16,
    ;
    assert((16 * c + l) % 16 == l) by (nonlinear_arith)
        requires
            0 <= l < 16,
    ;
}

proof fn lemma_offset_split(i: int)
    requires
        0 <= i < 4096,
    ensures
        i == i % 16 + 16 * ((i / 16) % 16) + 256 * (i / 256),
        0 <= i % 16 < 16,
        0 <= (i / 16) % 16 < 16,
        0 <= i / 256 < 16,
{
    assert(i == i % 16 + 16 * ((i / 16) % 16) + 256 * (i / 256)) by (nonlinear_arith)
        requires
            0 <= i < 4096,
    ;
}

/// Every cell is at one position of one chunk, and that chunk's cells all fit in `i32`.
pub proof fn lemma_cell_in_its_chunk(idx: CellIndex)
    ensures
        chunk_index_in_range(spec_chunk_index(idx)),
        0 <= spec_local_offset(idx) < SIZE,
        spec_cell_index_in_chunk(spec_chunk_index(idx), spec_local_offset(idx)) == idx,
{
    lemma_coord_roundtrip(idx.x as int);
    lemma_coord_roundtrip(idx.y as int);
    lemma_coord_roundtrip(idx.z as int);
    let lx = local_coord(idx.x as int);
    let ly = local_coord(idx.y as int);
    let lz = local_coord(idx.z as int);
    let i = lx + 16 * lz + 256 * ly;
    assert(i % 16 == lx && (i / 16) % 16 == lz && i / 256 == ly) by (nonlinear_arith)
        requires
            i == lx + 16 * lz + 256 * ly,
            0 <= lx < 16,
            0 <= ly < 16,
            0 <= lz < 16,
    ;
}

/// The position `i` of a chunk holds a cell of that chunk, at offset `i`.
pub proof fn lemma_chunk_position(chunk_index: CellIndex, i: int)
    requires
        chunk_index_in_range(chunk_index),
        0 <= i < SIZE,
    ensures
        spec_chunk_index(spec_cell_index_in_chunk(chunk_index, i)) == chunk_index,
        spec_local_offset(spec_cell_index_in_chunk(chunk_index, i)) == i,
{
    lemma_offset_split(i);
    lemma_coord_split(chunk_index.x as int, i % 16);
    lemma_coord_split(chunk_index.y as int, i / 256);
    lemma_coord_split(chunk_index.z as int, (i / 16) % 16);
}

fn chunk_coord_of(v: i32) -> (result: i32)
    ensures
        result == chunk_coord(v as int),
{
    let shifted: i64 = v as i64 + 2147483648i64;
    let quotient: i64 = shifted / 16;
    assert(quotient == chunk_coord(v as int) + 134217728) by (nonlinear_arith)
        requires
            shifted == v + 2147483648,
            shifted >= 0,
            quotient == shifted / 16,
    ;
    proof {
        lemma_coord_roundtrip(v as int);
    }
    (quotient - 134217728i64) as i32
}

/// Index of the chunk that holds the cell.
pub fn get_chunk_index(idx: CellIndex) -> (result: CellIndex)
    ensures
        result == spec_chunk_index(idx),
{
    CellIndex { x: chunk_coord_of(idx.x), y: chunk_coord_of(idx.y), z: chunk_coord_of(idx.z) }
}

/// Position of the cell inside the cells of its chunk.
pub fn get_local_offset(idx: CellIndex) -> (result: usize)
    ensures
        result == spec_local_offset(idx),
{
    proof {
        lemma_coord_roundtrip(idx.x as int);
        lemma_coord_roundtrip(idx.y as int);
        lemma_coord_roundtrip(idx.z as int);
    }
    let chunk = get_chunk_index(idx);
    let lx = (idx.x as i64 - 16 * chunk.x as i64) as usize;
    let ly = (idx.y as i64 - 16 * chunk.y as i64) as usize;
    let lz = (idx.z as i64 - 16 * chunk.z as i64) as usize;
    lx + 16 * lz + 256 * ly
}

/// The cell at position `i` of the chunk with index `chunk_index`.
pub fn get_cell_index(chunk_index: CellIndex, i: usize) -> (result: CellIndex)
    requires
        chunk_index_in_range(chunk_index),
        i < SIZE,
    ensures
        result == spec_cell_index_in_chunk(chunk_index, i as int),
{
    proof {
        lemma_offset_split(i as int);
    }
    let lx = (i % 16) as i32;
    let lz = ((i / 16) % 16) as i32;
    let ly = (i / 256) as i32;
    CellIndex { x: 16 * chunk_index.x + lx, y: 16 * chunk_index.y + ly, z: 16 * chunk_index.z + lz }
}

/// A cube of `SIZE` cells, of side `CHUNK_SIDE`.
pub struct Chunk {
    index: CellIndex,
    cells: Vec<Cell>,
}

impl Chunk {
    pub closed spec fn spec_index(&self) -> CellIndex {
        self.index
    }

    /// The cells of the chunk, by local offset.
    pub closed spec fn spec_cells(&self) -> Seq<Cell> {
        self.cells@
    }

    pub open spec fn wf(&self) -> bool {
        self.spec_cells().len() == SIZE && chunk_index_in_range(self.spec_index())
    }

    /// A chunk full of `Unset` cells.
    pub fn new(chunk_index: CellIndex) -> (result: Chunk)
        requires
            chunk_index_in_range(chunk_index),
        ensures
            result.wf(),
            result.spec_index() == chunk_index,
            forall|i: int| 0 <= i < SIZE ==> #[trigger] result.spec_cells()[i] == Cell::spec_new(TileType::Unset),
    {
        Chunk::new_with_default_cell(chunk_index, Cell::new(TileType::Unset))
    }

    /// A chunk where every cell is `default_cell`.
    pub fn new_with_default_cell(chunk_index: CellIndex, default_cell: Cell) -> (result: Chunk)
        requires
            chunk_index_in_range(chunk_index),
        ensures
            result.wf(),
            result.spec_index() == chunk_index,
            forall|i: int| 0 <= i < SIZE ==> #[trigger] result.spec_cells()[i] == default_cell,
    {
        let mut cells: Vec<Cell> = Vec::new();
        for i in 0..SIZE
            invariant
                cells@.len() == i,
                forall|j: int| 0 <= j < i ==> #[trigger] cells@[j] == default_cell,
        {
            cells.push(default_cell);
        }
        Chunk { index: chunk_index, cells }
    }

    /// A chunk holding the given cells.
    pub fn new_from_cells(cells: Vec<Cell>, chunk_index: CellIndex) -> (result: Chunk)
        requires
            chunk_index_in_range(chunk_index),
            cells@.len() == SIZE,
        ensures
            result.wf(),
            result.spec_index() == chunk_index,
            result.spec_cells() == cells@,
    {
        Chunk { index: chunk_index, cells }
    }

    pub fn get_index(&self) -> (result: CellIndex)
        ensures
            result == self.spec_index(),
    {
        self.index
    }

    /// The cell at a position of this chunk.
    pub fn get_cell(&self, idx: CellIndex) -> (result: &Cell)
        requires
            self.wf(),
            spec_chunk_index(idx) == self.spec_index(),
        ensures
            *result == self.spec_cells()[spec_local_offset(idx)],
    {
        proof {
            lemma_cell_in_its_chunk(idx);
        }
        let i = get_local_offset(idx);
        &self.cells[i]
    }

    /// The cell at a local offset of this chunk.
    pub fn get_cell_at(&self, i: usize) -> (result: &Cell)
        requires
            self.wf(),
            i < SIZE,
        ensures
            *result == self.spec_cells()[i as int],
    {
        &self.cells[i]
    }

    /// Overwrites the cell at a position of this chunk.
    pub fn set_cell(&mut self, idx: CellIndex, cell: Cell)
        requires
            old(self).wf(),
            spec_chunk_index(idx) == old(self).spec_index(),
        ensures
            final(self).wf(),
            final(self).spec_index() == old(self).spec_index(),
            final(self).spec_cells() == old(self).spec_cells().update(spec_local_offset(idx), cell),
    {
        proof {
            lemma_cell_in_its_chunk(idx);
        }
        let i = get_local_offset(idx);
        self.cells.set(i, cell);
    }

    /// The cell at a position of this chunk, to be changed in place.
    pub fn get_cell_mut(&mut self, idx: CellIndex) -> (result: &mut Cell)
        requires
            old(self).wf(),
            spec_chunk_index(idx) == old(self).spec_index(),
        ensures
            *result == old(self).spec_cells()[spec_local_offset(idx)],
            final(self).wf(),
            final(self).spec_index() == old(self).spec_index(),
            final(self).spec_cells() == old(self).spec_cells().update(
                spec_local_offset(idx),
                *final(result),
            ),
    {
        proof {
            lemma_cell_in_its_chunk(idx);
        }
        let i = get_local_offset(idx);
        &mut self.cells[i]
    }

    /// Iterates over the cells of this chunk, letting the caller change each of them.
    pub fn into_iter_mut(self) -> (result: CellIter)
        requires
            self.wf(),
        ensures
            result.wf(),
            result.spec_chunk_index() == self.spec_index(),
            result.spec_cells() == self.spec_cells(),
            result.spec_position() == 0,
    {
        CellIter::new(self.cells, self.index)
    }
}

/// Walks the cells of a chunk in order of local offset, handing out each cell to be changed.
pub struct CellIter {
    cells: Vec<Cell>,
    i: i32,
    origin: CellIndex,
}

/// A cell handed out by `CellIter`, with its position in the map.
pub struct CellIterItem<'a> {
    pub cell_index: CellIndex,
    pub cell: &'a mut Cell,
}

impl CellIter {
    pub closed spec fn wf(&self) -> bool {
        &&& self.cells@.len() == SIZE
        &&& chunk_index_in_range(self.origin)
        &&& -1 <= self.i < SIZE
    }

    pub closed spec fn spec_chunk_index(&self) -> CellIndex {
        self.origin
    }

    pub closed spec fn spec_cells(&self) -> Seq<Cell> {
        self.cells@
    }

    /// How many cells have been handed out.
    pub closed spec fn spec_position(&self) -> int {
        self.i + 1
    }

    /// Between none and all of the cells have been handed out.
    pub proof fn lemma_position(&self)
        requires
            self.wf(),
        ensures
            0 <= self.spec_position() <= SIZE,
            self.spec_cells().len() == SIZE,
            chunk_index_in_range(self.spec_chunk_index()),
    {
    }

    pub fn new(cells: Vec<Cell>, chunk_index: CellIndex) -> (result: CellIter)
        requires
            cells@.len() == SIZE,
            chunk_index_in_range(chunk_index),
        ensures
            result.wf(),
            result.spec_chunk_index() == chunk_index,
            result.spec_cells() == cells@,
            result.spec_position() == 0,
    {
        CellIter { cells, i: -1, origin: chunk_index }
    }

    /// Gives the (possibly changed) cells back as a chunk.
    pub fn into_chunk(self) -> (result: Chunk)
        requires
            self.wf(),
        ensures
            result.wf(),
            result.spec_index() == self.spec_chunk_index(),
            result.spec_cells() == self.spec_cells(),
    {
        Chunk::new_from_cells(self.cells, self.origin)
    }

    /// Whether there are cells that have not been handed out yet.
    pub fn has_next(&self) -> (result: bool)
        requires
            self.wf(),
        ensures
            result == (self.spec_position() < SIZE),
    {
        self.i + 1 < SIZE as i32
    }

    /// Hands out the next cell and its position, or `None` after the last one.
    pub fn next(&mut self) -> (result: Option<CellIterItem<'_>>)
        requires
            old(self).wf(),
        ensures
            final(self).wf(),
            final(self).spec_chunk_index() == old(self).spec_chunk_index(),
            old(self).spec_position() < SIZE ==> {
                &&& result is Some
                &&& final(self).spec_position() == old(self).spec_position() + 1
                &&& result->0.cell_index == spec_cell_index_in_chunk(
                    old(self).spec_chunk_index(),
                    old(self).spec_position(),
                )
                &&& *result->0.cell == old(self).spec_cells()[old(self).spec_position()]
                &&& final(self).spec_cells() == old(self).spec_cells().update(
                    old(self).spec_position(),
                    *final(result->0.cell),
                )
            },
            old(self).spec_position() >= SIZE ==> {
                &&& result is None
                &&& *final(self) == *old(self)
            },
            spec_next_step(
                *old(self),
                *final(self),
                match result {
                    Some(item) => Some(item.cell_index),
                    None => None,
                },
            ),
    {
        if self.has_next() {
            self.i = self.i + 1;
            let i = self.i as usize;
            let cell_index = get_cell_index(self.origin, i);
            Some(CellIterItem { cell_index, cell: &mut self.cells[i] })
        } else {
            None
        }
    }
}

/// One call of `CellIter::next`: from `before` to `after`, handing out the cell at `handed`,
/// or nothing once every cell was handed out.
pub open spec fn spec_next_step(before: CellIter, after: CellIter, handed: Option<CellIndex>) -> bool {
    &&& after.wf()
    &&& after.spec_chunk_index() == before.spec_chunk_index()
    &&& before.spec_position() < SIZE ==> {
        &&& handed == Some(spec_cell_index_in_chunk(before.spec_chunk_index(), before.spec_position()))
        &&& after.spec_position() == before.spec_position() + 1
    }
    &&& before.spec_position() >= SIZE ==> handed is None && after == before
}

/// Walking a chunk's cells with calls of `next` from a new iterator: `walk[j]` is the iterator
/// after `j` calls and `handed[j]` what call `j` handed out. After `j` calls, `min(j, SIZE)` cells
/// were handed out, so `has_next` holds exactly while `j < SIZE`; call `j` hands out the cell at
/// local offset `j` while `j < SIZE`, and nothing after.
pub proof fn lemma_walk_in_order(walk: Seq<CellIter>, handed: Seq<Option<CellIndex>>)
    requires
        walk.len() == handed.len() + 1,
        walk[0].wf(),
        walk[0].spec_position() == 0,
        forall|j: int| 0 <= j < handed.len() ==> spec_next_step(walk[j], walk[j + 1], #[trigger] handed[j]),
    ensures
        forall|j: int|
            0 <= j < walk.len() ==> {
                &&& (#[trigger] walk[j]).wf()
                &&& walk[j].spec_chunk_index() == walk[0].spec_chunk_index()
                &&& walk[j].spec_position() == if j < SIZE {
                    j
                } else {
                    SIZE as int
                }
                &&& (walk[j].spec_position() < SIZE) == (j < SIZE)
            },
        forall|j: int|
            0 <= j < handed.len() ==> #[trigger] handed[j] == if j < SIZE {
                Some(spec_cell_index_in_chunk(walk[0].spec_chunk_index(), j))
            } else {
                None
            },
{
    lemma_walk_prefix(walk, handed, handed.len() as int);
}

/// The first `n` calls of a walk hand out the cells in order.
proof fn lemma_walk_prefix(walk: Seq<CellIter>, handed: Seq<Option<CellIndex>>, n: int)
    requires
        walk.len() == handed.len() + 1,
        0 <= n <= handed.len(),
        walk[0].wf(),
        walk[0].spec_position() == 0,
        forall|j: int| 0 <= j < handed.len() ==> spec_next_step(walk[j], walk[j + 1], #[trigger] handed[j]),
    ensures
        forall|j: int|
            0 <= j <= n ==> {
                &&& (#[trigger] walk[j]).wf()
                &&& walk[j].spec_chunk_index() == walk[0].spec_chunk_index()
                &&& walk[j].spec_position() == if j < SIZE {
                    j
                } else {
                    SIZE as int
                }
                &&& (walk[j].spec_position() < SIZE) == (j < SIZE)
            },
        forall|j: int|
            0 <= j < n ==> #[trigger] handed[j] == if j < SIZE {
                Some(spec_cell_index_in_chunk(walk[0].spec_chunk_index(), j))
            } else {
                None
            },
    decreases n,
{
    if n > 0 {
        lemma_walk_prefix(walk, handed, n - 1);
        let h = handed[n - 1];
        assert(spec_next_step(walk[n - 1], walk[n - 1 + 1], h));
    }
}

} // verus!
