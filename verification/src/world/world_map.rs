pub mod cell;
pub mod cell_cube_iterator;
pub mod cell_envelope;
pub mod cell_index;
pub mod cell_set;
pub mod chunk;
pub mod generation;
pub mod map_iterator;
pub mod transform_cells;
pub mod transformation_rules;

use vstd::prelude::*;
use crate::world::world_map::cell::{Cell, Pressure, TileType};
use crate::world::world_map::cell_cube_iterator::{
    cell_cube, cube_position, cube_volume, in_cube, is_cube_walk,
};
use crate::world::world_map::cell_index::CellIndex;
use crate::world::world_map::chunk::{
    chunk_index_in_range, get_cell_index, get_chunk_index, lemma_cell_in_its_chunk,
    lemma_chunk_position, spec_cell_index_in_chunk, spec_chunk_index, spec_local_offset, Chunk,
    SIZE,
};

verus! {

/// Half of the side of the default map.
pub const MAP_HALF_SIDE: i32 = 32;

#[derive(Copy, Clone, PartialEq, Eq, Debug, Structural)]
pub enum MapType {
    Island,
    Simplex,
}

/// Position of the last chunk of `chunks` whose index is `chunk_index`, or -1 if there is none.
pub open spec fn find_chunk_pos(chunks: Seq<Chunk>, chunk_index: CellIndex) -> int
    decreases chunks.len(),
{
    if chunks.len() == 0 {
        -1
    } else if chunks.last().spec_index() == chunk_index {
        chunks.len() - 1
    } else {
        find_chunk_pos(chunks.drop_last(), chunk_index)
    }
}

/// The only chunk with the index is found.
pub proof fn lemma_find_unique(chunks: Seq<Chunk>, chunk_index: CellIndex, j: int)
    requires
        0 <= j < chunks.len(),
        chunks[j].spec_index() == chunk_index,
        forall|k: int| 0 <= k < chunks.len() && k != j ==> chunks[k].spec_index() != chunk_index,
    ensures
        find_chunk_pos(chunks, chunk_index) == j,
    decreases chunks.len(),
{
    if j != chunks.len() - 1 {
        let rest = chunks.drop_last();
        assert forall|k: int| 0 <= k < rest.len() && k != j implies rest[k].spec_index()
            != chunk_index by {
            assert(rest[k] == chunks[k]);
        }
        lemma_find_unique(rest, chunk_index, j);
    }
}

/// A chunk index that no chunk has is not found.
pub proof fn lemma_find_absent(chunks: Seq<Chunk>, chunk_index: CellIndex)
    requires
        forall|k: int| 0 <= k < chunks.len() ==> chunks[k].spec_index() != chunk_index,
    ensures
        find_chunk_pos(chunks, chunk_index) == -1,
    decreases chunks.len(),
{
    if chunks.len() > 0 {
        let rest = chunks.drop_last();
        assert forall|k: int| 0 <= k < rest.len() implies rest[k].spec_index() != chunk_index by {
            assert(rest[k] == chunks[k]);
        }
        lemma_find_absent(rest, chunk_index);
    }
}

/// What is found is a chunk with the index.
pub proof fn lemma_find_found(chunks: Seq<Chunk>, chunk_index: CellIndex)
    ensures
        -1 <= find_chunk_pos(chunks, chunk_index) < chunks.len(),
        find_chunk_pos(chunks, chunk_index) >= 0 ==> chunks[find_chunk_pos(chunks, chunk_index)].spec_index()
            == chunk_index,
        find_chunk_pos(chunks, chunk_index) == -1 ==> forall|k: int|
            0 <= k < chunks.len() ==> chunks[k].spec_index() != chunk_index,
    decreases chunks.len(),
{
    if chunks.len() > 0 && chunks.last().spec_index() != chunk_index {
        let rest = chunks.drop_last();
        lemma_find_found(rest, chunk_index);
        if find_chunk_pos(rest, chunk_index) == -1 {
            assert forall|k: int| 0 <= k < chunks.len() implies chunks[k].spec_index()
                != chunk_index by {
                if k < rest.len() {
                    assert(rest[k] == chunks[k]);
                }
            }
        }
    }
}

/// Whether two sequences of chunks hold the same chunk indices in the same places.
pub open spec fn same_indices(a: Seq<Chunk>, b: Seq<Chunk>) -> bool {
    a.len() == b.len() && forall|k: int| 0 <= k < a.len() ==> #[trigger] a[k].spec_index()
        == b[k].spec_index()
}

pub proof fn lemma_find_same_indices(a: Seq<Chunk>, b: Seq<Chunk>, chunk_index: CellIndex)
    requires
        same_indices(a, b),
    ensures
        find_chunk_pos(a, chunk_index) == find_chunk_pos(b, chunk_index),
    decreases a.len(),
{
    if a.len() > 0 {
        assert(a.last().spec_index() == b.last().spec_index());
        let (ra, rb) = (a.drop_last(), b.drop_last());
        assert forall|k: int| 0 <= k < ra.len() implies #[trigger] ra[k].spec_index()
            == rb[k].spec_index() by {
            assert(ra[k] == a[k] && rb[k] == b[k]);
        }
        lemma_find_same_indices(ra, rb, chunk_index);
    }
}

/// Sequences of chunks with the same indexes and the same cells in the same places hold the
/// same cells.
pub proof fn lemma_same_chunk_contents(a: Seq<Chunk>, b: Seq<Chunk>)
    requires
        a.len() == b.len(),
        forall|k: int| 0 <= k < a.len() ==> #[trigger] a[k].spec_index() == b[k].spec_index()
            && a[k].spec_cells() == b[k].spec_cells(),
    ensures
        cells_of(a) == cells_of(b),
{
    assert(same_indices(a, b));
    assert forall|idx: CellIndex| #[trigger] cells_of(a).dom().contains(idx) == cells_of(b).dom().contains(idx) by {
        lemma_find_same_indices(a, b, spec_chunk_index(idx));
    }
    assert forall|idx: CellIndex| cells_of(a).dom().contains(idx) implies #[trigger] cells_of(a)[idx] == cells_of(b)[idx] by {
        lemma_find_same_indices(a, b, spec_chunk_index(idx));
        lemma_find_found(a, spec_chunk_index(idx));
        let j = find_chunk_pos(a, spec_chunk_index(idx));
        assert(a[j].spec_cells() == b[j].spec_cells());
    }
    assert(cells_of(a) =~= cells_of(b));
}

/// The cells of a sequence of chunks, by position in the map.
pub open spec fn cells_of(chunks: Seq<Chunk>) -> Map<CellIndex, Cell> {
    Map::new(
        |idx: CellIndex| find_chunk_pos(chunks, spec_chunk_index(idx)) >= 0,
        |idx: CellIndex| chunks[find_chunk_pos(chunks, spec_chunk_index(idx))].spec_cells()[spec_local_offset(idx)],
    )
}

/// Whether every chunk is well formed and no two chunks have the same index.
pub open spec fn chunks_wf(chunks: Seq<Chunk>) -> bool {
    &&& forall|k: int| 0 <= k < chunks.len() ==> #[trigger] chunks[k].wf()
    &&& forall|k: int, l: int|
        0 <= k < chunks.len() && 0 <= l < chunks.len() && k != l ==> chunks[k].spec_index()
            != chunks[l].spec_index()
}

/// The map of cells, stored in chunks of `SIZE` cells. The map holds exactly the cells of its
/// chunks; `min_cell` and `max_cell` are the corners of the region the map was made for.
pub struct WorldMap {
    chunks: Vec<Chunk>,
    min_cell: CellIndex,
    max_cell: CellIndex,
    ship_position: Option<CellIndex>,
    map_type: MapType,
}

impl View for WorldMap {
    type V = Map<CellIndex, Cell>;

    closed spec fn view(&self) -> Map<CellIndex, Cell> {
        cells_of(self.chunks@)
    }
}

impl WorldMap {
    pub closed spec fn wf(&self) -> bool {
        chunks_wf(self.chunks@)
    }

    pub closed spec fn spec_chunks(&self) -> Seq<Chunk> {
        self.chunks@
    }

    pub closed spec fn spec_min_cell(&self) -> CellIndex {
        self.min_cell
    }

    pub closed spec fn spec_max_cell(&self) -> CellIndex {
        self.max_cell
    }

    pub closed spec fn spec_ship_position(&self) -> Option<CellIndex> {
        self.ship_position
    }

    pub closed spec fn spec_map_type(&self) -> MapType {
        self.map_type
    }

    /// The cells of the map are those of its chunks.
    pub proof fn lemma_view(&self)
        ensures
            self@ == cells_of(self.spec_chunks()),
    {
    }

    /// Whether the map has a chunk with this index.
    pub open spec fn has_chunk(&self, chunk_index: CellIndex) -> bool {
        find_chunk_pos(self.spec_chunks(), chunk_index) >= 0
    }

    /// The map holds every cell of each of its chunks, and only those.
    pub proof fn lemma_domain(&self, idx: CellIndex)
        ensures
            self@.dom().contains(idx) <==> self.has_chunk(spec_chunk_index(idx)),
    {
    }

    /// Position of the chunk with the given index, if there is one.
    fn find_chunk(&self, chunk_index: CellIndex) -> (result: Option<usize>)
        requires
            self.wf(),
        ensures
            match result {
                Some(j) => j < self.chunks@.len() && j == find_chunk_pos(self.chunks@, chunk_index),
                None => find_chunk_pos(self.chunks@, chunk_index) == -1,
            },
    {
        let mut j: usize = 0;
        while j < self.chunks.len()
            invariant
                chunks_wf(self.chunks@),
                j <= self.chunks@.len(),
                forall|k: int| 0 <= k < j ==> self.chunks@[k].spec_index() != chunk_index,
            decreases self.chunks@.len() - j,
        {
            if self.chunks[j].get_index() == chunk_index {
                proof {
                    lemma_find_unique(self.chunks@, chunk_index, j as int);
                }
                return Some(j);
            }
            j = j + 1;
        }
        proof {
            lemma_find_absent(self.chunks@, chunk_index);
        }
        None
    }

    /// The cell at a local offset of the chunk at position `j` is the cell of the map at that
    /// place.
    proof fn lemma_chunk_cell(&self, j: int, i: int)
        requires
            self.wf(),
            0 <= j < self.chunks@.len(),
            0 <= i < SIZE,
        ensures
            self@.dom().contains(spec_cell_index_in_chunk(self.chunks@[j].spec_index(), i)),
            self@[spec_cell_index_in_chunk(self.chunks@[j].spec_index(), i)]
                == self.chunks@[j].spec_cells()[i],
    {
        let ci = self.chunks@[j].spec_index();
        assert(self.chunks@[j].wf());
        lemma_chunk_position(ci, i);
        lemma_find_unique(self.chunks@, ci, j);
    }

    /// Number of chunks.
    pub fn chunk_count(&self) -> (result: usize)
        ensures
            result == self.spec_chunks().len(),
    {
        self.chunks.len()
    }

    /// The chunk at position `j`.
    pub fn chunk_at(&self, j: usize) -> (result: &Chunk)
        requires
            j < self.spec_chunks().len(),
        ensures
            *result == self.spec_chunks()[j as int],
    {
        &self.chunks[j]
    }

    /// The cells at position `i` of chunk `j`: the map's cell at `get_cell_index(.., i)`.
    pub proof fn lemma_cell_of_chunk(&self, j: int, i: int)
        requires
            self.wf(),
            0 <= j < self.spec_chunks().len(),
            0 <= i < SIZE,
        ensures
            self.spec_chunks()[j].wf(),
            self@.dom().contains(spec_cell_index_in_chunk(self.spec_chunks()[j].spec_index(), i)),
            self@[spec_cell_index_in_chunk(self.spec_chunks()[j].spec_index(), i)]
                == self.spec_chunks()[j].spec_cells()[i],
    {
        self.lemma_chunk_cell(j, i);
    }

    /// Replaces every cell: cell `i` of chunk `j` becomes `cells[j][i]`.
    pub fn replace_all_cells(&mut self, cells: Vec<Vec<Cell>>)
        requires
            old(self).wf(),
            cells@.len() == old(self).spec_chunks().len(),
            forall|j: int| 0 <= j < cells@.len() ==> (#[trigger] cells@[j])@.len() == SIZE,
        ensures
            final(self).wf(),
            final(self)@.dom() == old(self)@.dom(),
            forall|j: int, i: int|
                0 <= j < cells@.len() && 0 <= i < SIZE ==> final(self)@[spec_cell_index_in_chunk(
                    old(self).spec_chunks()[j].spec_index(),
                    i,
                )] == cells@[j]@[i],
            final(self).spec_chunks().len() == old(self).spec_chunks().len(),
            forall|j: int| 0 <= j < cells@.len() ==> #[trigger] final(self).spec_chunks()[j].spec_index()
                == old(self).spec_chunks()[j].spec_index(),
            final(self).spec_min_cell() == old(self).spec_min_cell(),
            final(self).spec_max_cell() == old(self).spec_max_cell(),
            final(self).spec_ship_position() == old(self).spec_ship_position(),
            final(self).spec_map_type() == old(self).spec_map_type(),
    {
        let ghost old_chunks = self.chunks@;
        let mut cells = cells;
        let mut new_chunks: Vec<Chunk> = Vec::new();
        let n = self.chunks.len();
        let ghost all_cells = cells@;
        let mut rest: Vec<Vec<Cell>> = Vec::new();
        // take the cell vectors out in reverse so they can be moved into the chunks
        while cells.len() > 0
            invariant
                cells@.len() + rest@.len() == all_cells.len(),
                forall|k: int| 0 <= k < cells@.len() ==> cells@[k] == all_cells[k],
                forall|k: int|
                    0 <= k < rest@.len() ==> rest@[k] == all_cells[all_cells.len() - 1 - k],
            decreases cells@.len(),
        {
            let v = cells.pop().unwrap();
            rest.push(v);
        }
        let mut j: usize = 0;
        while j < n
            invariant
                n == old_chunks.len(),
                n == all_cells.len(),
                self.chunks@ == old_chunks,
                chunks_wf(old_chunks),
                j <= n,
                rest@.len() == n - j,
                forall|k: int| 0 <= k < rest@.len() ==> rest@[k] == all_cells[n - 1 - k],
                forall|k: int| 0 <= k < all_cells.len() ==> (#[trigger] all_cells[k])@.len() == SIZE,
                new_chunks@.len() == j,
                forall|k: int|
                    0 <= k < j ==> (#[trigger] new_chunks@[k]).spec_index()
                        == old_chunks[k].spec_index() && new_chunks@[k].wf()
                        && new_chunks@[k].spec_cells() == all_cells[k]@,
            decreases n - j,
        {
            let v = rest.pop().unwrap();
            assert(old_chunks[j as int].wf());
            let index = self.chunks[j].get_index();
            let chunk = Chunk::new_from_cells(v, index);
            new_chunks.push(chunk);
            j = j + 1;
        }
        proof {
            assert(same_indices(new_chunks@, old_chunks));
            assert forall|k: int, l: int|
                0 <= k < new_chunks@.len() && 0 <= l < new_chunks@.len() && k != l implies new_chunks@[k].spec_index()
                != new_chunks@[l].spec_index() by {
                assert(new_chunks@[k].spec_index() == old_chunks[k].spec_index());
                assert(new_chunks@[l].spec_index() == old_chunks[l].spec_index());
            }
        }
        self.chunks = new_chunks;
        proof {
            assert forall|idx: CellIndex| #[trigger] self@.dom().contains(idx) == old_chunks_dom(old_chunks, idx) by {
                lemma_find_same_indices(self.chunks@, old_chunks, spec_chunk_index(idx));
            }
            assert(self@.dom() =~= cells_of(old_chunks).dom());
            assert forall|j: int, i: int|
                0 <= j < all_cells.len() && 0 <= i < SIZE implies self@[spec_cell_index_in_chunk(
                old_chunks[j].spec_index(),
                i,
            )] == all_cells[j]@[i] by {
                self.lemma_chunk_cell(j, i);
            }
        }
    }
}


impl WorldMap {
    /// Replaces every cell `c` at position `idx` by `f(idx, c)`.
    pub(crate) fn update_every_cell<F: Fn(CellIndex, Cell) -> Cell>(&mut self, f: F)
        requires
            old(self).wf(),
            forall|idx: CellIndex| #[trigger] old(self)@.dom().contains(idx) ==> f.requires((idx, old(self)@[idx])),
        ensures
            final(self).wf(),
            final(self)@.dom() == old(self)@.dom(),
            forall|idx: CellIndex| #[trigger] old(self)@.dom().contains(idx) ==> f.ensures(
                (idx, old(self)@[idx]),
                final(self)@[idx],
            ),
            final(self).spec_min_cell() == old(self).spec_min_cell(),
            final(self).spec_max_cell() == old(self).spec_max_cell(),
            final(self).spec_ship_position() == old(self).spec_ship_position(),
            final(self).spec_map_type() == old(self).spec_map_type(),
    {
        let ghost m = self@;
        let n = self.chunks.len();
        let mut all_cells: Vec<Vec<Cell>> = Vec::new();
        let mut j: usize = 0;
        while j < n
            invariant
                self@ == m,
                self.wf(),
                n == self.spec_chunks().len(),
                forall|idx: CellIndex| #[trigger] m.dom().contains(idx) ==> f.requires((idx, m[idx])),
                j <= n,
                all_cells@.len() == j,
                forall|k: int| 0 <= k < j ==> (#[trigger] all_cells@[k])@.len() == SIZE,
                forall|k: int, i: int|
                    0 <= k < j && 0 <= i < SIZE ==> f.ensures(
                        (
                            spec_cell_index_in_chunk(self.spec_chunks()[k].spec_index(), i),
                            self.spec_chunks()[k].spec_cells()[i],
                        ),
                        all_cells@[k]@[i],
                    ),
            decreases n - j,
        {
            let chunk: &Chunk = &self.chunks[j];
            proof {
                self.lemma_cell_of_chunk(j as int, 0);
            }
            let chunk_index = chunk.get_index();
            let mut cells: Vec<Cell> = Vec::new();
            let mut i: usize = 0;
            while i < SIZE
                invariant
                    self@ == m,
                    self.wf(),
                    forall|idx: CellIndex| #[trigger] m.dom().contains(idx) ==> f.requires((idx, m[idx])),
                    j < self.spec_chunks().len(),
                    *chunk == self.spec_chunks()[j as int],
                    chunk.wf(),
                    chunk_index == chunk.spec_index(),
                    i <= SIZE,
                    cells@.len() == i,
                    forall|k: int|
                        0 <= k < i ==> f.ensures(
                            (spec_cell_index_in_chunk(chunk_index, k), chunk.spec_cells()[k]),
                            #[trigger] cells@[k],
                        ),
                decreases SIZE - i,
            {
                let cell_index = get_cell_index(chunk_index, i);
                let cell = *chunk.get_cell_at(i);
                proof {
                    self.lemma_cell_of_chunk(j as int, i as int);
                }
                let new_cell = f(cell_index, cell);
                cells.push(new_cell);
                i = i + 1;
            }
            all_cells.push(cells);
            j = j + 1;
        }
        let ghost before = *self;
        self.replace_all_cells(all_cells);
        proof {
            assert forall|idx: CellIndex| #[trigger] m.dom().contains(idx) implies f.ensures(
                (idx, m[idx]),
                self@[idx],
            ) by {
                let (k, i) = before.lemma_locate(idx);
                before.lemma_cell_of_chunk(k, i);
                assert(f.ensures(
                    (
                        spec_cell_index_in_chunk(before.spec_chunks()[k].spec_index(), i),
                        before.spec_chunks()[k].spec_cells()[i],
                    ),
                    all_cells@[k]@[i],
                ));
                assert(self@[idx] == all_cells@[k]@[i]);
            }
        }
    }

    /// The map made of these chunks and corners, ship position and type.
    pub(crate) fn from_parts(
        chunks: Vec<Chunk>,
        min_cell: CellIndex,
        max_cell: CellIndex,
        ship_position: Option<CellIndex>,
        map_type: MapType,
    ) -> (result: WorldMap)
        requires
            chunks_wf(chunks@),
        ensures
            result.wf(),
            result.spec_chunks() == chunks@,
            result@ == cells_of(chunks@),
            result.spec_min_cell() == min_cell,
            result.spec_max_cell() == max_cell,
            result.spec_ship_position() == ship_position,
            result.spec_map_type() == map_type,
    {
        WorldMap { chunks, min_cell, max_cell, ship_position, map_type }
    }

    /// The chunks, corners, ship position and type of the map.
    pub(crate) fn into_parts(self) -> (result: (Vec<Chunk>, CellIndex, CellIndex, Option<CellIndex>, MapType))
        ensures
            result.0@ == self.spec_chunks(),
            result.1 == self.spec_min_cell(),
            result.2 == self.spec_max_cell(),
            result.3 == self.spec_ship_position(),
            result.4 == self.spec_map_type(),
            self.wf() ==> chunks_wf(result.0@),
            self@ == cells_of(result.0@),
    {
        (self.chunks, self.min_cell, self.max_cell, self.ship_position, self.map_type)
    }

    /// Sets where the ship stands.
    pub(crate) fn set_ship_position(&mut self, ship_position: Option<CellIndex>)
        ensures
            final(self)@ == old(self)@,
            final(self).wf() == old(self).wf(),
            final(self).spec_chunks() == old(self).spec_chunks(),
            final(self).spec_min_cell() == old(self).spec_min_cell(),
            final(self).spec_max_cell() == old(self).spec_max_cell(),
            final(self).spec_ship_position() == ship_position,
            final(self).spec_map_type() == old(self).spec_map_type(),
    {
        self.ship_position = ship_position;
    }

    /// Sets how the map is generated.
    pub(crate) fn set_map_type(&mut self, map_type: MapType)
        ensures
            final(self)@ == old(self)@,
            final(self).wf() == old(self).wf(),
            final(self).spec_chunks() == old(self).spec_chunks(),
            final(self).spec_min_cell() == old(self).spec_min_cell(),
            final(self).spec_max_cell() == old(self).spec_max_cell(),
            final(self).spec_ship_position() == old(self).spec_ship_position(),
            final(self).spec_map_type() == map_type,
    {
        self.map_type = map_type;
    }
}

/// Changing one cell of one chunk changes that cell of the map and nothing else.
proof fn lemma_update_cell(chunks: Seq<Chunk>, idx: CellIndex, new_chunk: Chunk, c: Cell)
    requires
        chunks_wf(chunks),
        find_chunk_pos(chunks, spec_chunk_index(idx)) >= 0,
        new_chunk.wf(),
        new_chunk.spec_index() == chunks[find_chunk_pos(chunks, spec_chunk_index(idx))].spec_index(),
        new_chunk.spec_cells() == chunks[find_chunk_pos(
            chunks,
            spec_chunk_index(idx),
        )].spec_cells().update(spec_local_offset(idx), c),
    ensures
        chunks_wf(chunks.update(find_chunk_pos(chunks, spec_chunk_index(idx)), new_chunk)),
        cells_of(chunks.update(find_chunk_pos(chunks, spec_chunk_index(idx)), new_chunk))
            =~= cells_of(chunks).insert(idx, c),
{
    let j = find_chunk_pos(chunks, spec_chunk_index(idx));
    let updated = chunks.update(j, new_chunk);
    lemma_find_found(chunks, spec_chunk_index(idx));
    assert(same_indices(updated, chunks));
    lemma_cell_in_its_chunk(idx);
    assert forall|other: CellIndex| #[trigger] cells_of(updated).dom().contains(other)
        == cells_of(chunks).insert(idx, c).dom().contains(other) by {
        lemma_find_same_indices(updated, chunks, spec_chunk_index(other));
    }
    assert forall|other: CellIndex| #[trigger] cells_of(updated).dom().contains(other) implies cells_of(
        updated,
    )[other] == cells_of(chunks).insert(idx, c)[other] by {
        lemma_find_same_indices(updated, chunks, spec_chunk_index(other));
        lemma_find_found(chunks, spec_chunk_index(other));
        lemma_cell_in_its_chunk(other);
        let k = find_chunk_pos(chunks, spec_chunk_index(other));
        assert(chunks[j].wf());
        if other == idx {
            assert(cells_of(updated)[other] == c);
        } else if spec_chunk_index(other) == spec_chunk_index(idx) {
            assert(spec_local_offset(other) != spec_local_offset(idx));
            assert(k == j);
            assert(cells_of(updated)[other] == chunks[j].spec_cells()[spec_local_offset(other)]);
        } else {
            assert(k != j);
            assert(updated[k] == chunks[k]);
        }
    }
}

/// Adding a chunk with a new index adds its cells and keeps the others.
proof fn lemma_push_chunk(chunks: Seq<Chunk>, new_chunk: Chunk)
    requires
        chunks_wf(chunks),
        new_chunk.wf(),
        find_chunk_pos(chunks, new_chunk.spec_index()) == -1,
    ensures
        chunks_wf(chunks.push(new_chunk)),
        forall|ci: CellIndex| #[trigger] find_chunk_pos(chunks.push(new_chunk), ci) == if ci
            == new_chunk.spec_index() {
            chunks.len() as int
        } else {
            find_chunk_pos(chunks, ci)
        },
        forall|idx: CellIndex| #[trigger] cells_of(chunks.push(new_chunk)).dom().contains(idx) == (
        cells_of(chunks).dom().contains(idx) || spec_chunk_index(idx) == new_chunk.spec_index()),
        forall|idx: CellIndex| #[trigger]
            cells_of(chunks).dom().contains(idx) ==> cells_of(chunks.push(new_chunk))[idx]
                == cells_of(chunks)[idx],
        forall|idx: CellIndex|
            spec_chunk_index(idx) == new_chunk.spec_index() ==> #[trigger] cells_of(
                chunks.push(new_chunk),
            )[idx] == new_chunk.spec_cells()[spec_local_offset(idx)],
{
    let pushed = chunks.push(new_chunk);
    assert(pushed.drop_last() =~= chunks);
    lemma_find_found(chunks, new_chunk.spec_index());
    assert forall|k: int, l: int|
        0 <= k < pushed.len() && 0 <= l < pushed.len() && k != l implies pushed[k].spec_index()
        != pushed[l].spec_index() by {
        if k == chunks.len() {
            assert(chunks[l].spec_index() != new_chunk.spec_index());
        } else if l == chunks.len() {
            assert(chunks[k].spec_index() != new_chunk.spec_index());
        }
    }
    assert forall|ci: CellIndex| #[trigger] find_chunk_pos(pushed, ci) == if ci
        == new_chunk.spec_index() {
        chunks.len() as int
    } else {
        find_chunk_pos(chunks, ci)
    } by {
        lemma_find_found(chunks, ci);
    }
    assert forall|idx: CellIndex| #[trigger]
        cells_of(chunks).dom().contains(idx) implies cells_of(pushed)[idx] == cells_of(
        chunks,
    )[idx] by {
        lemma_find_found(chunks, spec_chunk_index(idx));
    }
}

pub open spec fn in_chunk_box(ci: CellIndex, lo: CellIndex, hi: CellIndex) -> bool {
    lo.x <= ci.x <= hi.x && lo.y <= ci.y <= hi.y && lo.z <= ci.z <= hi.z
}

/// Whether the chunks with these indices are exactly the chunks with a cell in the cube.
pub open spec fn spec_required_chunk(ci: CellIndex, min_cell: CellIndex, max_cell: CellIndex) -> bool {
    in_chunk_box(ci, spec_chunk_index(min_cell), spec_chunk_index(max_cell))
}

impl WorldMap {
    /// Whether the cell is in one of the chunks of the map. Cells of the chunks outside the
    /// `min_cell`..`max_cell` region are in range too.
    pub fn in_range(&self, cell_index: CellIndex) -> (result: bool)
        requires
            self.wf(),
        ensures
            result == self@.dom().contains(cell_index),
    {
        let ci = get_chunk_index(cell_index);
        self.find_chunk(ci).is_some()
    }

    pub fn get_cell(&self, index: CellIndex) -> (result: &Cell)
        requires
            self.wf(),
            self@.dom().contains(index),
        ensures
            *result == self@[index],
    {
        let ci = get_chunk_index(index);
        let j = self.find_chunk(ci).unwrap();
        proof {
            lemma_find_found(self.chunks@, ci);
            assert(self.chunks@[j as int].wf());
        }
        self.chunks[j].get_cell(index)
    }

    pub fn get_cell_optional(&self, index: CellIndex) -> (result: Option<&Cell>)
        requires
            self.wf(),
        ensures
            match result {
                Some(cell) => self@.dom().contains(index) && *cell == self@[index],
                None => !self@.dom().contains(index),
            },
    {
        let ci = get_chunk_index(index);
        match self.find_chunk(ci) {
            Some(j) => {
                proof {
                    lemma_find_found(self.chunks@, ci);
                    assert(self.chunks@[j as int].wf());
                }
                Some(self.chunks[j].get_cell(index))
            },
            None => None,
        }
    }

    /// The cell at a position, to be changed in place.
    pub fn get_cell_mut(&mut self, index: CellIndex) -> (result: &mut Cell)
        requires
            old(self).wf(),
            old(self)@.dom().contains(index),
        ensures
            *result == old(self)@[index],
            final(self).wf(),
            final(self)@ == old(self)@.insert(index, *final(result)),
            final(self).spec_min_cell() == old(self).spec_min_cell(),
            final(self).spec_max_cell() == old(self).spec_max_cell(),
            final(self).spec_ship_position() == old(self).spec_ship_position(),
            final(self).spec_map_type() == old(self).spec_map_type(),
            same_indices(final(self).spec_chunks(), old(self).spec_chunks()),
    {
        let ci = get_chunk_index(index);
        let j = self.find_chunk(ci).unwrap();
        proof {
            lemma_find_found(self.chunks@, ci);
            assert(self.chunks@[j as int].wf());
        }
        let ghost old_chunks = self.chunks@;
        let chunk = &mut self.chunks[j];
        let ghost final_chunk = *final(chunk);
        let cell = chunk.get_cell_mut(index);
        proof {
            lemma_update_cell(old_chunks, index, final_chunk, *final(cell));
            assert(same_indices(old_chunks.update(j as int, final_chunk), old_chunks));
        }
        cell
    }

    /// Overwrites the cell at a position.
    pub fn set_cell(&mut self, index: CellIndex, cell: Cell)
        requires
            old(self).wf(),
            old(self)@.dom().contains(index),
        ensures
            final(self).wf(),
            final(self)@ == old(self)@.insert(index, cell),
            final(self).spec_min_cell() == old(self).spec_min_cell(),
            final(self).spec_max_cell() == old(self).spec_max_cell(),
            final(self).spec_ship_position() == old(self).spec_ship_position(),
            final(self).spec_map_type() == old(self).spec_map_type(),
            same_indices(final(self).spec_chunks(), old(self).spec_chunks()),
    {
        let target = self.get_cell_mut(index);
        *target = cell;
    }

    /// Adds a chunk full of `default_cell` with the given index, unless the map has one.
    fn add_chunk(&mut self, chunk_index: CellIndex, default_cell: Cell)
        requires
            old(self).wf(),
            chunk_index_in_range(chunk_index),
        ensures
            final(self).wf(),
            forall|ci: CellIndex| #[trigger] final(self).has_chunk(ci) == (old(self).has_chunk(ci) || ci == chunk_index),
            forall|idx: CellIndex| #[trigger] final(self)@.dom().contains(idx) == (old(self)@.dom().contains(idx)
                || spec_chunk_index(idx) == chunk_index),
            forall|idx: CellIndex| #[trigger] old(self)@.dom().contains(idx) ==> final(self)@[idx] == old(self)@[idx],
            forall|idx: CellIndex|
                !old(self)@.dom().contains(idx) && spec_chunk_index(idx) == chunk_index
                    ==> #[trigger] final(self)@[idx] == default_cell,
            final(self).spec_min_cell() == old(self).spec_min_cell(),
            final(self).spec_max_cell() == old(self).spec_max_cell(),
            final(self).spec_ship_position() == old(self).spec_ship_position(),
            final(self).spec_map_type() == old(self).spec_map_type(),
    {
        if self.find_chunk(chunk_index).is_none() {
            let chunk = Chunk::new_with_default_cell(chunk_index, default_cell);
            proof {
                lemma_push_chunk(self.chunks@, chunk);
                assert forall|idx: CellIndex|
                    !self@.dom().contains(idx) && spec_chunk_index(idx) == chunk_index
                        implies #[trigger] cells_of(self.chunks@.push(chunk))[idx] == default_cell by {
                    lemma_cell_in_its_chunk(idx);
                }
            }
            self.chunks.push(chunk);
        } else {
            proof {
                lemma_find_found(self.chunks@, chunk_index);
                assert forall|idx: CellIndex| spec_chunk_index(idx) == chunk_index
                    implies #[trigger] self@.dom().contains(idx) by {}
            }
        }
    }

    /// The map with the chunks that hold the cube between `min_cell` and `max_cell`, all cells
    /// `Unset`.
    pub fn new_for_cube(min_cell: CellIndex, max_cell: CellIndex) -> (result: WorldMap)
        ensures
            result.wf(),
            forall|ci: CellIndex| #[trigger] result.has_chunk(ci) == spec_required_chunk(ci, min_cell, max_cell),
            forall|idx: CellIndex| #[trigger] result@.dom().contains(idx) == spec_required_chunk(
                spec_chunk_index(idx),
                min_cell,
                max_cell,
            ),
            forall|idx: CellIndex| #[trigger]
                result@.dom().contains(idx) ==> result@[idx] == Cell::spec_new(TileType::Unset),
            result.spec_min_cell() == min_cell,
            result.spec_max_cell() == max_cell,
            result.spec_ship_position() == None::<CellIndex>,
            result.spec_map_type() == MapType::Island,
    {
        let lo = get_chunk_index(min_cell);
        let hi = get_chunk_index(max_cell);
        proof {
            lemma_cell_in_its_chunk(min_cell);
            lemma_cell_in_its_chunk(max_cell);
        }
        let unset = Cell::new(TileType::Unset);
        let mut map = WorldMap {
            chunks: Vec::new(),
            min_cell,
            max_cell,
            ship_position: None,
            map_type: MapType::Island,
        };
        let mut x = lo.x;
        while x <= hi.x
            invariant
                map.wf(),
                chunk_index_in_range(lo),
                chunk_index_in_range(hi),
                lo.x <= x <= hi.x + 1 || hi.x < lo.x,
                x == lo.x || lo.x <= x <= hi.x + 1,
                forall|ci: CellIndex| #[trigger] map.has_chunk(ci) == (in_chunk_box(ci, lo, hi) && ci.x < x),
                forall|idx: CellIndex| #[trigger] map@.dom().contains(idx) ==> map@[idx] == unset,
                unset == Cell::spec_new(TileType::Unset),
                map.min_cell == min_cell,
                map.max_cell == max_cell,
                map.ship_position == None::<CellIndex>,
                map.map_type == MapType::Island,
            decreases hi.x + 1 - x,
        {
            let mut y = lo.y;
            while y <= hi.y
                invariant
                    map.wf(),
                    chunk_index_in_range(lo),
                    chunk_index_in_range(hi),
                    lo.x <= x <= hi.x,
                    y == lo.y || lo.y <= y <= hi.y + 1,
                    forall|ci: CellIndex| #[trigger] map.has_chunk(ci) == (in_chunk_box(ci, lo, hi) && (ci.x < x || (
                    ci.x == x && ci.y < y))),
                    forall|idx: CellIndex| #[trigger] map@.dom().contains(idx) ==> map@[idx] == unset,
                    unset == Cell::spec_new(TileType::Unset),
                    map.min_cell == min_cell,
                    map.max_cell == max_cell,
                    map.ship_position == None::<CellIndex>,
                    map.map_type == MapType::Island,
                decreases hi.y + 1 - y,
            {
                let mut z = lo.z;
                while z <= hi.z
                    invariant
                        map.wf(),
                        chunk_index_in_range(lo),
                        chunk_index_in_range(hi),
                        lo.x <= x <= hi.x,
                        lo.y <= y <= hi.y,
                        z == lo.z || lo.z <= z <= hi.z + 1,
                        forall|ci: CellIndex| #[trigger] map.has_chunk(ci) == (in_chunk_box(ci, lo, hi) && (ci.x < x || (
                        ci.x == x && ci.y < y) || (ci.x == x && ci.y == y && ci.z < z))),
                        forall|idx: CellIndex| #[trigger] map@.dom().contains(idx) ==> map@[idx] == unset,
                        unset == Cell::spec_new(TileType::Unset),
                        map.min_cell == min_cell,
                        map.max_cell == max_cell,
                        map.ship_position == None::<CellIndex>,
                        map.map_type == MapType::Island,
                    decreases hi.z + 1 - z,
                {
                    map.add_chunk(CellIndex { x, y, z }, unset);
                    z = z + 1;
                }
                y = y + 1;
            }
            x = x + 1;
        }
        proof {
            assert forall|idx: CellIndex| #[trigger] map@.dom().contains(idx) == spec_required_chunk(
                spec_chunk_index(idx),
                min_cell,
                max_cell,
            ) by {
                assert(map.has_chunk(spec_chunk_index(idx)) == in_chunk_box(spec_chunk_index(idx), lo, hi));
            }
        }
        map
    }

    pub open spec fn spec_default_min_cell() -> CellIndex {
        CellIndex { x: -32i32, y: -32i32, z: -32i32 }
    }

    pub open spec fn spec_default_max_cell() -> CellIndex {
        CellIndex { x: 31, y: 31, z: 31 }
    }

    /// Lowest corner of the default map, of side 64.
    pub fn default_min_cell() -> (result: CellIndex)
        ensures
            result == Self::spec_default_min_cell(),
    {
        CellIndex { x: -MAP_HALF_SIDE, y: -MAP_HALF_SIDE, z: -MAP_HALF_SIDE }
    }

    /// Highest corner of the default map, of side 64.
    pub fn default_max_cell() -> (result: CellIndex)
        ensures
            result == Self::spec_default_max_cell(),
    {
        CellIndex { x: MAP_HALF_SIDE - 1, y: MAP_HALF_SIDE - 1, z: MAP_HALF_SIDE - 1 }
    }

    /// The map of default size, all cells `Unset`.
    pub fn new() -> (result: WorldMap)
        ensures
            result.wf(),
            forall|idx: CellIndex| #[trigger] result@.dom().contains(idx) == spec_required_chunk(
                spec_chunk_index(idx),
                Self::spec_default_min_cell(),
                Self::spec_default_max_cell(),
            ),
            forall|idx: CellIndex| #[trigger]
                result@.dom().contains(idx) ==> result@[idx] == Cell::spec_new(TileType::Unset),
            result.spec_min_cell() == Self::spec_default_min_cell(),
            result.spec_max_cell() == Self::spec_default_max_cell(),
            result.spec_ship_position() == None::<CellIndex>,
            result.spec_map_type() == MapType::Island,
    {
        Self::new_for_cube(Self::default_min_cell(), Self::default_max_cell())
    }

    pub fn min_cell(&self) -> (result: CellIndex)
        ensures
            result == self.spec_min_cell(),
    {
        self.min_cell
    }

    pub fn max_cell(&self) -> (result: CellIndex)
        ensures
            result == self.spec_max_cell(),
    {
        self.max_cell
    }

    pub fn get_ship_position(&self) -> (result: Option<CellIndex>)
        ensures
            result == self.spec_ship_position(),
    {
        self.ship_position
    }

    pub fn get_map_type(&self) -> (result: MapType)
        ensures
            result == self.spec_map_type(),
    {
        self.map_type
    }
}


pub type PressureAndType = (Pressure, TileType);

/// The cell that a pressure stands for in `_new_from_pressures`: a negative pressure is a
/// rock wall, any other is air with that much fluid.
pub open spec fn spec_pressure_cell(pressure: Pressure) -> Cell {
    Cell {
        pressure: if pressure >= 0 { pressure } else { 0 },
        tile_type: if pressure >= 0 { TileType::Air } else { TileType::WallRock },
        ..Cell::spec_new(TileType::Unset)
    }
}

/// The pressure that `_get_pressures` reports for a cell: -1 for rock walls.
pub open spec fn spec_reported_pressure(cell: Cell) -> Pressure {
    if cell.tile_type == TileType::WallRock {
        -1i32
    } else {
        cell.pressure
    }
}

/// The type of the last entry of `tiles` at position `idx`, if any.
pub open spec fn last_tile_at(tiles: Seq<(CellIndex, TileType)>, idx: CellIndex) -> Option<TileType>
    decreases tiles.len(),
{
    if tiles.len() == 0 {
        None
    } else if tiles.last().0 == idx {
        Some(tiles.last().1)
    } else {
        last_tile_at(tiles.drop_last(), idx)
    }
}

/// Componentwise minimum (when `lowest`) or maximum of the positions of `tiles`; the origin if
/// there are none.
pub open spec fn tiles_envelope(tiles: Seq<(CellIndex, TileType)>, lowest: bool) -> CellIndex
    decreases tiles.len(),
{
    if tiles.len() == 0 {
        CellIndex { x: 0, y: 0, z: 0 }
    } else if tiles.len() == 1 {
        tiles[0].0
    } else {
        let rest = tiles_envelope(tiles.drop_last(), lowest);
        let p = tiles.last().0;
        if lowest {
            CellIndex {
                x: if p.x < rest.x { p.x } else { rest.x },
                y: if p.y < rest.y { p.y } else { rest.y },
                z: if p.z < rest.z { p.z } else { rest.z },
            }
        } else {
            CellIndex {
                x: if p.x > rest.x { p.x } else { rest.x },
                y: if p.y > rest.y { p.y } else { rest.y },
                z: if p.z > rest.z { p.z } else { rest.z },
            }
        }
    }
}

proof fn lemma_chunk_coord_monotone(a: int, b: int)
    requires
        a <= b,
    ensures
        a / 16 <= b / 16,
{
    assert(a / 16 <= b / 16) by (nonlinear_arith)
        requires
            a <= b,
    ;
}

/// The cells of a cube are in the chunks made for it.
pub proof fn lemma_cube_in_chunks(idx: CellIndex, min_cell: CellIndex, max_cell: CellIndex)
    requires
        in_cube(idx, min_cell, max_cell),
    ensures
        spec_required_chunk(spec_chunk_index(idx), min_cell, max_cell),
{
    lemma_chunk_coord_monotone(min_cell.x as int, idx.x as int);
    lemma_chunk_coord_monotone(min_cell.y as int, idx.y as int);
    lemma_chunk_coord_monotone(min_cell.z as int, idx.z as int);
    lemma_chunk_coord_monotone(idx.x as int, max_cell.x as int);
    lemma_chunk_coord_monotone(idx.y as int, max_cell.y as int);
    lemma_chunk_coord_monotone(idx.z as int, max_cell.z as int);
}

impl WorldMap {
    /// A map for the cube between the corners, where the cell at position `k` of the cube walk
    /// is air with pressure `cells[k]`, or a rock wall if `cells[k]` is negative. The other
    /// cells of the chunks are `Unset`.
    pub fn _new_from_pressures(cells: Vec<Pressure>, min_cell: CellIndex, max_cell: CellIndex) -> (result: WorldMap)
        requires
            cells@.len() >= cube_volume(min_cell, max_cell),
        ensures
            result.wf(),
            forall|idx: CellIndex| #[trigger] result@.dom().contains(idx) == spec_required_chunk(
                spec_chunk_index(idx),
                min_cell,
                max_cell,
            ),
            forall|idx: CellIndex| #[trigger]
                result@.dom().contains(idx) ==> result@[idx] == if in_cube(idx, min_cell, max_cell) {
                    spec_pressure_cell(cells@[cube_position(idx, min_cell, max_cell)])
                } else {
                    Cell::spec_new(TileType::Unset)
                },
            result.spec_min_cell() == min_cell,
            result.spec_max_cell() == max_cell,
            result.spec_ship_position() == None::<CellIndex>,
            result.spec_map_type() == MapType::Island,
    {
        let mut map = Self::new_for_cube(min_cell, max_cell);
        let indices = cell_cube(min_cell, max_cell);
        let mut k: usize = 0;
        while k < indices.len()
            invariant
                map.wf(),
                is_cube_walk(indices@, min_cell, max_cell),
                cells@.len() >= cube_volume(min_cell, max_cell),
                k <= indices@.len(),
                forall|idx: CellIndex| #[trigger] map@.dom().contains(idx) == spec_required_chunk(
                    spec_chunk_index(idx),
                    min_cell,
                    max_cell,
                ),
                forall|idx: CellIndex| #[trigger]
                    map@.dom().contains(idx) ==> map@[idx] == if in_cube(idx, min_cell, max_cell)
                        && cube_position(idx, min_cell, max_cell) < k {
                        spec_pressure_cell(cells@[cube_position(idx, min_cell, max_cell)])
                    } else {
                        Cell::spec_new(TileType::Unset)
                    },
                map.spec_min_cell() == min_cell,
                map.spec_max_cell() == max_cell,
                map.spec_ship_position() == None::<CellIndex>,
                map.spec_map_type() == MapType::Island,
            decreases indices@.len() - k,
        {
            let p = cells[k];
            let idx = indices[k];
            let cell = Cell {
                tile_type: if p >= 0 { TileType::Air } else { TileType::WallRock },
                pressure: if p >= 0 { p } else { 0 },
                next_pressure: 0,
                renderable_pressure: 0,
                health: 0,
                can_flow_out: false,
            };
            proof {
                lemma_cube_in_chunks(idx, min_cell, max_cell);
            }
            map.set_cell(idx, cell);
            proof {
                assert forall|other: CellIndex| #[trigger] map@.dom().contains(other) implies map@[other]
                    == if in_cube(other, min_cell, max_cell) && cube_position(other, min_cell, max_cell)
                    < k + 1 {
                    spec_pressure_cell(cells@[cube_position(other, min_cell, max_cell)])
                } else {
                    Cell::spec_new(TileType::Unset)
                } by {
                    if in_cube(other, min_cell, max_cell) && cube_position(other, min_cell, max_cell)
                        == k {
                        assert(indices@[cube_position(other, min_cell, max_cell)] == other);
                    }
                }
            }
            k = k + 1;
        }
        proof {
            assert forall|idx: CellIndex| in_cube(idx, min_cell, max_cell) implies cube_position(idx, min_cell, max_cell) < k by {
                crate::world::world_map::cell_cube_iterator::lemma_cube_position(idx, min_cell, max_cell);
            }
        }
        map
    }

    /// A map for the cube between the corners, where the cell at position `k` of the cube walk
    /// has the pressure and tile type of `cells[k]`. The other cells of the chunks are `Unset`.
    pub fn _new_from_pressures_and_tiles(
        cells: Vec<PressureAndType>,
        min_cell: CellIndex,
        max_cell: CellIndex,
    ) -> (result: WorldMap)
        requires
            cells@.len() >= cube_volume(min_cell, max_cell),
        ensures
            result.wf(),
            forall|idx: CellIndex| #[trigger] result@.dom().contains(idx) == spec_required_chunk(
                spec_chunk_index(idx),
                min_cell,
                max_cell,
            ),
            forall|idx: CellIndex| #[trigger]
                result@.dom().contains(idx) ==> result@[idx] == if in_cube(idx, min_cell, max_cell) {
                    Cell {
                        pressure: cells@[cube_position(idx, min_cell, max_cell)].0,
                        tile_type: cells@[cube_position(idx, min_cell, max_cell)].1,
                        ..Cell::spec_new(TileType::Unset)
                    }
                } else {
                    Cell::spec_new(TileType::Unset)
                },
            result.spec_min_cell() == min_cell,
            result.spec_max_cell() == max_cell,
            result.spec_ship_position() == None::<CellIndex>,
            result.spec_map_type() == MapType::Island,
    {
        let mut map = Self::new_for_cube(min_cell, max_cell);
        let indices = cell_cube(min_cell, max_cell);
        let mut k: usize = 0;
        while k < indices.len()
            invariant
                map.wf(),
                is_cube_walk(indices@, min_cell, max_cell),
                cells@.len() >= cube_volume(min_cell, max_cell),
                k <= indices@.len(),
                forall|idx: CellIndex| #[trigger] map@.dom().contains(idx) == spec_required_chunk(
                    spec_chunk_index(idx),
                    min_cell,
                    max_cell,
                ),
                forall|idx: CellIndex| #[trigger]
                    map@.dom().contains(idx) ==> map@[idx] == if in_cube(idx, min_cell, max_cell)
                        && cube_position(idx, min_cell, max_cell) < k {
                        Cell {
                            pressure: cells@[cube_position(idx, min_cell, max_cell)].0,
                            tile_type: cells@[cube_position(idx, min_cell, max_cell)].1,
                            ..Cell::spec_new(TileType::Unset)
                        }
                    } else {
                        Cell::spec_new(TileType::Unset)
                    },
                map.spec_min_cell() == min_cell,
                map.spec_max_cell() == max_cell,
                map.spec_ship_position() == None::<CellIndex>,
                map.spec_map_type() == MapType::Island,
            decreases indices@.len() - k,
        {
            let (p, tile) = cells[k];
            let idx = indices[k];
            let cell = Cell {
                tile_type: tile,
                pressure: p,
                next_pressure: 0,
                renderable_pressure: 0,
                health: 0,
                can_flow_out: false,
            };
            proof {
                lemma_cube_in_chunks(idx, min_cell, max_cell);
            }
            map.set_cell(idx, cell);
            proof {
                assert forall|other: CellIndex| #[trigger] map@.dom().contains(other) implies map@[other]
                    == if in_cube(other, min_cell, max_cell) && cube_position(other, min_cell, max_cell)
                    < k + 1 {
                    Cell {
                        pressure: cells@[cube_position(other, min_cell, max_cell)].0,
                        tile_type: cells@[cube_position(other, min_cell, max_cell)].1,
                        ..Cell::spec_new(TileType::Unset)
                    }
                } else {
                    Cell::spec_new(TileType::Unset)
                } by {
                    if in_cube(other, min_cell, max_cell) && cube_position(other, min_cell, max_cell)
                        == k {
                        assert(indices@[cube_position(other, min_cell, max_cell)] == other);
                    }
                }
            }
            k = k + 1;
        }
        proof {
            assert forall|idx: CellIndex| in_cube(idx, min_cell, max_cell) implies cube_position(idx, min_cell, max_cell) < k by {
                crate::world::world_map::cell_cube_iterator::lemma_cube_position(idx, min_cell, max_cell);
            }
        }
        map
    }

    /// The pressures of the cube between the corners, in the order of the cube walk, with -1
    /// standing for rock walls.
    pub fn _get_pressures(&self, min_cell: CellIndex, max_cell: CellIndex) -> (result: Vec<Pressure>)
        requires
            self.wf(),
            forall|idx: CellIndex| in_cube(idx, min_cell, max_cell) ==> #[trigger] self@.dom().contains(idx),
        ensures
            result@.len() == cube_volume(min_cell, max_cell),
            forall|idx: CellIndex| in_cube(idx, min_cell, max_cell) ==> result@[#[trigger] cube_position(
                idx,
                min_cell,
                max_cell,
            )] == spec_reported_pressure(self@[idx]),
    {
        let indices = cell_cube(min_cell, max_cell);
        let mut result: Vec<Pressure> = Vec::new();
        let mut k: usize = 0;
        while k < indices.len()
            invariant
                self.wf(),
                is_cube_walk(indices@, min_cell, max_cell),
                forall|idx: CellIndex| in_cube(idx, min_cell, max_cell) ==> #[trigger] self@.dom().contains(idx),
                k <= indices@.len(),
                result@.len() == k,
                forall|j: int| 0 <= j < k ==> result@[j] == spec_reported_pressure(self@[#[trigger] indices@[j]]),
            decreases indices@.len() - k,
        {
            let cell = self.get_cell(indices[k]);
            result.push(if cell.tile_type == TileType::WallRock { -1 } else { cell.pressure });
            k = k + 1;
        }
        proof {
            assert forall|idx: CellIndex| in_cube(idx, min_cell, max_cell) implies result@[#[trigger] cube_position(
                idx,
                min_cell,
                max_cell,
            )] == spec_reported_pressure(self@[idx]) by {
                crate::world::world_map::cell_cube_iterator::lemma_cube_position(idx, min_cell, max_cell);
                assert(indices@[cube_position(idx, min_cell, max_cell)] == idx);
            }
        }
        result
    }

    /// The pressures and tile types of the cube between the corners, in the order of the cube
    /// walk.
    pub fn _get_pressures_and_types(&self, min_cell: CellIndex, max_cell: CellIndex) -> (result: Vec<PressureAndType>)
        requires
            self.wf(),
            forall|idx: CellIndex| in_cube(idx, min_cell, max_cell) ==> #[trigger] self@.dom().contains(idx),
        ensures
            result@.len() == cube_volume(min_cell, max_cell),
            forall|idx: CellIndex| in_cube(idx, min_cell, max_cell) ==> result@[#[trigger] cube_position(
                idx,
                min_cell,
                max_cell,
            )] == (self@[idx].pressure, self@[idx].tile_type),
    {
        let indices = cell_cube(min_cell, max_cell);
        let mut result: Vec<PressureAndType> = Vec::new();
        let mut k: usize = 0;
        while k < indices.len()
            invariant
                self.wf(),
                is_cube_walk(indices@, min_cell, max_cell),
                forall|idx: CellIndex| in_cube(idx, min_cell, max_cell) ==> #[trigger] self@.dom().contains(idx),
                k <= indices@.len(),
                result@.len() == k,
                forall|j: int| 0 <= j < k ==> result@[j] == (self@[#[trigger] indices@[j]].pressure, self@[indices@[j]].tile_type),
            decreases indices@.len() - k,
        {
            let cell = self.get_cell(indices[k]);
            result.push((cell.pressure, cell.tile_type));
            k = k + 1;
        }
        proof {
            assert forall|idx: CellIndex| in_cube(idx, min_cell, max_cell) implies result@[#[trigger] cube_position(
                idx,
                min_cell,
                max_cell,
            )] == (self@[idx].pressure, self@[idx].tile_type) by {
                crate::world::world_map::cell_cube_iterator::lemma_cube_position(idx, min_cell, max_cell);
                assert(indices@[cube_position(idx, min_cell, max_cell)] == idx);
            }
        }
        result
    }

    /// A map made of the chunks that hold the given positions, where every cell is
    /// `default_cell` except that each listed position has the type listed last for it. The
    /// corners are the componentwise minimum and maximum of the positions.
    pub fn _new_from_tiles(default_cell: Cell, tiles: Vec<(CellIndex, TileType)>) -> (result: WorldMap)
        ensures
            result.wf(),
            forall|ci: CellIndex| #[trigger] result.has_chunk(ci) == exists|k: int|
                0 <= k < tiles@.len() && spec_chunk_index(#[trigger] tiles@[k].0) == ci,
            forall|idx: CellIndex| #[trigger]
                result@.dom().contains(idx) ==> result@[idx] == match last_tile_at(tiles@, idx) {
                    Some(tile) => Cell { tile_type: tile, ..default_cell },
                    None => default_cell,
                },
            result.spec_min_cell() == tiles_envelope(tiles@, true),
            result.spec_max_cell() == tiles_envelope(tiles@, false),
            result.spec_ship_position() == None::<CellIndex>,
            result.spec_map_type() == MapType::Island,
            result.spec_chunks().len() == tile_chunks(tiles@).to_set().len(),
    {
        let n = tiles.len();
        let mut low = CellIndex { x: 0, y: 0, z: 0 };
        let mut high = CellIndex { x: 0, y: 0, z: 0 };
        let mut map = WorldMap {
            chunks: Vec::new(),
            min_cell: low,
            max_cell: high,
            ship_position: None,
            map_type: MapType::Island,
        };
        let mut k: usize = 0;
        while k < n
            invariant
                n == tiles@.len(),
                k <= n,
                map.wf(),
                forall|ci: CellIndex| #[trigger] map.has_chunk(ci) == exists|j: int|
                    0 <= j < k && spec_chunk_index(#[trigger] tiles@[j].0) == ci,
                forall|idx: CellIndex| #[trigger] map@.dom().contains(idx) ==> map@[idx] == default_cell,
                low == tiles_envelope(tiles@.take(k as int), true),
                high == tiles_envelope(tiles@.take(k as int), false),
                map.spec_ship_position() == None::<CellIndex>,
                map.spec_map_type() == MapType::Island,
            decreases n - k,
        {
            let (position, _) = tiles[k];
            proof {
                lemma_cell_in_its_chunk(position);
                assert(tiles@.take(k + 1).drop_last() =~= tiles@.take(k as int));
                assert(tiles@.take(k + 1).last() == tiles@[k as int]);
            }
            let chunk_index = get_chunk_index(position);
            map.add_chunk(chunk_index, default_cell);
            if k == 0 {
                low = position;
                high = position;
            } else {
                low = CellIndex {
                    x: if position.x < low.x { position.x } else { low.x },
                    y: if position.y < low.y { position.y } else { low.y },
                    z: if position.z < low.z { position.z } else { low.z },
                };
                high = CellIndex {
                    x: if position.x > high.x { position.x } else { high.x },
                    y: if position.y > high.y { position.y } else { high.y },
                    z: if position.z > high.z { position.z } else { high.z },
                };
            }
            proof {
                assert forall|ci: CellIndex| #[trigger] map.has_chunk(ci) == exists|j: int|
                    0 <= j < k + 1 && spec_chunk_index(#[trigger] tiles@[j].0) == ci by {
                    if ci == chunk_index {
                        assert(spec_chunk_index(tiles@[k as int].0) == ci);
                    }
                }
            }
            k = k + 1;
        }
        assert(tiles@.take(n as int) =~= tiles@);
        assert(tiles@.take(0) =~= Seq::<(CellIndex, TileType)>::empty());
        let ghost before_corners = map;
        map.min_cell = low;
        map.max_cell = high;
        proof {
            assert(map.spec_chunks() == before_corners.spec_chunks());
            assert(map@ == before_corners@);
            assert forall|ci: CellIndex| #[trigger] map.has_chunk(ci) == exists|j: int|
                0 <= j < n && spec_chunk_index(#[trigger] tiles@[j].0) == ci by {
                assert(before_corners.has_chunk(ci) == exists|j: int|
                    0 <= j < k && spec_chunk_index(#[trigger] tiles@[j].0) == ci);
            }
        }
        let mut k: usize = 0;
        while k < n
            invariant
                n == tiles@.len(),
                k <= n,
                map.wf(),
                forall|ci: CellIndex| #[trigger] map.has_chunk(ci) == exists|j: int|
                    0 <= j < n && spec_chunk_index(#[trigger] tiles@[j].0) == ci,
                forall|idx: CellIndex| #[trigger]
                    map@.dom().contains(idx) ==> map@[idx] == match last_tile_at(tiles@.take(k as int), idx) {
                        Some(tile) => Cell { tile_type: tile, ..default_cell },
                        None => default_cell,
                    },
                map.spec_min_cell() == tiles_envelope(tiles@, true),
                map.spec_max_cell() == tiles_envelope(tiles@, false),
                map.spec_ship_position() == None::<CellIndex>,
                map.spec_map_type() == MapType::Island,
            decreases n - k,
        {
            let (position, tile) = tiles[k];
            proof {
                lemma_cell_in_its_chunk(position);
                assert(spec_chunk_index(tiles@[k as int].0) == spec_chunk_index(position));
                assert(map.has_chunk(spec_chunk_index(position)));
                assert(tiles@.take(k + 1).drop_last() =~= tiles@.take(k as int));
                assert(tiles@.take(k + 1).last() == tiles@[k as int]);
            }
            let ghost before = map;
            let cell = map.get_cell_mut(position);
            cell.tile_type = tile;
            proof {
                assert forall|ci: CellIndex| #[trigger] map.has_chunk(ci) == before.has_chunk(ci) by {
                    lemma_find_same_indices(map.spec_chunks(), before.spec_chunks(), ci);
                }
                assert forall|idx: CellIndex| #[trigger] map@.dom().contains(idx) implies map@[idx]
                    == match last_tile_at(tiles@.take(k + 1), idx) {
                    Some(tile) => Cell { tile_type: tile, ..default_cell },
                    None => default_cell,
                } by {
                    assert(last_tile_at(tiles@.take(k + 1), idx) == if idx == position {
                        Some(tile)
                    } else {
                        last_tile_at(tiles@.take(k as int), idx)
                    });
                    if idx != position {
                        assert(before@.dom().contains(idx));
                    }
                }
            }
            k = k + 1;
        }
        assert(tiles@.take(n as int) =~= tiles@);
        proof {
            map.lemma_chunk_count();
            let held = chunk_indices(map.spec_chunks());
            let wanted = tile_chunks(tiles@);
            assert forall|ci: CellIndex| held.to_set().contains(ci) == wanted.to_set().contains(ci) by {
                if wanted.contains(ci) {
                    let j = choose|j: int| 0 <= j < wanted.len() && wanted[j] == ci;
                    assert(spec_chunk_index(tiles@[j].0) == ci);
                }
                if map.has_chunk(ci) {
                    let j = choose|j: int| 0 <= j < n && spec_chunk_index(#[trigger] tiles@[j].0) == ci;
                    assert(wanted[j] == ci);
                }
            }
            assert(held.to_set() =~= wanted.to_set());
        }
        map
    }
}

/// The chunk index of each listed tile, in order.
pub open spec fn tile_chunks(tiles: Seq<(CellIndex, TileType)>) -> Seq<CellIndex> {
    tiles.map_values(|t: (CellIndex, TileType)| spec_chunk_index(t.0))
}

/// The indices of the chunks, in order.
pub open spec fn chunk_indices(chunks: Seq<Chunk>) -> Seq<CellIndex> {
    chunks.map_values(|c: Chunk| c.spec_index())
}

/// A chunk index is found among the chunks exactly when one of them has it.
proof fn lemma_found_iff_held(chunks: Seq<Chunk>, ci: CellIndex)
    ensures
        (find_chunk_pos(chunks, ci) >= 0) == chunk_indices(chunks).contains(ci),
    decreases chunks.len(),
{
    if chunks.len() > 0 {
        let rest = chunks.drop_last();
        lemma_found_iff_held(rest, ci);
        assert(chunk_indices(rest) =~= chunk_indices(chunks).drop_last());
        if chunks.last().spec_index() == ci {
            assert(chunk_indices(chunks)[chunks.len() - 1] == ci);
        } else if chunk_indices(chunks).contains(ci) {
            let j = choose|j: int| 0 <= j < chunk_indices(chunks).len() && chunk_indices(chunks)[j] == ci;
            assert(j != chunks.len() - 1);
            assert(chunk_indices(rest)[j] == ci);
        }
    }
}

impl WorldMap {
    /// A map holds each of its chunk indices in one chunk only, so it has as many chunks as
    /// chunk indices.
    pub proof fn lemma_chunk_count(&self)
        requires
            self.wf(),
        ensures
            chunk_indices(self.spec_chunks()).no_duplicates(),
            forall|ci: CellIndex| #[trigger] self.has_chunk(ci) == chunk_indices(self.spec_chunks()).contains(ci),
            self.spec_chunks().len() == chunk_indices(self.spec_chunks()).to_set().len(),
    {
        let c = self.spec_chunks();
        let ids = chunk_indices(c);
        assert forall|k: int, l: int| 0 <= k < l < ids.len() implies ids[k] != ids[l] by {
            assert(c[k].spec_index() != c[l].spec_index());
        }
        assert forall|ci: CellIndex| #[trigger] self.has_chunk(ci) == ids.contains(ci) by {
            lemma_found_iff_held(c, ci);
        }
        ids.unique_seq_to_set();
    }
}

impl WorldMap {
    /// Where a cell of the map is stored: chunk `j`, local offset `i`.
    pub proof fn lemma_locate(&self, idx: CellIndex) -> (ji: (int, int))
        requires
            self.wf(),
            self@.dom().contains(idx),
        ensures
            0 <= ji.0 < self.spec_chunks().len(),
            0 <= ji.1 < SIZE,
            spec_cell_index_in_chunk(self.spec_chunks()[ji.0].spec_index(), ji.1) == idx,
    {
        lemma_find_found(self.chunks@, spec_chunk_index(idx));
        lemma_cell_in_its_chunk(idx);
        (find_chunk_pos(self.chunks@, spec_chunk_index(idx)), spec_local_offset(idx))
    }
}

spec fn old_chunks_dom(chunks: Seq<Chunk>, idx: CellIndex) -> bool {
    cells_of(chunks).dom().contains(idx)
}

} // verus!
