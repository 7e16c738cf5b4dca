use vstd::prelude::*;
use crate::world::world_map::{cells_of, chunks_wf, MapType, WorldMap};
use crate::world::world_map::cell::Cell;
use crate::world::world_map::cell_index::CellIndex;
use crate::world::world_map::chunk::{
    chunk_index_in_range, spec_cell_index_in_chunk, Chunk, CellIter, CellIterItem, SIZE,
};

verus! {

/// The index and the cells of a chunk.
pub open spec fn part_of(chunk: Chunk) -> (CellIndex, Seq<Cell>) {
    (chunk.spec_index(), chunk.spec_cells())
}

/// The indexes and cells of a sequence of chunks.
pub open spec fn parts_of(chunks: Seq<Chunk>) -> Seq<(CellIndex, Seq<Cell>)> {
    chunks.map_values(|c: Chunk| part_of(c))
}

/// Walks every cell of a map, chunk after chunk, handing out each cell to be changed; the map
/// is then made again from it with `WorldMap::new_from_iter`.
pub struct MutMapIterator {
    collected_chunks: Vec<Chunk>,
    current: Option<CellIter>,
    pending: Vec<Chunk>,
    min_cell: CellIndex,
    max_cell: CellIndex,
    ship_position: Option<CellIndex>,
    map_type: MapType,
}

impl MutMapIterator {
    /// The chunks the iterator holds, in the order of the map: those walked through, the one
    /// being walked, and those still to walk.
    pub closed spec fn spec_parts(&self) -> Seq<(CellIndex, Seq<Cell>)> {
        parts_of(self.collected_chunks@) + match self.current {
            Some(it) => seq![(it.spec_chunk_index(), it.spec_cells())],
            None => Seq::empty(),
        } + parts_of(self.pending@.reverse())
    }

    /// Which cell is handed out next: cell `.1` of chunk `.0`. Past the last chunk once every
    /// cell was handed out.
    pub closed spec fn spec_cursor(&self) -> (int, int) {
        match self.current {
            Some(it) => if it.spec_position() < SIZE {
                (self.collected_chunks@.len() as int, it.spec_position())
            } else {
                ((self.collected_chunks@.len() + 1) as int, 0)
            },
            None => (self.collected_chunks@.len() as int, 0),
        }
    }

    pub closed spec fn spec_min_cell(&self) -> CellIndex {
        self.min_cell
    }

    pub closed spec fn spec_max_cell(&self) -> CellIndex {
        self.max_cell
    }

    pub closed spec fn spec_ship_position(&self) -> Option<CellIndex> {
        self.ship_position
    }

    pub closed spec fn spec_map_type(&self) -> MapType {
        self.map_type
    }

    /// The indexes of the chunks the iterator holds, in the order of the map.
    pub closed spec fn spec_indices(&self) -> Seq<CellIndex> {
        indices_of(self.collected_chunks@) + match self.current {
            Some(it) => seq![it.spec_chunk_index()],
            None => Seq::empty(),
        } + indices_of(self.pending@.reverse())
    }

    /// The chunks are well formed, with distinct indexes.
    pub closed spec fn wf(&self) -> bool {
        &&& (self.current matches Some(it) ==> it.wf())
        &&& forall|k: int| 0 <= k < self.collected_chunks@.len() ==> #[trigger] self.collected_chunks@[k].wf()
        &&& forall|k: int| 0 <= k < self.pending@.len() ==> #[trigger] self.pending@[k].wf()
        &&& indices_distinct(self.spec_indices())
    }

    /// The parts of a well formed iterator are distinct, and their indexes are its indexes.
    proof fn lemma_wf_parts(&self)
        requires
            self.wf(),
        ensures
            parts_distinct(self.spec_parts()),
            self.spec_parts().len() == self.spec_indices().len(),
    {
        let c = self.collected_chunks@;
        let r = self.pending@.reverse();
        let parts = self.spec_parts();
        let ids = self.spec_indices();
        let mid: int = if self.current is Some { 1 } else { 0 };
        assert(parts.len() == ids.len());
        assert forall|k: int| 0 <= k < parts.len() implies #[trigger] parts[k].0 == ids[k] && chunk_index_in_range(parts[k].0)
            && parts[k].1.len() == SIZE by {
            if k < c.len() {
                assert(c[k].wf());
                assert(parts[k] == part_of(c[k]));
                assert(ids[k] == c[k].spec_index());
            } else if k < c.len() + mid {
                self.current->0.lemma_position();
                assert(parts[k] == (self.current->0.spec_chunk_index(), self.current->0.spec_cells()));
                assert(ids[k] == self.current->0.spec_chunk_index());
            } else {
                let j = k - c.len() - mid;
                assert(r[j] == self.pending@[self.pending@.len() - 1 - j]);
                assert(self.pending@[self.pending@.len() - 1 - j].wf());
                assert(parts[k] == part_of(r[j]));
                assert(ids[k] == r[j].spec_index());
            }
        }
        assert forall|k: int| 0 <= k < parts.len() implies chunk_index_in_range(#[trigger] parts[k].0) by {
            assert(parts[k].0 == ids[k]);
        }
        assert forall|k: int| 0 <= k < parts.len() implies (#[trigger] parts[k]).1.len() == SIZE by {
            assert(parts[k].0 == ids[k]);
        }
        assert forall|k: int, l: int| 0 <= k < parts.len() && 0 <= l < parts.len() && k != l implies parts[k].0
            != parts[l].0 by {
            assert(parts[k].0 == ids[k]);
            assert(parts[l].0 == ids[l]);
        }
    }
}

/// No index appears twice.
pub open spec fn indices_distinct(ids: Seq<CellIndex>) -> bool {
    forall|k: int, l: int| 0 <= k < ids.len() && 0 <= l < ids.len() && k != l ==> ids[k] != ids[l]
}

/// The indexes of a sequence of chunks.
pub open spec fn indices_of(chunks: Seq<Chunk>) -> Seq<CellIndex> {
    chunks.map_values(|c: Chunk| c.spec_index())
}

/// No two parts have the same index, and every index is in range.
pub open spec fn parts_distinct(parts: Seq<(CellIndex, Seq<Cell>)>) -> bool {
    &&& forall|k: int| 0 <= k < parts.len() ==> chunk_index_in_range(#[trigger] parts[k].0)
    &&& forall|k: int| 0 <= k < parts.len() ==> (#[trigger] parts[k]).1.len() == SIZE
    &&& forall|k: int, l: int| 0 <= k < parts.len() && 0 <= l < parts.len() && k != l ==> parts[k].0 != parts[l].0
}

/// The parts of well formed chunks with distinct indexes are distinct.
proof fn lemma_parts_of_wf_chunks(chunks: Seq<Chunk>)
    requires
        chunks_wf(chunks),
    ensures
        parts_distinct(parts_of(chunks)),
{
    assert forall|k: int| 0 <= k < parts_of(chunks).len() implies chunk_index_in_range(#[trigger] parts_of(chunks)[k].0) by {
        assert(chunks[k].wf());
    }
    assert forall|k: int| 0 <= k < parts_of(chunks).len() implies (#[trigger] parts_of(chunks)[k]).1.len() == SIZE by {
        assert(chunks[k].wf());
    }
}

impl WorldMap {
    /// Starts walking every cell of the map.
    pub fn iter_mut(self) -> (result: MutMapIterator)
        requires
            self.wf(),
        ensures
            result.wf(),
            result.spec_parts() == parts_of(self.spec_chunks()),
            result.spec_cursor() == (0int, 0int),
            result.spec_min_cell() == self.spec_min_cell(),
            result.spec_max_cell() == self.spec_max_cell(),
            result.spec_ship_position() == self.spec_ship_position(),
            result.spec_map_type() == self.spec_map_type(),
    {
        let ghost all = self.spec_chunks();
        let (chunks, min_cell, max_cell, ship_position, map_type) = self.into_parts();
        let mut chunks = chunks;
        let mut pending: Vec<Chunk> = Vec::new();
        while chunks.len() > 0
            invariant
                chunks@ + pending@.reverse() == all,
            decreases chunks@.len(),
        {
            let ghost before_chunks = chunks@;
            let ghost before_pending = pending@;
            let chunk = chunks.pop().unwrap();
            pending.push(chunk);
            assert(pending@.reverse() =~= seq![chunk] + before_pending.reverse());
            assert(before_chunks =~= chunks@.push(chunk));
            assert(chunks@ + pending@.reverse() =~= before_chunks + before_pending.reverse());
        }
        proof {
            assert(pending@.reverse() =~= all);
            lemma_parts_of_wf_chunks(all);
        }
        let result = MutMapIterator {
            collected_chunks: Vec::new(),
            current: None,
            pending,
            min_cell,
            max_cell,
            ship_position,
            map_type,
        };
        assert(result.spec_parts() =~= parts_of(all));
        assert(result.spec_indices() =~= indices_of(all));
        assert forall|k: int| 0 <= k < pending@.len() implies #[trigger] pending@[k].wf() by {
            assert(pending@[k] == all[pending@.len() - 1 - k]);
            assert(all[pending@.len() - 1 - k].wf());
        }
        result
    }
}

impl MutMapIterator {
    /// The parts after the cell `i` of chunk `k` was changed to `cell`.
    pub open spec fn spec_parts_with(
        parts: Seq<(CellIndex, Seq<Cell>)>,
        k: int,
        i: int,
        cell: Cell,
    ) -> Seq<(CellIndex, Seq<Cell>)> {
        parts.update(k, (parts[k].0, parts[k].1.update(i, cell)))
    }

    /// The cursor after handing out cell `i` of chunk `k`.
    pub open spec fn spec_next_cursor(k: int, i: int) -> (int, int) {
        if i + 1 < SIZE {
            (k, i + 1)
        } else {
            (k + 1, 0)
        }
    }

    /// Moves a chunk whose cells were all handed out among those walked through, and starts
    /// walking the next chunk if none is being walked.
    fn prepare_next(&mut self)
        requires
            old(self).wf(),
        ensures
            final(self).wf(),
            final(self).spec_parts() == old(self).spec_parts(),
            final(self).spec_cursor() == old(self).spec_cursor(),
            final(self).spec_min_cell() == old(self).spec_min_cell(),
            final(self).spec_max_cell() == old(self).spec_max_cell(),
            final(self).spec_ship_position() == old(self).spec_ship_position(),
            final(self).spec_map_type() == old(self).spec_map_type(),
            final(self).current is None <==> final(self).spec_cursor().0 >= final(self).spec_parts().len(),
            final(self).current matches Some(it) ==> it.spec_position() < SIZE
                && final(self).spec_cursor() == (final(self).collected_chunks@.len() as int, it.spec_position()),
            0 <= final(self).spec_cursor().1 < SIZE,
            0 <= final(self).spec_cursor().0,
    {
        let ghost parts0 = self.spec_parts();
        let ghost indices0 = self.spec_indices();
        proof {
            if self.current is Some {
                self.current->0.lemma_position();
            }
            self.lemma_wf_parts();
        }
        let exhausted = match &self.current {
            Some(it) => !it.has_next(),
            None => false,
        };
        if exhausted {
            let mut taken: Option<CellIter> = None;
            std::mem::swap(&mut taken, &mut self.current);
            let it = taken.unwrap();
            let ghost before = self.collected_chunks@;
            let chunk = it.into_chunk();
            self.collected_chunks.push(chunk);
            assert(parts_of(self.collected_chunks@) =~= parts_of(before).push(part_of(chunk)));
            assert(self.spec_parts() =~= parts0);
            assert(indices_of(self.collected_chunks@) =~= indices_of(before).push(chunk.spec_index()));
            assert(self.spec_indices() =~= indices0);
        }
        if self.current.is_none() {
            if self.pending.len() > 0 {
                let ghost before = self.pending@;
                let chunk = self.pending.pop().unwrap();
                assert(before.reverse() =~= seq![chunk] + self.pending@.reverse());
                assert(parts_of(before.reverse()) =~= seq![part_of(chunk)] + parts_of(self.pending@.reverse()));
                assert(before[before.len() - 1] == chunk);
                assert(before[before.len() - 1].wf());
                assert(indices_of(before.reverse()) =~= seq![chunk.spec_index()] + indices_of(self.pending@.reverse()));
                let it = chunk.into_iter_mut();
                self.current = Some(it);
                assert(self.spec_parts() =~= parts0);
                assert(self.spec_indices() =~= indices0);
                assert(it.spec_position() == 0);
                assert forall|k: int| 0 <= k < self.pending@.len() implies #[trigger] self.pending@[k].wf() by {
                    assert(self.pending@[k] == before[k]);
                }
            } else {
                assert(self.spec_parts() =~= parts_of(self.collected_chunks@));
            }
        }
        proof {
            self.lemma_wf_parts();
        }
    }

    /// Hands out the next cell of the map and its position, chunk after chunk and inside a
    /// chunk in order of local offset; `None` once every cell was handed out.
    pub fn next(&mut self) -> (result: Option<CellIterItem<'_>>)
        requires
            old(self).wf(),
        ensures
            final(self).wf(),
            final(self).spec_min_cell() == old(self).spec_min_cell(),
            final(self).spec_max_cell() == old(self).spec_max_cell(),
            final(self).spec_ship_position() == old(self).spec_ship_position(),
            final(self).spec_map_type() == old(self).spec_map_type(),
            ({
                let parts = old(self).spec_parts();
                let (k, i) = old(self).spec_cursor();
                &&& 0 <= k
                &&& 0 <= i < SIZE
                &&& k < parts.len() ==> {
                    &&& result is Some
                    &&& result->0.cell_index == spec_cell_index_in_chunk(parts[k].0, i)
                    &&& *result->0.cell == parts[k].1[i]
                    &&& final(self).spec_parts() == Self::spec_parts_with(parts, k, i, *final(result->0.cell))
                    &&& final(self).spec_cursor() == Self::spec_next_cursor(k, i)
                }
                &&& k >= parts.len() ==> {
                    &&& result is None
                    &&& final(self).spec_parts() == parts
                    &&& final(self).spec_cursor() == (k, i)
                }
            }),
    {
        self.prepare_next();
        let ghost parts0 = self.spec_parts();
        match &mut self.current {
            Some(it) => it.next(),
            None => None,
        }
    }
}

impl WorldMap {
    /// The map made again from an iterator, with the cells as the iterator holds them (changed
    /// or not, handed out or not).
    pub fn new_from_iter(iter: MutMapIterator) -> (result: WorldMap)
        requires
            iter.wf(),
        ensures
            result.wf(),
            parts_of(result.spec_chunks()) == iter.spec_parts(),
            result.spec_min_cell() == iter.spec_min_cell(),
            result.spec_max_cell() == iter.spec_max_cell(),
            result.spec_ship_position() == iter.spec_ship_position(),
            result.spec_map_type() == iter.spec_map_type(),
    {
        let ghost parts = iter.spec_parts();
        let ghost ids = iter.spec_indices();
        let MutMapIterator {
            collected_chunks,
            current,
            pending,
            min_cell,
            max_cell,
            ship_position,
            map_type,
        } = iter;
        let mut chunks = collected_chunks;
        let mut pending = pending;
        match current {
            Some(it) => {
                let ghost before = chunks@;
                let chunk = it.into_chunk();
                chunks.push(chunk);
                assert(parts_of(chunks@) =~= parts_of(before).push(part_of(chunk)));
                assert(indices_of(chunks@) =~= indices_of(before).push(chunk.spec_index()));
            },
            None => {},
        }
        assert(parts_of(chunks@) + parts_of(pending@.reverse()) =~= parts);
        assert(indices_of(chunks@) + indices_of(pending@.reverse()) =~= ids);
        while pending.len() > 0
            invariant
                parts_of(chunks@) + parts_of(pending@.reverse()) == parts,
                indices_of(chunks@) + indices_of(pending@.reverse()) == ids,
                forall|k: int| 0 <= k < chunks@.len() ==> #[trigger] chunks@[k].wf(),
                forall|k: int| 0 <= k < pending@.len() ==> #[trigger] pending@[k].wf(),
            decreases pending@.len(),
        {
            let ghost before_chunks = chunks@;
            let ghost before_pending = pending@;
            let chunk = pending.pop().unwrap();
            assert(before_pending[before_pending.len() - 1] == chunk);
            assert(before_pending[before_pending.len() - 1].wf());
            chunks.push(chunk);
            assert(before_pending.reverse() =~= seq![chunk] + pending@.reverse());
            assert(parts_of(before_pending.reverse()) =~= seq![part_of(chunk)] + parts_of(pending@.reverse()));
            assert(indices_of(before_pending.reverse()) =~= seq![chunk.spec_index()] + indices_of(pending@.reverse()));
            assert(parts_of(chunks@) =~= parts_of(before_chunks).push(part_of(chunk)));
            assert(indices_of(chunks@) =~= indices_of(before_chunks).push(chunk.spec_index()));
            assert(parts_of(chunks@) + parts_of(pending@.reverse()) =~= parts);
            assert(indices_of(chunks@) + indices_of(pending@.reverse()) =~= ids);
            assert forall|k: int| 0 <= k < pending@.len() implies #[trigger] pending@[k].wf() by {
                assert(pending@[k] == before_pending[k]);
            }
        }
        proof {
            assert(pending@.reverse() =~= Seq::<Chunk>::empty());
            assert(parts_of(chunks@) =~= parts);
            assert(indices_of(chunks@) =~= ids);
            assert forall|k: int, l: int|
                0 <= k < chunks@.len() && 0 <= l < chunks@.len() && k != l implies chunks@[k].spec_index()
                != chunks@[l].spec_index() by {
                assert(indices_of(chunks@)[k] == chunks@[k].spec_index());
                assert(indices_of(chunks@)[l] == chunks@[l].spec_index());
            }
        }
        WorldMap::from_parts(chunks, min_cell, max_cell, ship_position, map_type)
    }
}

/// Maps whose chunks have the same indexes and cells, in the same order, hold the same cells.
pub proof fn lemma_same_parts_same_cells(a: WorldMap, b: WorldMap)
    requires
        parts_of(a.spec_chunks()) == parts_of(b.spec_chunks()),
    ensures
        a@ == b@,
{
    let ca = a.spec_chunks();
    let cb = b.spec_chunks();
    assert(ca.len() == parts_of(ca).len());
    assert forall|k: int| 0 <= k < ca.len() implies #[trigger] ca[k].spec_index() == cb[k].spec_index()
        && ca[k].spec_cells() == cb[k].spec_cells() by {
        assert(parts_of(ca)[k] == parts_of(cb)[k]);
    }
    crate::world::world_map::lemma_same_chunk_contents(ca, cb);
    a.lemma_view();
    b.lemma_view();
}

/// Handing out a cell and getting it back unchanged leaves the parts as they were.
pub proof fn lemma_unchanged_step(parts: Seq<(CellIndex, Seq<Cell>)>, k: int, i: int)
    requires
        0 <= k < parts.len(),
        0 <= i < parts[k].1.len(),
    ensures
        MutMapIterator::spec_parts_with(parts, k, i, parts[k].1[i]) == parts,
{
    assert(parts[k].1.update(i, parts[k].1[i]) =~= parts[k].1);
    assert(MutMapIterator::spec_parts_with(parts, k, i, parts[k].1[i]) =~= parts);
}

/// Walking a map without changing any cell, then making the map again from the iterator, gives
/// the map back. `walk[0]` holds the parts `iter_mut` starts from; each step of the walk hands
/// out cell `cursors[j].1` of chunk `cursors[j].0` (as `next` does) and gets it back unchanged;
/// `rebuilt` is made by `new_from_iter` from what the walk ends with.
pub proof fn lemma_untouched_walk_rebuilds_the_map(
    map: WorldMap,
    walk: Seq<Seq<(CellIndex, Seq<Cell>)>>,
    cursors: Seq<(int, int)>,
    rebuilt: WorldMap,
)
    requires
        walk.len() == cursors.len() + 1,
        walk[0] == parts_of(map.spec_chunks()),
        forall|j: int|
            0 <= j < cursors.len() ==> {
                let (k, i) = #[trigger] cursors[j];
                &&& 0 <= k < walk[j].len()
                &&& 0 <= i < walk[j][k].1.len()
                &&& walk[j + 1] == MutMapIterator::spec_parts_with(walk[j], k, i, walk[j][k].1[i])
            },
        parts_of(rebuilt.spec_chunks()) == walk.last(),
    ensures
        rebuilt@ == map@,
{
    lemma_walk_keeps_parts(walk, cursors, cursors.len() as int);
    lemma_same_parts_same_cells(rebuilt, map);
}

/// Every step of a walk that changes no cell keeps the parts of its start.
proof fn lemma_walk_keeps_parts(
    walk: Seq<Seq<(CellIndex, Seq<Cell>)>>,
    cursors: Seq<(int, int)>,
    n: int,
)
    requires
        walk.len() == cursors.len() + 1,
        0 <= n <= cursors.len(),
        forall|j: int|
            0 <= j < cursors.len() ==> {
                let (k, i) = #[trigger] cursors[j];
                &&& 0 <= k < walk[j].len()
                &&& 0 <= i < walk[j][k].1.len()
                &&& walk[j + 1] == MutMapIterator::spec_parts_with(walk[j], k, i, walk[j][k].1[i])
            },
    ensures
        walk[n] == walk[0],
    decreases n,
{
    if n > 0 {
        lemma_walk_keeps_parts(walk, cursors, n - 1);
        let (k, i) = cursors[n - 1];
        lemma_unchanged_step(walk[n - 1], k, i);
    }
}

} // verus!
