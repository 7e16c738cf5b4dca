use vstd::prelude::*;
use crate::world::world_map::cell_index::CellIndex;

verus! {

proof fn lemma_take_step(s: Seq<CellIndex>, i: int)
    requires
        0 <= i < s.len(),
    ensures
        s.take(i + 1).to_set() == s.take(i).to_set().insert(s[i]),
{
    assert(s.take(i + 1) =~= s.take(i) + seq![s[i]]);
    Seq::lemma_to_set_insert_commutes(s.take(i), s[i]);
}

/// A set of cell positions, kept in the order they were added.
#[derive(Clone, Debug)]
pub struct CellSet {
    cells: Vec<CellIndex>,
}

impl View for CellSet {
    type V = Set<CellIndex>;

    closed spec fn view(&self) -> Set<CellIndex> {
        self.cells@.to_set()
    }
}

impl CellSet {
    /// No cell is listed twice.
    pub closed spec fn wf(&self) -> bool {
        self.cells@.no_duplicates()
    }

    /// The cells in the order they were added.
    pub closed spec fn spec_seq(&self) -> Seq<CellIndex> {
        self.cells@
    }

    /// The order of the cells lists each cell of the set once.
    pub proof fn lemma_seq(&self)
        requires
            self.wf(),
        ensures
            self.spec_seq().no_duplicates(),
            self.spec_seq().to_set() == self@,
            self@.finite(),
            self@.len() == self.spec_seq().len(),
    {
        self.cells@.unique_seq_to_set();
    }

    pub fn new() -> (result: CellSet)
        ensures
            result.wf(),
            result@ == Set::<CellIndex>::empty(),
            result.spec_seq().len() == 0,
    {
        let result = CellSet { cells: Vec::new() };
        assert(result@ =~= Set::<CellIndex>::empty());
        result
    }

    pub fn contains(&self, cell_index: &CellIndex) -> (result: bool)
        requires
            self.wf(),
        ensures
            result == self@.contains(*cell_index),
    {
        let mut i: usize = 0;
        while i < self.cells.len()
            invariant
                i <= self.cells@.len(),
                forall|k: int| 0 <= k < i ==> self.cells@[k] != *cell_index,
            decreases self.cells@.len() - i,
        {
            if self.cells[i] == *cell_index {
                return true;
            }
            i = i + 1;
        }
        false
    }

    /// Adds a cell; returns whether it was not there yet.
    pub fn insert(&mut self, cell_index: CellIndex) -> (result: bool)
        requires
            old(self).wf(),
        ensures
            final(self).wf(),
            final(self)@ == old(self)@.insert(cell_index),
            result == !old(self)@.contains(cell_index),
            result ==> final(self).spec_seq() == old(self).spec_seq().push(cell_index),
            !result ==> final(self).spec_seq() == old(self).spec_seq(),
    {
        if self.contains(&cell_index) {
            assert(self@.insert(cell_index) =~= self@);
            false
        } else {
            let ghost before = self.cells@;
            self.cells.push(cell_index);
            assert(self.cells@.to_set() =~= before.to_set().insert(cell_index)) by {
                assert forall|c: CellIndex| #[trigger] self.cells@.contains(c) == (before.contains(c) || c == cell_index) by {
                    if before.contains(c) {
                        let k = choose|k: int| 0 <= k < before.len() && before[k] == c;
                        assert(self.cells@[k] == c);
                    }
                    if c == cell_index {
                        assert(self.cells@[before.len() as int] == c);
                    }
                }
            }
            true
        }
    }

    /// Removes a cell, if it is there.
    pub fn remove(&mut self, cell_index: &CellIndex)
        requires
            old(self).wf(),
        ensures
            final(self).wf(),
            final(self)@ == old(self)@.remove(*cell_index),
    {
        let ghost before = self.cells@;
        let mut kept: Vec<CellIndex> = Vec::new();
        let mut i: usize = 0;
        assert(before.take(0).to_set() =~= Set::<CellIndex>::empty());
        assert(kept@.to_set() =~= Set::<CellIndex>::empty());
        while i < self.cells.len()
            invariant
                self.cells@ == before,
                before.no_duplicates(),
                i <= before.len(),
                kept@.no_duplicates(),
                kept@.to_set() == before.take(i as int).to_set().remove(*cell_index),
            decreases before.len() - i,
        {
            let c = self.cells[i];
            proof {
                lemma_take_step(before, i as int);
            }
            if c != *cell_index {
                let ghost prev = kept@;
                proof {
                    if prev.contains(c) {
                        assert(prev.to_set().contains(c));
                        assert(before.take(i as int).contains(c));
                        let k = choose|k: int| 0 <= k < i && #[trigger] before.take(i as int)[k] == c;
                        assert(before[k] == before[i as int]);
                    }
                }
                kept.push(c);
                proof {
                    assert(kept@ =~= prev + seq![c]);
                    Seq::lemma_to_set_insert_commutes(prev, c);
                    assert(kept@.to_set() =~= before.take(i + 1).to_set().remove(*cell_index));
                }
            } else {
                assert(kept@.to_set() =~= before.take(i + 1).to_set().remove(*cell_index));
            }
            i = i + 1;
        }
        self.cells = kept;
        assert(before.take(before.len() as int) =~= before);
    }

    pub fn len(&self) -> (result: usize)
        requires
            self.wf(),
        ensures
            result == self@.len(),
    {
        proof {
            self.lemma_seq();
        }
        self.cells.len()
    }

    /// Some cell of the set (the first added that is still there), if there is any.
    pub fn first(&self) -> (result: Option<CellIndex>)
        requires
            self.wf(),
        ensures
            result is None <==> self@.len() == 0,
            result matches Some(c) ==> self@.contains(c) && c == self.spec_seq()[0],
    {
        proof {
            self.lemma_seq();
        }
        if self.cells.len() == 0 {
            None
        } else {
            assert(self.cells@.contains(self.cells@[0]));
            Some(self.cells[0])
        }
    }

    /// The cell at position `i` of the order.
    pub fn get(&self, i: usize) -> (result: CellIndex)
        requires
            self.wf(),
            i < self.spec_seq().len(),
        ensures
            result == self.spec_seq()[i as int],
    {
        self.cells[i]
    }

    pub fn clear(&mut self)
        ensures
            final(self).wf(),
            final(self)@ == Set::<CellIndex>::empty(),
            final(self).spec_seq().len() == 0,
    {
        self.cells = Vec::new();
        assert(self@ =~= Set::<CellIndex>::empty());
    }

    /// A set with the same cells, in the same order.
    pub fn duplicate(&self) -> (result: CellSet)
        requires
            self.wf(),
        ensures
            result.wf(),
            result@ == self@,
            result.spec_seq() == self.spec_seq(),
    {
        let mut cells: Vec<CellIndex> = Vec::new();
        let mut i: usize = 0;
        while i < self.cells.len()
            invariant
                i <= self.cells@.len(),
                cells@ == self.cells@.take(i as int),
            decreases self.cells@.len() - i,
        {
            cells.push(self.cells[i]);
            i = i + 1;
            assert(cells@ =~= self.cells@.take(i as int));
        }
        assert(cells@ =~= self.cells@);
        CellSet { cells }
    }

    /// The set of the cells of `cells`, each once, in order of first appearance.
    pub fn from_vec(cells: Vec<CellIndex>) -> (result: CellSet)
        ensures
            result.wf(),
            result@ == cells@.to_set(),
    {
        let mut result = CellSet::new();
        let mut i: usize = 0;
        assert(cells@.take(0).to_set() =~= Set::<CellIndex>::empty());
        while i < cells.len()
            invariant
                result.wf(),
                i <= cells@.len(),
                result@ == cells@.take(i as int).to_set(),
            decreases cells@.len() - i,
        {
            result.insert(cells[i]);
            i = i + 1;
            proof {
                lemma_take_step(cells@, i - 1);
            }
        }
        assert(cells@.take(cells@.len() as int) =~= cells@);
        result
    }

    /// The cells of either set.
    pub fn union(&self, other: &CellSet) -> (result: CellSet)
        requires
            self.wf(),
            other.wf(),
        ensures
            result.wf(),
            result@ == self@.union(other@),
    {
        let mut result = self.duplicate();
        proof {
            other.lemma_seq();
        }
        let mut i: usize = 0;
        assert(other.spec_seq().take(0).to_set() =~= Set::<CellIndex>::empty());
        assert(result@ =~= self@.union(Set::<CellIndex>::empty()));
        while i < other.cells.len()
            invariant
                result.wf(),
                other.wf(),
                i <= other.spec_seq().len(),
                other.spec_seq().to_set() == other@,
                result@ == self@.union(other.spec_seq().take(i as int).to_set()),
            decreases other.spec_seq().len() - i,
        {
            result.insert(other.get(i));
            i = i + 1;
            proof {
                lemma_take_step(other.spec_seq(), i - 1);
                assert(result@ =~= self@.union(other.spec_seq().take(i as int).to_set()));
            }
        }
        assert(other.spec_seq().take(other.spec_seq().len() as int) =~= other.spec_seq());
        result
    }

    /// The cells of this set that are not in `other`.
    pub fn difference(&self, other: &CellSet) -> (result: CellSet)
        requires
            self.wf(),
            other.wf(),
        ensures
            result.wf(),
            result@ == self@.difference(other@),
    {
        let mut result = CellSet::new();
        proof {
            self.lemma_seq();
        }
        let mut i: usize = 0;
        assert(self.spec_seq().take(0).to_set() =~= Set::<CellIndex>::empty());
        assert(result@ =~= Set::<CellIndex>::empty().difference(other@));
        while i < self.cells.len()
            invariant
                result.wf(),
                self.wf(),
                other.wf(),
                i <= self.spec_seq().len(),
                self.spec_seq().to_set() == self@,
                result@ == self.spec_seq().take(i as int).to_set().difference(other@),
            decreases self.spec_seq().len() - i,
        {
            let c = self.get(i);
            if !other.contains(&c) {
                result.insert(c);
            }
            i = i + 1;
            proof {
                lemma_take_step(self.spec_seq(), i - 1);
                assert(result@ =~= self.spec_seq().take(i as int).to_set().difference(other@));
            }
        }
        assert(self.spec_seq().take(self.spec_seq().len() as int) =~= self.spec_seq());
        result
    }

    /// Whether both sets hold the same cells.
    pub fn same_cells(&self, other: &CellSet) -> (result: bool)
        requires
            self.wf(),
            other.wf(),
        ensures
            result == (self@ == other@),
    {
        proof {
            self.lemma_seq();
            other.lemma_seq();
        }
        if self.cells.len() != other.cells.len() {
            return false;
        }
        let mut i: usize = 0;
        while i < self.cells.len()
            invariant
                other.wf(),
                i <= self.spec_seq().len(),
                self.spec_seq().to_set() == self@,
                other.spec_seq().to_set() == other@,
                self@.len() == other@.len(),
                self@.finite(),
                other@.finite(),
                forall|k: int| 0 <= k < i ==> other@.contains(#[trigger] self.spec_seq()[k]),
            decreases self.spec_seq().len() - i,
        {
            if !other.contains(&self.cells[i]) {
                assert(self@.contains(self.spec_seq()[i as int]));
                return false;
            }
            i = i + 1;
        }
        proof {
            assert(self@.subset_of(other@)) by {
                assert forall|c: CellIndex| self@.contains(c) implies other@.contains(c) by {
                    let k = choose|k: int| 0 <= k < self.spec_seq().len() && self.spec_seq()[k] == c;
                }
            }
            vstd::set_lib::lemma_subset_equality(self@, other@);
        }
        true
    }
}

} // verus!
