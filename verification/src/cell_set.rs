use vstd::prelude::*;

use crate::cell_index::{cell_of_index, CellIndex3x3};
use crate::tic_tac_toe::sum_to;

verus! {

/// A set of cells of a 3x3 board.
#[derive(Copy, Clone, PartialEq, Eq, Hash, Debug)]
pub struct CellIndexSet {
    members: [bool; 9],
}

/// Number of the nine cells that lie in `s`.
pub open spec fn count_cells_in(s: Set<CellIndex3x3>) -> int {
    sum_to(|i: int| if s.contains(cell_of_index(i)) { 1int } else { 0int }, 9)
}

/// The empty set counts no cells.
pub proof fn lemma_count_cells_in_empty()
    ensures
        count_cells_in(Set::<CellIndex3x3>::empty()) == 0,
{
    crate::tic_tac_toe::lemma_sum_to_bounds(
        |i: int| if Set::<CellIndex3x3>::empty().contains(cell_of_index(i)) { 1int } else { 0int },
        9,
        0,
    );
}

impl View for CellIndexSet {
    type V = Set<CellIndex3x3>;

    closed spec fn view(&self) -> Set<CellIndex3x3> {
        Set::new(|c: CellIndex3x3| self.members@[c.idx()])
    }
}

impl CellIndexSet {
    /// The empty set.
    pub fn new() -> (s: CellIndexSet)
        ensures
            s@ == Set::<CellIndex3x3>::empty(),
    {
        let s = CellIndexSet { members: [false, false, false, false, false, false, false, false, false] };
        assert(s@ =~= Set::<CellIndex3x3>::empty());
        s
    }

    pub fn contains(&self, c: &CellIndex3x3) -> (b: bool)
        ensures
            b == self@.contains(*c),
    {
        self.members[c.to_index()]
    }

    pub fn insert(&mut self, c: CellIndex3x3)
        ensures
            final(self)@ == old(self)@.insert(c),
    {
        self.members[c.to_index()] = true;
        proof {
            assert forall|d: CellIndex3x3| #[trigger] final(self)@.contains(d) == old(self)@.insert(c).contains(d) by {
                if d != c {
                    assert(d.idx() != c.idx());
                }
            }
            assert(final(self)@ =~= old(self)@.insert(c));
        }
    }

    pub fn is_empty(&self) -> (b: bool)
        ensures
            b == (self@ == Set::<CellIndex3x3>::empty()),
    {
        let mut i: usize = 0;
        while i < 9
            invariant
                0 <= i <= 9,
                forall|j: int| 0 <= j < i ==> !self.members@[j],
            decreases 9 - i,
        {
            if self.members[i] {
                assert(self@.contains(cell_of_index(i as int)));
                return false;
            }
            i = i + 1;
        }
        assert(self@ =~= Set::<CellIndex3x3>::empty());
        true
    }

    /// Number of cells in the set.
    pub fn len(&self) -> (n: usize)
        ensures
            n == count_cells_in(self@),
    {
        let mut n: usize = 0;
        let mut i: usize = 0;
        while i < 9
            invariant
                0 <= i <= 9,
                n <= i,
                n == sum_to(|j: int| if self@.contains(cell_of_index(j)) { 1int } else { 0int }, i as int),
            decreases 9 - i,
        {
            assert(cell_of_index(i as int).idx() == i);
            if self.members[i] {
                n = n + 1;
            }
            i = i + 1;
        }
        n
    }

    /// Number of cells that lie in both sets.
    pub fn intersection_len(&self, other: &CellIndexSet) -> (n: usize)
        ensures
            n == count_cells_in(self@.intersect(other@)),
    {
        let mut n: usize = 0;
        let mut i: usize = 0;
        while i < 9
            invariant
                0 <= i <= 9,
                n <= i,
                n == sum_to(
                    |j: int| if self@.intersect(other@).contains(cell_of_index(j)) { 1int } else { 0int },
                    i as int,
                ),
            decreases 9 - i,
        {
            assert(cell_of_index(i as int).idx() == i);
            if self.members[i] && other.members[i] {
                n = n + 1;
            }
            i = i + 1;
        }
        n
    }
}

} // verus!
