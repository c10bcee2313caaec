use vstd::prelude::*;

use crate::cell_index::{cell_of_index, CellIndex3x3};

verus! {

/// A 3x3 map of values, indexed by [`CellIndex3x3`].
#[derive(Copy, Clone, PartialEq, Eq, Hash, Debug)]
pub struct MyMap3x3<T> {
    pub cells: [T; 9],
}

impl<T> View for MyMap3x3<T> {
    type V = Seq<T>;

    /// The nine values in row-major order.
    open spec fn view(&self) -> Seq<T> {
        self.cells@
    }
}

impl<T> MyMap3x3<T> {
    /// The value stored at a cell.
    pub open spec fn at(&self, index: CellIndex3x3) -> T {
        self.cells@[index.idx()]
    }
}

impl<T: Default + Copy> MyMap3x3<T> {
    /// A map with every cell set to `T::default()`.
    pub fn new() -> (m: Self)
        ensures
            call_ensures(T::default, (), m@[0]),
            forall|i: int| 0 <= i < 9 ==> #[trigger] m@[i] == m@[0],
    {
        let d = T::default();
        MyMap3x3 { cells: [d, d, d, d, d, d, d, d, d] }
    }

    /// A map with every cell set to `value`.
    pub fn init(value: T) -> (m: Self)
        ensures
            forall|i: int| 0 <= i < 9 ==> #[trigger] m@[i] == value,
    {
        MyMap3x3 { cells: [value, value, value, value, value, value, value, value, value] }
    }

    /// The value at `index`.
    pub fn get_cell(&self, index: CellIndex3x3) -> (r: &T)
        ensures
            *r == self.at(index),
    {
        &self.cells[index.to_index()]
    }

    /// Mutable access to the value at `index`; the other cells stay unchanged.
    pub fn get_cell_mut(&mut self, index: CellIndex3x3) -> (r: &mut T)
        ensures
            *r == old(self).at(index),
            final(self)@ == old(self)@.update(index.idx(), *final(r)),
    {
        &mut self.cells[index.to_index()]
    }

    /// Stores `value` at `index`; the other cells stay unchanged.
    pub fn set_cell(&mut self, index: CellIndex3x3, value: T)
        ensures
            final(self)@ == old(self)@.update(index.idx(), value),
    {
        self.cells[index.to_index()] = value;
    }

    /// All cells with their values, in row-major order.
    pub fn iterate(&self) -> (r: Vec<(CellIndex3x3, T)>)
        ensures
            r@.len() == 9,
            forall|i: int|
                0 <= i < 9 ==> #[trigger] r@[i] == (cell_of_index(i), self@[i]),
    {
        let mut r: Vec<(CellIndex3x3, T)> = Vec::new();
        let mut i: usize = 0;
        while i < 9
            invariant
                0 <= i <= 9,
                r@.len() == i,
                forall|j: int| 0 <= j < i ==> #[trigger] r@[j] == (cell_of_index(j), self@[j]),
            decreases 9 - i,
        {
            let c = match CellIndex3x3::try_from_index(i) {
                Ok(c) => c,
                Err(_) => CellIndex3x3::TL,
            };
            r.push((c, self.cells[i]));
            i = i + 1;
        }
        r
    }
}

} // verus!
