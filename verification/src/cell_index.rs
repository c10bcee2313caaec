use vstd::prelude::*;

verus! {

/// One of the nine cells of a 3x3 board, in row-major order.
#[derive(Copy, Clone, PartialEq, Eq, Hash, Debug, Structural)]
pub enum CellIndex3x3 {
    TL,
    TM,
    TR,
    ML,
    MM,
    MR,
    BL,
    BM,
    BR,
}

/// The cell with the given row-major index (`0..9`).
pub open spec fn cell_of_index(i: int) -> CellIndex3x3 {
    if i == 0 {
        CellIndex3x3::TL
    } else if i == 1 {
        CellIndex3x3::TM
    } else if i == 2 {
        CellIndex3x3::TR
    } else if i == 3 {
        CellIndex3x3::ML
    } else if i == 4 {
        CellIndex3x3::MM
    } else if i == 5 {
        CellIndex3x3::MR
    } else if i == 6 {
        CellIndex3x3::BL
    } else if i == 7 {
        CellIndex3x3::BM
    } else {
        CellIndex3x3::BR
    }
}

impl CellIndex3x3 {
    /// Row-major position of the cell, `0..9`.
    pub open spec fn idx(self) -> int {
        match self {
            CellIndex3x3::TL => 0,
            CellIndex3x3::TM => 1,
            CellIndex3x3::TR => 2,
            CellIndex3x3::ML => 3,
            CellIndex3x3::MM => 4,
            CellIndex3x3::MR => 5,
            CellIndex3x3::BL => 6,
            CellIndex3x3::BM => 7,
            CellIndex3x3::BR => 8,
        }
    }

    /// First coordinate of the cell (its row).
    pub open spec fn row(self) -> int {
        self.idx() / 3
    }

    /// Second coordinate of the cell (its column).
    pub open spec fn col(self) -> int {
        self.idx() % 3
    }

    /// Weight of a cell for board control: centre 4, corners 3, edges 2.
    pub open spec fn spec_cell_weight(self) -> int {
        match self {
            CellIndex3x3::MM => 4,
            CellIndex3x3::TL | CellIndex3x3::TR | CellIndex3x3::BL | CellIndex3x3::BR => 3,
            _ => 2,
        }
    }

    pub fn cell_weight(&self) -> (w: u32)
        ensures
            w == self.spec_cell_weight(),
    {
        match self {
            CellIndex3x3::MM => 4,
            CellIndex3x3::TL | CellIndex3x3::TR | CellIndex3x3::BL | CellIndex3x3::BR => 3,
            _ => 2,
        }
    }

    /// Row-major position of the cell.
    pub fn to_index(self) -> (i: usize)
        ensures
            i == self.idx(),
            i < 9,
    {
        match self {
            CellIndex3x3::TL => 0,
            CellIndex3x3::TM => 1,
            CellIndex3x3::TR => 2,
            CellIndex3x3::ML => 3,
            CellIndex3x3::MM => 4,
            CellIndex3x3::MR => 5,
            CellIndex3x3::BL => 6,
            CellIndex3x3::BM => 7,
            CellIndex3x3::BR => 8,
        }
    }

    /// The cell at a row-major position; `Err` for positions of 9 and above.
    pub fn try_from_index(value: usize) -> (r: Result<CellIndex3x3, ()>)
        ensures
            value < 9 ==> r == Ok::<CellIndex3x3, ()>(cell_of_index(value as int)),
            value >= 9 ==> r is Err,
    {
        match value {
            0 => Ok(CellIndex3x3::TL),
            1 => Ok(CellIndex3x3::TM),
            2 => Ok(CellIndex3x3::TR),
            3 => Ok(CellIndex3x3::ML),
            4 => Ok(CellIndex3x3::MM),
            5 => Ok(CellIndex3x3::MR),
            6 => Ok(CellIndex3x3::BL),
            7 => Ok(CellIndex3x3::BM),
            8 => Ok(CellIndex3x3::BR),
            _ => Err(()),
        }
    }

    /// The cell at coordinates `(row, column)`; `Err` if a coordinate is 3 or above.
    pub fn try_from_coords(value: (u8, u8)) -> (r: Result<CellIndex3x3, ()>)
        ensures
            value.0 < 3 && value.1 < 3 ==> r == Ok::<CellIndex3x3, ()>(
                cell_of_index(value.0 * 3 + value.1),
            ),
            !(value.0 < 3 && value.1 < 3) ==> r is Err,
    {
        match value {
            (0, 0) => Ok(CellIndex3x3::TL),
            (0, 1) => Ok(CellIndex3x3::TM),
            (0, 2) => Ok(CellIndex3x3::TR),
            (1, 0) => Ok(CellIndex3x3::ML),
            (1, 1) => Ok(CellIndex3x3::MM),
            (1, 2) => Ok(CellIndex3x3::MR),
            (2, 0) => Ok(CellIndex3x3::BL),
            (2, 1) => Ok(CellIndex3x3::BM),
            (2, 2) => Ok(CellIndex3x3::BR),
            _ => Err(()),
        }
    }

    /// Coordinates `(row, column)` of the cell.
    pub fn to_coords(self) -> (c: (u8, u8))
        ensures
            c.0 == self.row(),
            c.1 == self.col(),
    {
        match self {
            CellIndex3x3::TL => (0, 0),
            CellIndex3x3::TM => (0, 1),
            CellIndex3x3::TR => (0, 2),
            CellIndex3x3::ML => (1, 0),
            CellIndex3x3::MM => (1, 1),
            CellIndex3x3::MR => (1, 2),
            CellIndex3x3::BL => (2, 0),
            CellIndex3x3::BM => (2, 1),
            CellIndex3x3::BR => (2, 2),
        }
    }
}

/// Position and cell are two names for the same thing.
pub proof fn lemma_cell_index_bijection(c: CellIndex3x3, i: int)
    requires
        0 <= i < 9,
    ensures
        cell_of_index(c.idx()) == c,
        cell_of_index(i).idx() == i,
        0 <= c.idx() < 9,
{
}

} // verus!
