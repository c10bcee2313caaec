use vstd::prelude::*;

use crate::cell_index::{cell_of_index, CellIndex3x3};
use crate::cell_set::{count_cells_in, CellIndexSet};
use crate::map3x3::MyMap3x3;

verus! {

/// State of one cell of a tic-tac-toe board, or of a whole board.
#[derive(Copy, Clone, PartialEq, Eq, Hash, Debug, Structural)]
pub enum TicTacToeStatus {
    Vacant,
    Me,
    Opp,
    Tie,
}

impl Default for TicTacToeStatus {
    fn default() -> (r: TicTacToeStatus)
        ensures
            r == TicTacToeStatus::Vacant,
    {
        TicTacToeStatus::Vacant
    }
}

impl TicTacToeStatus {
    /// Numeric value of a status used for line sums: Vacant 0, Me 1, Opp -1, Tie 20.
    pub open spec fn spec_value(self) -> int {
        match self {
            TicTacToeStatus::Vacant => 0,
            TicTacToeStatus::Me => 1,
            TicTacToeStatus::Opp => -1,
            TicTacToeStatus::Tie => 20,
        }
    }

    pub fn value(&self) -> (v: i8)
        ensures
            v == self.spec_value(),
    {
        match self {
            TicTacToeStatus::Vacant => 0,
            TicTacToeStatus::Me => 1,
            TicTacToeStatus::Opp => -1,
            TicTacToeStatus::Tie => 20,
        }
    }

    pub open spec fn is_player_status(self) -> bool {
        self == TicTacToeStatus::Me || self == TicTacToeStatus::Opp
    }

    pub fn is_vacant(&self) -> (b: bool)
        ensures
            b == (*self == TicTacToeStatus::Vacant),
    {
        match self {
            TicTacToeStatus::Vacant => true,
            _ => false,
        }
    }

    pub fn is_not_vacant(&self) -> (b: bool)
        ensures
            b == (*self != TicTacToeStatus::Vacant),
    {
        !self.is_vacant()
    }

    /// The other player.
    pub open spec fn spec_next(self) -> TicTacToeStatus {
        if self == TicTacToeStatus::Me {
            TicTacToeStatus::Opp
        } else {
            TicTacToeStatus::Me
        }
    }

    /// The other player; defined for the two players only.
    pub fn next(&self) -> (r: TicTacToeStatus)
        requires
            self.is_player_status(),
        ensures
            r == self.spec_next(),
            r.is_player_status(),
            r != *self,
    {
        match self {
            TicTacToeStatus::Me => TicTacToeStatus::Opp,
            _ => TicTacToeStatus::Me,
        }
    }

    /// Score of a finished game in half points from the perspective of `Me`:
    /// win 2, tie 1, loss 0; `None` while the game runs.
    pub open spec fn spec_evaluate(self) -> Option<u8> {
        match self {
            TicTacToeStatus::Me => Some(2u8),
            TicTacToeStatus::Opp => Some(0u8),
            TicTacToeStatus::Tie => Some(1u8),
            TicTacToeStatus::Vacant => None,
        }
    }

    pub fn evaluate(&self) -> (r: Option<u8>)
        ensures
            r == self.spec_evaluate(),
    {
        match self {
            TicTacToeStatus::Me => Some(2u8),
            TicTacToeStatus::Opp => Some(0u8),
            TicTacToeStatus::Tie => Some(1u8),
            TicTacToeStatus::Vacant => None,
        }
    }
}

/// Sum of `f(0) + ... + f(n - 1)`.
pub open spec fn sum_to(f: spec_fn(int) -> int, n: int) -> int
    decreases n,
{
    if n <= 0 {
        0
    } else {
        sum_to(f, n - 1) + f(n - 1)
    }
}

/// Cells of the `k`-th of the eight winning lines, in the order in which they are checked.
pub open spec fn score_line(k: int) -> (CellIndex3x3, CellIndex3x3, CellIndex3x3) {
    if k == 0 {
        (CellIndex3x3::TL, CellIndex3x3::MM, CellIndex3x3::BR)
    } else if k == 1 {
        (CellIndex3x3::TR, CellIndex3x3::MM, CellIndex3x3::BL)
    } else if k == 2 {
        (CellIndex3x3::ML, CellIndex3x3::MM, CellIndex3x3::MR)
    } else if k == 3 {
        (CellIndex3x3::TM, CellIndex3x3::MM, CellIndex3x3::BM)
    } else if k == 4 {
        (CellIndex3x3::TL, CellIndex3x3::TM, CellIndex3x3::TR)
    } else if k == 5 {
        (CellIndex3x3::BL, CellIndex3x3::BM, CellIndex3x3::BR)
    } else if k == 6 {
        (CellIndex3x3::TL, CellIndex3x3::ML, CellIndex3x3::BL)
    } else {
        (CellIndex3x3::TR, CellIndex3x3::MR, CellIndex3x3::BR)
    }
}

/// Whether `c` lies on the `k`-th winning line.
pub open spec fn line_contains(k: int, c: CellIndex3x3) -> bool {
    score_line(k).0 == c || score_line(k).1 == c || score_line(k).2 == c
}

/// Whether `r` lists the eight winning lines in checking order.
pub open spec fn is_score_lines(r: [[CellIndex3x3; 3]; 8]) -> bool {
    forall|k: int|
        0 <= k < 8 ==> (#[trigger] r@[k])@[0] == score_line(k).0 && r@[k]@[1] == score_line(k).1
            && r@[k]@[2] == score_line(k).2
}

/// The eight winning lines of a 3x3 board.
pub fn score_lines() -> (r: [[CellIndex3x3; 3]; 8])
    ensures
        is_score_lines(r),
{
    [
        [CellIndex3x3::TL, CellIndex3x3::MM, CellIndex3x3::BR],
        [CellIndex3x3::TR, CellIndex3x3::MM, CellIndex3x3::BL],
        [CellIndex3x3::ML, CellIndex3x3::MM, CellIndex3x3::MR],
        [CellIndex3x3::TM, CellIndex3x3::MM, CellIndex3x3::BM],
        [CellIndex3x3::TL, CellIndex3x3::TM, CellIndex3x3::TR],
        [CellIndex3x3::BL, CellIndex3x3::BM, CellIndex3x3::BR],
        [CellIndex3x3::TL, CellIndex3x3::ML, CellIndex3x3::BL],
        [CellIndex3x3::TR, CellIndex3x3::MR, CellIndex3x3::BR],
    ]
}


/// The value of cell `c` on board `b`.
pub open spec fn cell(b: Seq<TicTacToeStatus>, c: CellIndex3x3) -> TicTacToeStatus {
    b[c.idx()]
}

/// Sum of the cell values on the `k`-th winning line.
pub open spec fn line_sum(b: Seq<TicTacToeStatus>, k: int) -> int {
    cell(b, score_line(k).0).spec_value() + cell(b, score_line(k).1).spec_value() + cell(
        b,
        score_line(k).2,
    ).spec_value()
}

/// Whether no cell of the board is vacant.
pub open spec fn all_filled(b: Seq<TicTacToeStatus>) -> bool {
    forall|i: int| 0 <= i < 9 ==> #[trigger] b[i] != TicTacToeStatus::Vacant
}

/// Status of board `b`, checking the winning lines from the `k`-th on: the first line
/// that one player fills decides; otherwise a full board is a tie.
pub open spec fn status_from(b: Seq<TicTacToeStatus>, k: int) -> TicTacToeStatus
    decreases 8 - k,
{
    if k >= 8 || k < 0 {
        if all_filled(b) {
            TicTacToeStatus::Tie
        } else {
            TicTacToeStatus::Vacant
        }
    } else if line_sum(b, k) == 3 {
        TicTacToeStatus::Me
    } else if line_sum(b, k) == -3 {
        TicTacToeStatus::Opp
    } else {
        status_from(b, k + 1)
    }
}

/// Status of a board: won by a player, tied (full board), or still open.
pub open spec fn board_status(b: Seq<TicTacToeStatus>) -> TicTacToeStatus {
    status_from(b, 0)
}

/// Whether player `p` holds a whole row, column or diagonal of board `b` (cells in row-major
/// order).
pub open spec fn three_in_a_row(b: Seq<TicTacToeStatus>, p: TicTacToeStatus) -> bool {
    ||| b[0] == p && b[1] == p && b[2] == p
    ||| b[3] == p && b[4] == p && b[5] == p
    ||| b[6] == p && b[7] == p && b[8] == p
    ||| b[0] == p && b[3] == p && b[6] == p
    ||| b[1] == p && b[4] == p && b[7] == p
    ||| b[2] == p && b[5] == p && b[8] == p
    ||| b[0] == p && b[4] == p && b[8] == p
    ||| b[2] == p && b[4] == p && b[6] == p
}

/// The status of a board is decided by its lines: a player who holds a whole line (the other
/// holding none) has won it; without any held line a board with a vacant cell is open and a
/// full one is a tie; and a board is only ever won by a player holding a line.
pub proof fn lemma_board_status_by_lines(b: Seq<TicTacToeStatus>)
    requires
        b.len() == 9,
    ensures
        three_in_a_row(b, TicTacToeStatus::Me) && !three_in_a_row(b, TicTacToeStatus::Opp)
            ==> board_status(b) == TicTacToeStatus::Me,
        three_in_a_row(b, TicTacToeStatus::Opp) && !three_in_a_row(b, TicTacToeStatus::Me)
            ==> board_status(b) == TicTacToeStatus::Opp,
        !three_in_a_row(b, TicTacToeStatus::Me) && !three_in_a_row(b, TicTacToeStatus::Opp)
            ==> board_status(b) == (if (exists|i: int| 0 <= i < 9 && b[i] == TicTacToeStatus::Vacant) {
            TicTacToeStatus::Vacant
        } else {
            TicTacToeStatus::Tie
        }),
        board_status(b) == TicTacToeStatus::Me ==> three_in_a_row(b, TicTacToeStatus::Me),
        board_status(b) == TicTacToeStatus::Opp ==> three_in_a_row(b, TicTacToeStatus::Opp),
        three_in_a_row(b, TicTacToeStatus::Me) || three_in_a_row(b, TicTacToeStatus::Opp)
            ==> board_status(b) != TicTacToeStatus::Vacant && board_status(b) != TicTacToeStatus::Tie,
{
    reveal_with_fuel(status_from, 9);
    assert(all_filled(b) <==> !(exists|i: int| 0 <= i < 9 && b[i] == TicTacToeStatus::Vacant));
}

/// Number of cells of `b` that hold `v`.
pub open spec fn count_cells(b: Seq<TicTacToeStatus>, v: TicTacToeStatus) -> int {
    sum_to(holds_value(b, v), 9)
}

/// Indicator of the cells of `b` that hold `v`.
pub open spec fn holds_value(b: Seq<TicTacToeStatus>, v: TicTacToeStatus) -> spec_fn(int) -> int {
    |i: int| if b[i] == v { 1int } else { 0int }
}

/// Number of cells of `b` that are not vacant.
pub open spec fn count_non_vacant(b: Seq<TicTacToeStatus>) -> int {
    sum_to(|i: int| if b[i] != TicTacToeStatus::Vacant { 1int } else { 0int }, 9)
}

/// The vacant cell that a fold over line `k` remembers: the last vacant one, `TL` if none.
pub open spec fn line_vacant(b: Seq<TicTacToeStatus>, k: int) -> CellIndex3x3 {
    if cell(b, score_line(k).2) == TicTacToeStatus::Vacant {
        score_line(k).2
    } else if cell(b, score_line(k).1) == TicTacToeStatus::Vacant {
        score_line(k).1
    } else if cell(b, score_line(k).0) == TicTacToeStatus::Vacant {
        score_line(k).0
    } else {
        CellIndex3x3::TL
    }
}

/// Whether one of the first `n` lines sums to `target` and has `c` as its vacant cell.
pub open spec fn is_threat(b: Seq<TicTacToeStatus>, c: CellIndex3x3, target: int, n: int) -> bool
    decreases n,
{
    if n <= 0 {
        false
    } else {
        is_threat(b, c, target, n - 1) || (line_sum(b, n - 1) == target && line_vacant(b, n - 1)
            == c)
    }
}

/// Cells that would complete a line for `Me` (target 2) or for `Opp` (target -2).
pub open spec fn threats(b: Seq<TicTacToeStatus>, target: int) -> Set<CellIndex3x3> {
    Set::new(|c: CellIndex3x3| is_threat(b, c, target, 8))
}

/// Number of winning lines through `c` whose cell values sum to `v`.
pub open spec fn meta_count(b: Seq<TicTacToeStatus>, c: CellIndex3x3, v: int) -> int {
    sum_to(line_through_with_sum(b, c, v), 8)
}

/// Indicator of the winning lines through `c` whose values sum to `v`.
pub open spec fn line_through_with_sum(b: Seq<TicTacToeStatus>, c: CellIndex3x3, v: int) -> spec_fn(
    int,
) -> int {
    |k: int| if line_contains(k, c) && line_sum(b, k) == v { 1int } else { 0int }
}

/// Sum of the weights of the cells of `b` that hold `p`.
pub open spec fn control(b: Seq<TicTacToeStatus>, p: TicTacToeStatus) -> int {
    sum_to(weight_if_held(b, p), 9)
}

/// Weight of each cell of `b` that holds `p`, 0 for the others.
pub open spec fn weight_if_held(b: Seq<TicTacToeStatus>, p: TicTacToeStatus) -> spec_fn(int) -> int {
    |i: int| if b[i] == p { cell_of_index(i).spec_cell_weight() } else { 0int }
}

/// Partial sums stay between 0 and the number of terms when every term is 0 or 1.
pub proof fn lemma_sum_to_bounds(f: spec_fn(int) -> int, n: int, hi: int)
    requires
        0 <= n,
        0 <= hi,
        forall|i: int| 0 <= i < n ==> 0 <= #[trigger] f(i) <= hi,
    ensures
        0 <= sum_to(f, n) <= n * hi,
    decreases n,
{
    if n > 0 {
        lemma_sum_to_bounds(f, n - 1, hi);
        assert((n - 1) * hi + hi == n * hi) by (nonlinear_arith);
    }
}

/// A plain 3x3 tic-tac-toe board.
#[derive(Copy, Clone, PartialEq, Eq, Hash, Debug)]
pub struct TicTacToeGameData {
    map: MyMap3x3<TicTacToeStatus>,
}

impl View for TicTacToeGameData {
    type V = Seq<TicTacToeStatus>;

    closed spec fn view(&self) -> Seq<TicTacToeStatus> {
        self.map@
    }
}

/// Every board has nine cells.
pub broadcast proof fn lemma_board_len(b: TicTacToeGameData)
    ensures
        #[trigger] b@.len() == 9,
{
}

impl Default for TicTacToeGameData {
    fn default() -> (r: TicTacToeGameData)
        ensures
            forall|i: int| 0 <= i < 9 ==> #[trigger] r@[i] == TicTacToeStatus::Vacant,
    {
        TicTacToeGameData::new()
    }
}

impl TicTacToeGameData {
    /// An empty board.
    pub fn new() -> (r: TicTacToeGameData)
        ensures
            forall|i: int| 0 <= i < 9 ==> #[trigger] r@[i] == TicTacToeStatus::Vacant,
    {
        TicTacToeGameData { map: MyMap3x3::init(TicTacToeStatus::Vacant) }
    }

    /// Won by a player, tied, or still open, see [`board_status`].
    pub fn get_status(&self) -> (r: TicTacToeStatus)
        ensures
            r == board_status(self@),
    {
        let lines = score_lines();
        let mut k: usize = 0;
        while k < 8
            invariant
                0 <= k <= 8,
                self@.len() == 9,
                board_status(self@) == status_from(self@, k as int),
                is_score_lines(lines),
            decreases 8 - k,
        {
            let line = lines[k];
            let sum: i8 = self.map.get_cell(line[0]).value() + self.map.get_cell(line[1]).value()
                + self.map.get_cell(line[2]).value();
            if sum == 3 {
                return TicTacToeStatus::Me;
            }
            if sum == -3 {
                return TicTacToeStatus::Opp;
            }
            k = k + 1;
        }
        let mut i: usize = 0;
        while i < 9
            invariant
                0 <= i <= 9,
                self@.len() == 9,
                board_status(self@) == status_from(self@, 8),
                forall|j: int| 0 <= j < i ==> #[trigger] self@[j] != TicTacToeStatus::Vacant,
            decreases 9 - i,
        {
            if self.map.cells[i].is_vacant() {
                return TicTacToeStatus::Vacant;
            }
            i = i + 1;
        }
        TicTacToeStatus::Tie
    }

    /// Stores `value` at `cell`; the other cells stay unchanged.
    pub fn set_cell_value(&mut self, cell: CellIndex3x3, value: TicTacToeStatus)
        ensures
            final(self)@ == old(self)@.update(cell.idx(), value),
    {
        self.map.set_cell(cell, value);
    }

    pub fn get_cell_value(&self, cell: CellIndex3x3) -> (r: TicTacToeStatus)
        ensures
            r == self@[cell.idx()],
    {
        *self.map.get_cell(cell)
    }

    /// All cells with their values, in row-major order.
    pub fn iter_map(&self) -> (r: Vec<(CellIndex3x3, TicTacToeStatus)>)
        ensures
            r@.len() == 9,
            forall|i: int| 0 <= i < 9 ==> #[trigger] r@[i] == (cell_of_index(i), self@[i]),
    {
        self.map.iterate()
    }

    fn count_equal(&self, v: TicTacToeStatus) -> (n: usize)
        ensures
            n == count_cells(self@, v),
            n <= 9,
    {
        let mut n: usize = 0;
        let mut i: usize = 0;
        while i < 9
            invariant
                0 <= i <= 9,
                n <= i,
                self@.len() == 9,
                n == sum_to(holds_value(self@, v), i as int),
            decreases 9 - i,
        {
            if self.map.cells[i] == v {
                n = n + 1;
            }
            i = i + 1;
        }
        n
    }

    pub fn count_me_cells(&self) -> (n: usize)
        ensures
            n == count_cells(self@, TicTacToeStatus::Me),
            n <= 9,
    {
        self.count_equal(TicTacToeStatus::Me)
    }

    pub fn count_opp_cells(&self) -> (n: usize)
        ensures
            n == count_cells(self@, TicTacToeStatus::Opp),
            n <= 9,
    {
        self.count_equal(TicTacToeStatus::Opp)
    }

    /// The cells that would complete a line: first for `Me`, then for `Opp`.
    pub fn get_threats(&self) -> (r: (CellIndexSet, CellIndexSet))
        ensures
            r.0@ == threats(self@, 2),
            r.1@ == threats(self@, -2),
    {
        let lines = score_lines();
        let mut me_threats = CellIndexSet::new();
        let mut opp_threats = CellIndexSet::new();
        let mut k: usize = 0;
        while k < 8
            invariant
                0 <= k <= 8,
                self@.len() == 9,
                is_score_lines(lines),
                forall|c: CellIndex3x3|
                    #[trigger] me_threats@.contains(c) == is_threat(self@, c, 2, k as int),
                forall|c: CellIndex3x3|
                    #[trigger] opp_threats@.contains(c) == is_threat(self@, c, -2, k as int),
            decreases 8 - k,
        {
            let line = lines[k];
            let v0 = *self.map.get_cell(line[0]);
            let v1 = *self.map.get_cell(line[1]);
            let v2 = *self.map.get_cell(line[2]);
            let mut vacant = CellIndex3x3::TL;
            if v0.is_vacant() {
                vacant = line[0];
            }
            if v1.is_vacant() {
                vacant = line[1];
            }
            if v2.is_vacant() {
                vacant = line[2];
            }
            let threat: i8 = v0.value() + v1.value() + v2.value();
            assert(threat == line_sum(self@, k as int));
            assert(vacant == line_vacant(self@, k as int));
            if threat == 2 {
                me_threats.insert(vacant);
            } else if threat == -2 {
                opp_threats.insert(vacant);
            }
            k = k + 1;
        }
        proof {
            assert(me_threats@ =~= threats(self@, 2));
            assert(opp_threats@ =~= threats(self@, -2));
        }
        (me_threats, opp_threats)
    }

    /// For the lines through `cell`: how many hold two of `Me` and a vacant cell, one of `Me`
    /// and two vacant cells, one of `Opp` and two vacant, two of `Opp` and one vacant (line sums
    /// 2, 1, -1, -2). All zero when `cell` itself is taken.
    pub fn get_meta_cell_threats(&self, cell: CellIndex3x3) -> (r: (u8, u8, u8, u8))
        ensures
            self@[cell.idx()] != TicTacToeStatus::Vacant ==> r == (0u8, 0u8, 0u8, 0u8),
            self@[cell.idx()] == TicTacToeStatus::Vacant ==> r.0 == meta_count(self@, cell, 2)
                && r.1 == meta_count(self@, cell, 1) && r.2 == meta_count(self@, cell, -2) && r.3
                == meta_count(self@, cell, -1),
    {
        if self.get_cell_value(cell).is_not_vacant() {
            return (0, 0, 0, 0);
        }
        let lines = score_lines();
        let mut my_meta_threats: u8 = 0;
        let mut my_meta_small_threats: u8 = 0;
        let mut opp_meta_threats: u8 = 0;
        let mut opp_meta_small_threats: u8 = 0;
        let mut k: usize = 0;
        while k < 8
            invariant
                0 <= k <= 8,
                self@.len() == 9,
                is_score_lines(lines),
                my_meta_threats <= k && my_meta_small_threats <= k && opp_meta_threats <= k
                    && opp_meta_small_threats <= k,
                my_meta_threats == sum_to(line_through_with_sum(self@, cell, 2), k as int),
                my_meta_small_threats == sum_to(line_through_with_sum(self@, cell, 1), k as int),
                opp_meta_threats == sum_to(line_through_with_sum(self@, cell, -2), k as int),
                opp_meta_small_threats == sum_to(line_through_with_sum(self@, cell, -1), k as int),
            decreases 8 - k,
        {
            let line = lines[k];
            if line[0] == cell || line[1] == cell || line[2] == cell {
                let threat: i8 = self.map.get_cell(line[0]).value() + self.map.get_cell(
                    line[1],
                ).value() + self.map.get_cell(line[2]).value();
                if threat == 2 {
                    my_meta_threats = my_meta_threats + 1;
                } else if threat == 1 {
                    my_meta_small_threats = my_meta_small_threats + 1;
                } else if threat == -1 {
                    opp_meta_small_threats = opp_meta_small_threats + 1;
                } else if threat == -2 {
                    opp_meta_threats = opp_meta_threats + 1;
                }
            }
            k = k + 1;
        }
        (my_meta_threats, my_meta_small_threats, opp_meta_threats, opp_meta_small_threats)
    }

    /// Weighted board control: sum of the cell weights held by `Me`, and by `Opp`.
    pub fn get_board_control(&self) -> (r: (u32, u32))
        ensures
            r.0 == control(self@, TicTacToeStatus::Me),
            r.1 == control(self@, TicTacToeStatus::Opp),
    {
        let mut my_control: u32 = 0;
        let mut opp_control: u32 = 0;
        let mut i: usize = 0;
        while i < 9
            invariant
                0 <= i <= 9,
                self@.len() == 9,
                my_control <= 4 * i,
                opp_control <= 4 * i,
                my_control == sum_to(weight_if_held(self@, TicTacToeStatus::Me), i as int),
                opp_control == sum_to(weight_if_held(self@, TicTacToeStatus::Opp), i as int),
            decreases 9 - i,
        {
            let c = match CellIndex3x3::try_from_index(i) {
                Ok(c) => c,
                Err(_) => CellIndex3x3::TL,
            };
            let status = self.map.cells[i];
            match status {
                TicTacToeStatus::Me => {
                    my_control = my_control + c.cell_weight();
                },
                TicTacToeStatus::Opp => {
                    opp_control = opp_control + c.cell_weight();
                },
                _ => {},
            }
            i = i + 1;
        }
        (my_control, opp_control)
    }

    pub fn count_non_vacant_cells(&self) -> (n: usize)
        ensures
            n == count_non_vacant(self@),
            n <= 9,
    {
        let mut n: usize = 0;
        let mut i: usize = 0;
        while i < 9
            invariant
                0 <= i <= 9,
                n <= i,
                self@.len() == 9,
                n == sum_to(
                    |j: int| if self@[j] != TicTacToeStatus::Vacant { 1int } else { 0int },
                    i as int,
                ),
            decreases 9 - i,
        {
            if self.map.cells[i].is_not_vacant() {
                n = n + 1;
            }
            i = i + 1;
        }
        n
    }
}

} // verus!
