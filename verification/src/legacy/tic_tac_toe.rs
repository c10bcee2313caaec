use vstd::prelude::*;

use super::map_point::MapPoint;
use super::map_two_dim::MyMap2D;
use crate::tic_tac_toe::sum_to;

verus! {

broadcast use MyMap2D::lemma_shape;

/// The two players of a game.
#[derive(Copy, Clone, PartialEq, Eq, Hash, Debug, Structural)]
pub enum MonteCarloPlayer {
    Me,
    Opp,
}

impl MonteCarloPlayer {
    pub open spec fn spec_next_player(self) -> MonteCarloPlayer {
        match self {
            MonteCarloPlayer::Me => MonteCarloPlayer::Opp,
            MonteCarloPlayer::Opp => MonteCarloPlayer::Me,
        }
    }

    /// The other player.
    pub fn next_player(&self) -> (r: MonteCarloPlayer)
        ensures
            r == self.spec_next_player(),
            r != *self,
    {
        match self {
            MonteCarloPlayer::Me => MonteCarloPlayer::Opp,
            MonteCarloPlayer::Opp => MonteCarloPlayer::Me,
        }
    }
}

/// State of a cell or of a board.
#[derive(Copy, Clone, PartialEq, Eq, Hash, Debug, Structural)]
pub enum TicTacToeStatus {
    Vacant,
    Player(MonteCarloPlayer),
    Tie,
}

impl Default for TicTacToeStatus {
    fn default() -> (r: TicTacToeStatus)
        ensures
            r == TicTacToeStatus::Vacant,
    {
        TicTacToeStatus::Vacant
    }
}

impl TicTacToeStatus {
    pub fn is_vacant(&self) -> (b: bool)
        ensures
            b == (*self == TicTacToeStatus::Vacant),
    {
        match self {
            TicTacToeStatus::Vacant => true,
            _ => false,
        }
    }

    pub fn is_not_vacant(&self) -> (b: bool)
        ensures
            b == (*self != TicTacToeStatus::Vacant),
    {
        !self.is_vacant()
    }

    pub fn is_player(&self) -> (b: bool)
        ensures
            b == (*self is Player),
    {
        match self {
            TicTacToeStatus::Player(_) => true,
            _ => false,
        }
    }
}

/// The winner of a line: its player if every cell holds the same player, else `Tie`.
pub open spec fn line_winner(s: Seq<TicTacToeStatus>) -> TicTacToeStatus {
    if s.len() > 0 && s[0] is Player && (forall|k: int| 0 <= k < s.len() ==> #[trigger] s[k] == s[0]) {
        s[0]
    } else {
        TicTacToeStatus::Tie
    }
}

/// Abstract state of a board: its rows of cells and its recorded status.
pub struct BoardView {
    pub cells: Seq<Seq<TicTacToeStatus>>,
    pub status: TicTacToeStatus,
}

impl BoardView {
    /// The cell at column `x`, row `y`.
    pub open spec fn at(self, x: int, y: int) -> TicTacToeStatus {
        self.cells[y][x]
    }

    pub open spec fn row(self, y: int) -> Seq<TicTacToeStatus> {
        seq![self.at(0, y), self.at(1, y), self.at(2, y)]
    }

    pub open spec fn column(self, x: int) -> Seq<TicTacToeStatus> {
        seq![self.at(x, 0), self.at(x, 1), self.at(x, 2)]
    }

    pub open spec fn diagonal_top_left(self) -> Seq<TicTacToeStatus> {
        seq![self.at(0, 0), self.at(1, 1), self.at(2, 2)]
    }

    pub open spec fn diagonal_top_right(self) -> Seq<TicTacToeStatus> {
        seq![self.at(2, 0), self.at(1, 1), self.at(0, 2)]
    }

    pub open spec fn has_vacant(self) -> bool {
        exists|x: int, y: int| 0 <= x < 3 && 0 <= y < 3 && #[trigger] self.at(x, y) == TicTacToeStatus::Vacant
    }

    /// Status after the cell at `(x, y)` changed: a line through the cell that one player
    /// holds completely wins (row, column, then the diagonals through the cell); otherwise a
    /// board without vacant cells is a tie, and else the recorded status stays.
    pub open spec fn checked_status(self, x: int, y: int) -> TicTacToeStatus {
        if line_winner(self.row(y)) is Player {
            line_winner(self.row(y))
        } else if line_winner(self.column(x)) is Player {
            line_winner(self.column(x))
        } else if x == y && line_winner(self.diagonal_top_left()) is Player {
            line_winner(self.diagonal_top_left())
        } else if x + y == 2 && line_winner(self.diagonal_top_right()) is Player {
            line_winner(self.diagonal_top_right())
        } else if !self.has_vacant() {
            TicTacToeStatus::Tie
        } else {
            self.status
        }
    }

    /// The board after writing `value` at `(x, y)`.
    pub open spec fn with_cell(self, x: int, y: int, value: TicTacToeStatus) -> BoardView {
        BoardView { cells: self.cells.update(y, self.cells[y].update(x, value)), status: self.status }
    }

    /// The board after writing `value` at `(x, y)` and checking its status there.
    pub open spec fn after_set(self, x: int, y: int, value: TicTacToeStatus) -> BoardView {
        let b = self.with_cell(x, y, value);
        BoardView { status: b.checked_status(x, y), ..b }
    }

    /// The board with every cell set to its status.
    pub open spec fn filled_with_status(self) -> BoardView {
        BoardView {
            cells: Seq::new(3, |y: int| Seq::new(3, |x: int| self.status)),
            status: self.status,
        }
    }

    pub open spec fn shape_ok(self) -> bool {
        self.cells.len() == 3 && forall|y: int| 0 <= y < 3 ==> (#[trigger] self.cells[y]).len() == 3
    }
}

/// Scan of the first `n` cells of a line: how many cells its owner holds, the owner (the
/// first player met), and whether the line is dead (a tie cell, or cells of both players).
pub open spec fn heuristic_scan(s: Seq<TicTacToeStatus>, n: int) -> (int, Option<MonteCarloPlayer>, bool)
    decreases n,
{
    if n <= 0 {
        (0, None, false)
    } else {
        let prev = heuristic_scan(s, n - 1);
        if prev.2 {
            prev
        } else {
            match s[n - 1] {
                TicTacToeStatus::Vacant => prev,
                TicTacToeStatus::Tie => (prev.0, prev.1, true),
                TicTacToeStatus::Player(p) => match prev.1 {
                    Some(q) => if p == q {
                        (prev.0 + 1, prev.1, false)
                    } else {
                        (prev.0, prev.1, true)
                    },
                    None => (prev.0 + 1, Some(p), false),
                },
            }
        }
    }
}

/// Heuristic value of a line: 0 if dead or empty; else 1, 10 or 100 for one, two or more
/// cells of its owner, positive for `Me` and negative for `Opp`.
#[verifier::opaque]
pub open spec fn line_heuristic(s: Seq<TicTacToeStatus>) -> int {
    let scan = heuristic_scan(s, s.len() as int);
    if scan.2 {
        0
    } else {
        let h = if scan.0 == 1 {
            1int
        } else if scan.0 == 2 {
            10int
        } else {
            100int
        };
        match scan.1 {
            Some(MonteCarloPlayer::Me) => h,
            Some(MonteCarloPlayer::Opp) => -h,
            None => 0,
        }
    }
}

/// Sum of the heuristics of the first `n` rows and columns.
pub open spec fn rows_columns_heuristic(v: BoardView, n: int) -> int
    decreases n,
{
    if n <= 0 {
        0
    } else {
        rows_columns_heuristic(v, n - 1) + line_heuristic(v.row(n - 1)) + line_heuristic(
            v.column(n - 1),
        )
    }
}

/// Heuristic of a board: the sum over its three rows, three columns and two diagonals.
pub open spec fn board_heuristic(v: BoardView) -> int {
    line_heuristic(v.row(0)) + line_heuristic(v.column(0)) + line_heuristic(v.row(1))
        + line_heuristic(v.column(1)) + line_heuristic(v.row(2)) + line_heuristic(v.column(2))
        + line_heuristic(v.diagonal_top_left()) + line_heuristic(v.diagonal_top_right())
}

/// Number of cells of `v` that `player` holds.
pub open spec fn player_cells(v: BoardView, player: MonteCarloPlayer) -> int {
    sum_to(held_by(v, player), 9)
}

/// Indicator of the cells, in row-major order, that `player` holds.
pub open spec fn held_by(v: BoardView, player: MonteCarloPlayer) -> spec_fn(int) -> int {
    |k: int| if v.at(k % 3, k / 3) == TicTacToeStatus::Player(player) { 1int } else { 0int }
}

/// A 3x3 tic-tac-toe board with its status.
#[derive(Copy, Clone, PartialEq, Eq, Hash, Debug)]
pub struct TicTacToeGameData {
    map: MyMap2D<TicTacToeStatus, 3, 3>,
    status: TicTacToeStatus,
}

impl View for TicTacToeGameData {
    type V = BoardView;

    closed spec fn view(&self) -> BoardView {
        BoardView { cells: self.map@, status: self.status }
    }
}

impl Default for TicTacToeGameData {
    fn default() -> (r: TicTacToeGameData)
        ensures
            r@.status == TicTacToeStatus::Vacant,
            forall|x: int, y: int| 0 <= x < 3 && 0 <= y < 3 ==> #[trigger] r@.at(x, y) == TicTacToeStatus::Vacant,
    {
        TicTacToeGameData::new()
    }
}

/// Every board has three rows of three cells.
pub broadcast proof fn lemma_board_shape(b: TicTacToeGameData)
    ensures
        (#[trigger] b@).shape_ok(),
{
    b.map.lemma_shape();
}

/// Collects the values of a list of cells.
fn line_values(v: &Vec<(MapPoint<3, 3>, TicTacToeStatus)>) -> (r: Vec<TicTacToeStatus>)
    ensures
        r@.len() == v@.len(),
        forall|k: int| 0 <= k < v@.len() ==> #[trigger] r@[k] == v@[k].1,
{
    let mut r: Vec<TicTacToeStatus> = Vec::new();
    let mut k: usize = 0;
    while k < v.len()
        invariant
            0 <= k <= v@.len(),
            r@.len() == k,
            forall|j: int| 0 <= j < k ==> #[trigger] r@[j] == v@[j].1,
        decreases v@.len() - k,
    {
        r.push(v[k].1);
        k = k + 1;
    }
    r
}

impl TicTacToeGameData {
    /// An empty, open board.
    pub fn new() -> (r: TicTacToeGameData)
        ensures
            r@.status == TicTacToeStatus::Vacant,
            forall|x: int, y: int| 0 <= x < 3 && 0 <= y < 3 ==> #[trigger] r@.at(x, y) == TicTacToeStatus::Vacant,
    {
        let r = TicTacToeGameData {
            map: MyMap2D::init(TicTacToeStatus::Vacant),
            status: TicTacToeStatus::Vacant,
        };
        assert forall|x: int, y: int| 0 <= x < 3 && 0 <= y < 3 implies #[trigger] r@.at(x, y)
            == TicTacToeStatus::Vacant by {
            assert(r.map.cell(x, y) == TicTacToeStatus::Vacant);
        }
        r
    }

    /// See [`line_winner`].
    pub fn check_status_for_one_line(&self, line: &Vec<TicTacToeStatus>) -> (r: TicTacToeStatus)
        ensures
            r == line_winner(line@),
    {
        let mut winner = TicTacToeStatus::Tie;
        let mut index: usize = 0;
        while index < line.len()
            invariant
                0 <= index <= line@.len(),
                index > 0 ==> line@[0] is Player && winner == line@[0],
                index == 0 ==> winner == TicTacToeStatus::Tie,
                forall|k: int| 0 <= k < index ==> #[trigger] line@[k] == line@[0],
            decreases line@.len() - index,
        {
            let element = line[index];
            if index == 0 {
                match element {
                    TicTacToeStatus::Player(player) => winner = TicTacToeStatus::Player(player),
                    _ => {
                        return TicTacToeStatus::Tie;
                    },
                }
            } else if winner != element {
                return TicTacToeStatus::Tie;
            }
            index = index + 1;
        }
        winner
    }

    /// Checks the board after the cell `cell` changed, see [`BoardView::checked_status`];
    /// records the result and returns it.
    pub fn check_status(&mut self, cell: MapPoint<3, 3>) -> (r: TicTacToeStatus)
        requires
            cell.wf(),
        ensures
            r == old(self)@.checked_status(cell.spec_x() as int, cell.spec_y() as int),
            final(self)@ == (BoardView { status: r, ..old(self)@ }),
    {
        let ghost v = self@;
        let row = line_values(&self.map.iter_row(cell.y()));
        assert(row@ =~= v.row(cell.spec_y() as int));
        match self.check_status_for_one_line(&row) {
            TicTacToeStatus::Player(player) => {
                self.status = TicTacToeStatus::Player(player);
                return self.status;
            },
            _ => {},
        }
        let column = line_values(&self.map.iter_column(cell.x()));
        assert(column@ =~= v.column(cell.spec_x() as int));
        match self.check_status_for_one_line(&column) {
            TicTacToeStatus::Player(player) => {
                self.status = TicTacToeStatus::Player(player);
                return self.status;
            },
            _ => {},
        }
        if cell.x() == cell.y() {
            let diagonal = line_values(&self.map.iter_diagonale_top_left());
            assert(diagonal@ =~= v.diagonal_top_left());
            match self.check_status_for_one_line(&diagonal) {
                TicTacToeStatus::Player(player) => {
                    self.status = TicTacToeStatus::Player(player);
                    return self.status;
                },
                _ => {},
            }
        }
        if cell.x() + cell.y() == 2 {
            let diagonal = line_values(&self.map.iter_diagonale_top_right());
            assert(diagonal@ =~= v.diagonal_top_right());
            match self.check_status_for_one_line(&diagonal) {
                TicTacToeStatus::Player(player) => {
                    self.status = TicTacToeStatus::Player(player);
                    return self.status;
                },
                _ => {},
            }
        }
        if self.get_first_vacant_cell().is_none() {
            self.status = TicTacToeStatus::Tie;
        }
        self.status
    }

    pub fn get_status(&self) -> (r: TicTacToeStatus)
        ensures
            r == self@.status,
    {
        self.status
    }

    pub fn get_cell_value(&self, cell: MapPoint<3, 3>) -> (r: TicTacToeStatus)
        requires
            cell.wf(),
        ensures
            r == self@.at(cell.spec_x() as int, cell.spec_y() as int),
    {
        *self.map.get(cell)
    }

    /// Writes `value` at `cell` and checks the board there, see [`BoardView::after_set`].
    fn set_and_check(&mut self, cell: MapPoint<3, 3>, value: TicTacToeStatus) -> (r: TicTacToeStatus)
        requires
            cell.wf(),
        ensures
            final(self)@ == old(self)@.after_set(cell.spec_x() as int, cell.spec_y() as int, value),
            r == final(self)@.status,
    {
        self.map.set(cell, value);
        proof {
            assert(self@ == old(self)@.with_cell(cell.spec_x() as int, cell.spec_y() as int, value));
        }
        self.check_status(cell)
    }

    /// `player` takes `cell`; returns the board status after the check.
    pub fn set_player(&mut self, cell: MapPoint<3, 3>, player: MonteCarloPlayer) -> (r: TicTacToeStatus)
        requires
            cell.wf(),
        ensures
            final(self)@ == old(self)@.after_set(
                cell.spec_x() as int,
                cell.spec_y() as int,
                TicTacToeStatus::Player(player),
            ),
            r == final(self)@.status,
    {
        self.set_and_check(cell, TicTacToeStatus::Player(player))
    }

    /// Marks `cell` as a tie; returns the board status after the check.
    pub fn set_tie(&mut self, cell: MapPoint<3, 3>) -> (r: TicTacToeStatus)
        requires
            cell.wf(),
        ensures
            final(self)@ == old(self)@.after_set(
                cell.spec_x() as int,
                cell.spec_y() as int,
                TicTacToeStatus::Tie,
            ),
            r == final(self)@.status,
    {
        self.set_and_check(cell, TicTacToeStatus::Tie)
    }

    /// Sets every cell to the board's status, as a decided board is shown.
    pub fn set_all_to_status(&mut self)
        ensures
            final(self)@ == old(self)@.filled_with_status(),
    {
        self.map = MyMap2D::init(self.status);
        proof {
            let target = old(self)@.filled_with_status();
            assert(self.map@.len() == 3);
            assert forall|y: int| 0 <= y < 3 implies #[trigger] self@.cells[y] =~= target.cells[y] by {
                assert(self.map@[y].len() == 3);
                assert forall|x: int| 0 <= x < 3 implies self@.cells[y][x] == target.cells[y][x] by {
                    assert(self.map.cell(x, y) == old(self)@.status);
                }
            }
            assert(self@.cells =~= target.cells);
        }
    }

    /// Clears `cell` and reopens the board.
    pub fn set_vacant(&mut self, cell: MapPoint<3, 3>) -> (r: TicTacToeStatus)
        requires
            cell.wf(),
        ensures
            final(self)@ == (BoardView {
                status: TicTacToeStatus::Vacant,
                ..old(self)@.with_cell(
                    cell.spec_x() as int,
                    cell.spec_y() as int,
                    TicTacToeStatus::Vacant,
                )
            }),
            r == TicTacToeStatus::Vacant,
    {
        self.map.set(cell, TicTacToeStatus::Vacant);
        self.status = TicTacToeStatus::Vacant;
        self.status
    }

    /// Number of cells that `count_player` holds.
    pub fn count_player_cells(&self, count_player: MonteCarloPlayer) -> (n: usize)
        ensures
            n == player_cells(self@, count_player),
            n <= 9,
    {
        let cells = self.map.iter();
        let mut n: usize = 0;
        let mut k: usize = 0;
        while k < 9
            invariant
                0 <= k <= 9,
                n <= k,
                cells@.len() == 9,
                forall|x: int, y: int|
                    0 <= x < 3 && 0 <= y < 3 ==> (#[trigger] cells@[y * 3 + x]).1 == self@.at(x, y),
                n == sum_to(held_by(self@, count_player), k as int),
            decreases 9 - k,
        {
            let ghost x = (k % 3) as int;
            let ghost y = (k / 3) as int;
            assert(k == y * 3 + x);
            match cells[k].1 {
                TicTacToeStatus::Player(player) => {
                    if player == count_player {
                        n = n + 1;
                    }
                },
                _ => {},
            }
            k = k + 1;
        }
        n
    }

    /// All cells in row-major order.
    pub fn iter_map(&self) -> (r: Vec<(MapPoint<3, 3>, TicTacToeStatus)>)
        ensures
            r@.len() == 9,
            forall|x: int, y: int|
                0 <= x < 3 && 0 <= y < 3 ==> (#[trigger] r@[y * 3 + x]).0.spec_x() == x && r@[y * 3
                    + x].0.spec_y() == y && r@[y * 3 + x].1 == self@.at(x, y),
    {
        self.map.iter()
    }

    /// See [`line_heuristic`].
    pub fn calc_line_heuristic(&self, line: &Vec<TicTacToeStatus>) -> (h: i32)
        requires
            line@.len() < 256,
        ensures
            h == line_heuristic(line@),
    {
        reveal(line_heuristic);
        let mut count: u8 = 0;
        let mut line_owner: Option<MonteCarloPlayer> = None;
        let mut i: usize = 0;
        while i < line.len()
            invariant
                0 <= i <= line@.len() < 256,
                count <= i,
                heuristic_scan(line@, i as int) == (count as int, line_owner, false),
            decreases line@.len() - i,
        {
            match line[i] {
                TicTacToeStatus::Vacant => {},
                TicTacToeStatus::Tie => {
                    proof {
                        lemma_dead_scan_stays(line@, i as int + 1);
                    }
                    return 0;
                },
                TicTacToeStatus::Player(player) => match line_owner {
                    Some(owner) => if player == owner {
                        count = count + 1;
                    } else {
                        proof {
                            lemma_dead_scan_stays(line@, i as int + 1);
                        }
                        return 0;
                    },
                    None => {
                        line_owner = Some(player);
                        count = count + 1;
                    },
                },
            }
            i = i + 1;
        }
        let line_heuristic: i32 = if count == 1 {
            1
        } else if count == 2 {
            10
        } else {
            100
        };
        match line_owner {
            Some(player) => match player {
                MonteCarloPlayer::Me => line_heuristic,
                MonteCarloPlayer::Opp => -line_heuristic,
            },
            None => 0,
        }
    }

    /// See [`board_heuristic`].
    pub fn calc_heuristic_(&self) -> (h: i32)
        ensures
            h == board_heuristic(self@),
    {
        let mut heuristic: i32 = 0;
        let mut rc: usize = 0;
        while rc < 3
            invariant
                0 <= rc <= 3,
                heuristic == rows_columns_heuristic(self@, rc as int),
                -200 * rc <= heuristic <= 200 * rc,
            decreases 3 - rc,
        {
            let row = line_values(&self.map.iter_row(rc));
            assert(row@ =~= self@.row(rc as int));
            let column = line_values(&self.map.iter_column(rc));
            assert(column@ =~= self@.column(rc as int));
            let hr = self.calc_line_heuristic(&row);
            let hc = self.calc_line_heuristic(&column);
            proof {
                lemma_line_heuristic_bounds(row@);
                lemma_line_heuristic_bounds(column@);
            }
            heuristic = heuristic + hr + hc;
            rc = rc + 1;
        }
        let d1 = line_values(&self.map.iter_diagonale_top_left());
        assert(d1@ =~= self@.diagonal_top_left());
        let d2 = line_values(&self.map.iter_diagonale_top_right());
        assert(d2@ =~= self@.diagonal_top_right());
        let h1 = self.calc_line_heuristic(&d1);
        let h2 = self.calc_line_heuristic(&d2);
        proof {
            lemma_line_heuristic_bounds(d1@);
            lemma_line_heuristic_bounds(d2@);
        }
        heuristic = heuristic + h1;
        heuristic = heuristic + h2;
        proof {
            assert(rows_columns_heuristic(self@, 3) == line_heuristic(self@.row(0)) + line_heuristic(
                self@.column(0),
            ) + line_heuristic(self@.row(1)) + line_heuristic(self@.column(1)) + line_heuristic(
                self@.row(2),
            ) + line_heuristic(self@.column(2))) by {
                reveal_with_fuel(rows_columns_heuristic, 4);
            }
        }
        heuristic
    }

    /// The first vacant cell in row-major order, `None` on a full board.
    pub fn get_first_vacant_cell(&self) -> (r: Option<(MapPoint<3, 3>, TicTacToeStatus)>)
        ensures
            r is None <==> !self@.has_vacant(),
            r matches Some(c) ==> c.0.wf() && c.1 == TicTacToeStatus::Vacant && self@.at(
                c.0.spec_x() as int,
                c.0.spec_y() as int,
            ) == TicTacToeStatus::Vacant && (forall|x: int, y: int|
                0 <= x < 3 && 0 <= y < 3 && y * 3 + x < c.0.pos() ==> #[trigger] self@.at(x, y)
                    != TicTacToeStatus::Vacant),
    {
        let cells = self.map.iter();
        let mut k: usize = 0;
        while k < 9
            invariant
                0 <= k <= 9,
                cells@.len() == 9,
                forall|x: int, y: int|
                    0 <= x < 3 && 0 <= y < 3 ==> (#[trigger] cells@[y * 3 + x]).0.spec_x() == x
                        && cells@[y * 3 + x].0.spec_y() == y && cells@[y * 3 + x].1 == self@.at(x, y),
                forall|x: int, y: int|
                    0 <= x < 3 && 0 <= y < 3 && y * 3 + x < k ==> #[trigger] self@.at(x, y)
                        != TicTacToeStatus::Vacant,
            decreases 9 - k,
        {
            let ghost x = (k % 3) as int;
            let ghost y = (k / 3) as int;
            assert(k == y * 3 + x);
            if cells[k].1.is_vacant() {
                return Some(cells[k]);
            }
            k = k + 1;
        }
        None
    }
}

/// Once a scan has found the line dead, it stays dead.
proof fn lemma_dead_scan_stays(s: Seq<TicTacToeStatus>, n: int)
    requires
        0 < n <= s.len(),
        heuristic_scan(s, n).2,
    ensures
        heuristic_scan(s, s.len() as int).2,
        line_heuristic(s) == 0,
    decreases s.len() - n,
{
    reveal(line_heuristic);
    if n < s.len() {
        lemma_dead_scan_stays(s, n + 1);
    }
}

/// A board's heuristic lies between -800 and 800.
pub proof fn lemma_board_heuristic_bounds(v: BoardView)
    ensures
        -800 <= board_heuristic(v) <= 800,
{
    lemma_line_heuristic_bounds(v.row(0));
    lemma_line_heuristic_bounds(v.row(1));
    lemma_line_heuristic_bounds(v.row(2));
    lemma_line_heuristic_bounds(v.column(0));
    lemma_line_heuristic_bounds(v.column(1));
    lemma_line_heuristic_bounds(v.column(2));
    lemma_line_heuristic_bounds(v.diagonal_top_left());
    lemma_line_heuristic_bounds(v.diagonal_top_right());
}

/// A line's heuristic lies between -100 and 100.
proof fn lemma_line_heuristic_bounds(s: Seq<TicTacToeStatus>)
    ensures
        -100 <= line_heuristic(s) <= 100,
{
    reveal(line_heuristic);
}

} // verus!
