use vstd::prelude::*;

use crate::cell_index::{cell_of_index, CellIndex3x3};
use crate::map3x3::MyMap3x3;
use crate::tic_tac_toe::{
    all_filled, board_status, count_cells, count_non_vacant, lemma_board_len,
    lemma_board_status_by_lines, status_from, sum_to, three_in_a_row, TicTacToeGameData,
    TicTacToeStatus,
};

verus! {

broadcast use lemma_board_len;

/// A move: the mini board (its index on the status map) and the cell inside it.
#[derive(Copy, Clone, PartialEq, Eq, Hash, Debug, Structural)]
pub struct UltTTTMove {
    pub status_index: CellIndex3x3,
    pub mini_board_index: CellIndex3x3,
}

impl Default for UltTTTMove {
    fn default() -> (r: UltTTTMove)
        ensures
            r.status_index == CellIndex3x3::TL && r.mini_board_index == CellIndex3x3::TL,
    {
        UltTTTMove { status_index: CellIndex3x3::TL, mini_board_index: CellIndex3x3::TL }
    }
}

impl UltTTTMove {
    /// Position of the move in the order in which moves are listed (board, then cell).
    pub open spec fn key(self) -> int {
        self.status_index.idx() * 9 + self.mini_board_index.idx()
    }

    /// The move at game coordinates `(x, y)`, both in `0..9`: `x / 3, y / 3` select the mini
    /// board and `x % 3, y % 3` the cell in it. `Err` when a coordinate is 9 or above.
    pub fn try_from_coords(cg_coordinates: (u8, u8)) -> (r: Result<UltTTTMove, ()>)
        ensures
            cg_coordinates.0 < 9 && cg_coordinates.1 < 9 <==> r is Ok,
            r matches Ok(m) ==> m.status_index == cell_of_index(
                (cg_coordinates.0 / 3) * 3 + cg_coordinates.1 / 3,
            ) && m.mini_board_index == cell_of_index(
                (cg_coordinates.0 % 3) * 3 + cg_coordinates.1 % 3,
            ),
    {
        let x_status = cg_coordinates.0 / 3;
        let y_status = cg_coordinates.1 / 3;
        let x_mini_board = cg_coordinates.0 % 3;
        let y_mini_board = cg_coordinates.1 % 3;
        let status_index = match CellIndex3x3::try_from_coords((x_status, y_status)) {
            Ok(c) => c,
            Err(e) => {
                return Err(e);
            },
        };
        let mini_board_index = match CellIndex3x3::try_from_coords((x_mini_board, y_mini_board)) {
            Ok(c) => c,
            Err(e) => {
                return Err(e);
            },
        };
        Ok(UltTTTMove { status_index, mini_board_index })
    }

    /// Game coordinates `(x, y)` of the move.
    pub fn to_coords(self) -> (c: (u8, u8))
        ensures
            c.0 == self.status_index.row() * 3 + self.mini_board_index.row(),
            c.1 == self.status_index.col() * 3 + self.mini_board_index.col(),
            c.0 < 9 && c.1 < 9,
    {
        let (x_status, y_status) = self.status_index.to_coords();
        let (x_mini_board, y_mini_board) = self.mini_board_index.to_coords();
        let x = x_status * 3 + x_mini_board;
        let y = y_status * 3 + y_mini_board;
        (x, y)
    }

    /// A move at the given cell if it is vacant.
    pub fn valid_move(
        status_index: CellIndex3x3,
        mini_board_index: CellIndex3x3,
        cell_value: &TicTacToeStatus,
    ) -> (r: Option<UltTTTMove>)
        ensures
            *cell_value == TicTacToeStatus::Vacant ==> r == Some(
                UltTTTMove { status_index, mini_board_index },
            ),
            *cell_value != TicTacToeStatus::Vacant ==> r is None,
    {
        match cell_value {
            TicTacToeStatus::Vacant => Some(UltTTTMove { status_index, mini_board_index }),
            _ => None,
        }
    }
}

/// Where the next move may be played.
#[derive(Copy, Clone, PartialEq, Eq, Hash, Debug, Structural)]
pub enum NextActionConstraint {
    /// First move of a game: only the centre mini board.
    Init,
    /// Free choice among all mini boards that are not decided.
    FreeChoice,
    /// Only the given mini board.
    MiniBoard(CellIndex3x3),
}

impl Default for NextActionConstraint {
    fn default() -> (r: NextActionConstraint)
        ensures
            r == NextActionConstraint::Init,
    {
        NextActionConstraint::Init
    }
}

/// Number of vacant cells of each mini board.
pub open spec fn vacant_in_board(boards: Seq<Seq<TicTacToeStatus>>) -> spec_fn(int) -> int {
    |i: int| 9 - count_non_vacant(boards[i])
}

/// Moves listed in strictly increasing order of board, then cell.
pub open spec fn sorted_by_key(s: Seq<UltTTTMove>) -> bool {
    forall|i: int, j: int| 0 <= i < j < s.len() ==> (#[trigger] s[i]).key() < (#[trigger] s[j]).key()
}

/// Abstract state of an ultimate tic-tac-toe game.
pub struct UltTTTView {
    /// The nine mini boards, each as nine cells.
    pub boards: Seq<Seq<TicTacToeStatus>>,
    /// The status map: one entry per mini board.
    pub status: Seq<TicTacToeStatus>,
    pub constraint: NextActionConstraint,
    pub current: TicTacToeStatus,
    pub last: TicTacToeStatus,
}

/// State of an ultimate tic-tac-toe game.
#[derive(Copy, Clone, PartialEq, Eq, Hash, Debug)]
pub struct UltTTT {
    map: MyMap3x3<TicTacToeGameData>,
    status_map: TicTacToeGameData,
    next_action_constraint: NextActionConstraint,
    current_player: TicTacToeStatus,
    last_player: TicTacToeStatus,
}

impl View for UltTTT {
    type V = UltTTTView;

    closed spec fn view(&self) -> UltTTTView {
        UltTTTView {
            boards: Seq::new(9, |i: int| self.map@[i]@),
            status: self.status_map@,
            constraint: self.next_action_constraint,
            current: self.current_player,
            last: self.last_player,
        }
    }
}

impl UltTTT {
    /// Every game has nine mini boards of nine cells each and a status map of nine cells.
    pub broadcast proof fn lemma_shape(self)
        ensures
            #[trigger] self@.shape_ok(),
    {
        assert forall|i: int| 0 <= i < 9 implies (#[trigger] self@.boards[i]).len() == 9 by {
            assert(self@.boards[i] == self.map@[i]@);
        }
    }
}

impl UltTTTView {
    /// The value of the cell that move `m` addresses.
    pub open spec fn cell_of_move(self, m: UltTTTMove) -> TicTacToeStatus {
        self.boards[m.status_index.idx()][m.mini_board_index.idx()]
    }

    /// Whether move `m` may be played now: its cell is vacant and the constraint allows its
    /// mini board (under free choice: a mini board that is not decided).
    pub open spec fn move_allowed(self, m: UltTTTMove) -> bool {
        &&& self.cell_of_move(m) == TicTacToeStatus::Vacant
        &&& match self.constraint {
            NextActionConstraint::Init => m.status_index == CellIndex3x3::MM,
            NextActionConstraint::MiniBoard(c) => m.status_index == c,
            NextActionConstraint::FreeChoice => self.status[m.status_index.idx()]
                == TicTacToeStatus::Vacant,
        }
    }

    /// Every mini board and the status map have nine cells.
    pub open spec fn shape_ok(self) -> bool {
        &&& self.boards.len() == 9
        &&& self.status.len() == 9
        &&& forall|i: int| 0 <= i < 9 ==> (#[trigger] self.boards[i]).len() == 9
    }

    /// A state that play can reach: the status map records the status of every mini board,
    /// both players are players, and a constraint names an open mini board.
    pub open spec fn wf(self) -> bool {
        &&& self.shape_ok()
        &&& forall|i: int| 0 <= i < 9 ==> self.status[i] == board_status(#[trigger] self.boards[i])
        &&& forall|i: int, j: int|
            0 <= i < 9 && 0 <= j < 9 ==> #[trigger] self.boards[i][j] != TicTacToeStatus::Tie
        &&& self.current.is_player_status()
        &&& self.last.is_player_status()
        &&& match self.constraint {
            NextActionConstraint::Init => self.status[4] == TicTacToeStatus::Vacant,
            NextActionConstraint::MiniBoard(c) => self.status[c.idx()] == TicTacToeStatus::Vacant,
            NextActionConstraint::FreeChoice => true,
        }
    }

    /// Number of vacant cells over all mini boards.
    pub open spec fn vacant_cells(self) -> int {
        sum_to(vacant_in_board(self.boards), 9)
    }
}

impl Default for UltTTT {
    fn default() -> (r: UltTTT)
        ensures
            r@.constraint == NextActionConstraint::Init,
            r@.current == TicTacToeStatus::Vacant,
            r@.last == TicTacToeStatus::Vacant,
            r@.shape_ok(),
            forall|i: int, j: int|
                0 <= i < 9 && 0 <= j < 9 ==> #[trigger] r@.boards[i][j] == TicTacToeStatus::Vacant,
            forall|i: int| 0 <= i < 9 ==> #[trigger] r@.status[i] == TicTacToeStatus::Vacant,
    {
        UltTTT {
            map: MyMap3x3::init(TicTacToeGameData::new()),
            status_map: TicTacToeGameData::new(),
            next_action_constraint: NextActionConstraint::Init,
            current_player: TicTacToeStatus::Vacant,
            last_player: TicTacToeStatus::Vacant,
        }
    }
}

impl UltTTT {
    /// The empty game, `Me` to move first, restricted to the centre mini board.
    pub fn new() -> (r: UltTTT)
        ensures
            r@.wf(),
            r@.constraint == NextActionConstraint::Init,
            r@.current == TicTacToeStatus::Me,
            r@.last == TicTacToeStatus::Me,
            r@.shape_ok(),
            forall|i: int, j: int|
                0 <= i < 9 && 0 <= j < 9 ==> #[trigger] r@.boards[i][j] == TicTacToeStatus::Vacant,
            forall|i: int| 0 <= i < 9 ==> #[trigger] r@.status[i] == TicTacToeStatus::Vacant,
    {
        let r = UltTTT {
            map: MyMap3x3::init(TicTacToeGameData::new()),
            status_map: TicTacToeGameData::new(),
            next_action_constraint: NextActionConstraint::Init,
            current_player: TicTacToeStatus::Me,
            last_player: TicTacToeStatus::Me,
        };
        proof {
            assert forall|b: Seq<TicTacToeStatus>|
                (forall|j: int| 0 <= j < 9 ==> #[trigger] b[j] == TicTacToeStatus::Vacant)
                    && b.len() == 9 implies board_status(b) == TicTacToeStatus::Vacant by {
                lemma_status_of_empty(b, 0);
            }
        }
        r
    }

    pub fn set_current_player(&mut self, player: TicTacToeStatus)
        ensures
            final(self)@ == (UltTTTView { current: player, ..old(self)@ }),
    {
        self.current_player = player;
    }

    /// Hands the turn to the other player.
    pub fn next_player(&mut self)
        requires
            old(self)@.current.is_player_status(),
        ensures
            final(self)@ == (UltTTTView {
                current: old(self)@.current.spec_next(),
                last: old(self)@.current,
                ..old(self)@
            }),
    {
        self.last_player = self.current_player;
        self.current_player = self.current_player.next();
    }

    /// The value of the cell that `cell` addresses.
    pub fn get_cell_value(&self, cell: UltTTTMove) -> (r: TicTacToeStatus)
        ensures
            r == self@.cell_of_move(cell),
    {
        self.map.get_cell(cell.status_index).get_cell_value(cell.mini_board_index)
    }

    /// The status map: for each mini board, won, tied or open.
    pub fn get_status_map(&self) -> (r: TicTacToeGameData)
        ensures
            r@ == self@.status,
    {
        self.status_map
    }

    /// The mini board at `index`.
    pub fn get_mini_board(&self, index: CellIndex3x3) -> (r: TicTacToeGameData)
        ensures
            r@ == self@.boards[index.idx()],
    {
        *self.map.get_cell(index)
    }

    /// The vacant cells of mini board `status_index`, as moves, in cell order.
    pub(crate) fn board_moves(&self, status_index: CellIndex3x3) -> (r: Vec<UltTTTMove>)
        ensures
            forall|m: UltTTTMove|
                #[trigger] r@.contains(m) <==> (m.status_index == status_index
                    && self@.cell_of_move(m) == TicTacToeStatus::Vacant),
            sorted_by_key(r@),
            forall|i: int| 0 <= i < r@.len() ==> (#[trigger] r@[i]).status_index == status_index,
    {
        let board = self.map.get_cell(status_index);
        let mut r: Vec<UltTTTMove> = Vec::new();
        let mut j: usize = 0;
        while j < 9
            invariant
                0 <= j <= 9,
                *board == self.map@[status_index.idx()],
                forall|m: UltTTTMove|
                    #[trigger] r@.contains(m) <==> (m.status_index == status_index
                        && m.mini_board_index.idx() < j && self@.cell_of_move(m)
                        == TicTacToeStatus::Vacant),
                sorted_by_key(r@),
                forall|i: int|
                    0 <= i < r@.len() ==> (#[trigger] r@[i]).status_index == status_index
                        && r@[i].mini_board_index.idx() < j,
            decreases 9 - j,
        {
            let c = match CellIndex3x3::try_from_index(j) {
                Ok(c) => c,
                Err(_) => CellIndex3x3::TL,
            };
            let v = board.get_cell_value(c);
            let ghost old_r = r@;
            if let Some(m) = UltTTTMove::valid_move(status_index, c, &v) {
                r.push(m);
                proof {
                    assert forall|x: UltTTTMove| #[trigger] r@.contains(x) <==> (old_r.contains(x) || x == m) by {
                        if x == m {
                            assert(r@[old_r.len() as int] == m);
                        }
                        if r@.contains(x) {
                            let k = choose|k: int| 0 <= k < r@.len() && r@[k] == x;
                            if k < old_r.len() {
                                assert(old_r[k] == x);
                            }
                        }
                        if old_r.contains(x) {
                            let k = choose|k: int| 0 <= k < old_r.len() && old_r[k] == x;
                            assert(r@[k] == x);
                        }
                    }
                }
            }
            proof {
                assert forall|m: UltTTTMove|
                    #[trigger] r@.contains(m) <==> (m.status_index == status_index
                        && m.mini_board_index.idx() < j + 1 && self@.cell_of_move(m)
                        == TicTacToeStatus::Vacant) by {
                    if m.status_index == status_index && m.mini_board_index.idx() == j {
                        assert(m.mini_board_index == c);
                    }
                }
            }
            j = j + 1;
        }
        r
    }

    /// Where the next move may be played.
    pub fn get_next_action_constraint(&self) -> (r: NextActionConstraint)
        ensures
            r == self@.constraint,
    {
        self.next_action_constraint
    }
}


/// Game cache of the search that keeps nothing.
pub struct NoGameCache {}

impl NoGameCache {
    pub fn new() -> (r: NoGameCache)
        ensures
            r == (NoGameCache {}),
    {
        NoGameCache {}
    }

    /// Progress of a board: cells held by `Me`, cells held by `Opp`, cells no longer vacant.
    pub fn get_board_progress(&mut self, board: &TicTacToeGameData) -> (r: (usize, usize, usize))
        ensures
            r.0 == count_cells(board@, TicTacToeStatus::Me),
            r.1 == count_cells(board@, TicTacToeStatus::Opp),
            r.2 == count_non_vacant(board@),
    {
        let my_wins = board.count_me_cells();
        let opp_wins = board.count_opp_cells();
        let played_cells = board.count_non_vacant_cells();
        (my_wins, opp_wins, played_cells)
    }
}

/// The game rules of ultimate tic-tac-toe as used by the tree search.
pub struct UltTTTMCTSGame {}

/// The state after move `m` by the current player: the cell is taken, the mini board's entry
/// on the status map is set once the mini board is decided, the next move goes to the mini
/// board that matches `m`'s cell unless that one is decided, and the players swap.
pub open spec fn spec_apply_move(v: UltTTTView, m: UltTTTMove) -> UltTTTView {
    let b = v.boards[m.status_index.idx()].update(m.mini_board_index.idx(), v.current);
    let st = board_status(b);
    let status = if st != TicTacToeStatus::Vacant {
        v.status.update(m.status_index.idx(), st)
    } else {
        v.status
    };
    UltTTTView {
        boards: v.boards.update(m.status_index.idx(), b),
        status: status,
        constraint: if status[m.mini_board_index.idx()] == TicTacToeStatus::Vacant {
            NextActionConstraint::MiniBoard(m.mini_board_index)
        } else {
            NextActionConstraint::FreeChoice
        },
        current: v.current.spec_next(),
        last: v.current,
    }
}

/// Outcome of a game: the status map decides; a full status map without a line goes to the
/// player who won more mini boards, a tie if both won as many.
pub open spec fn game_outcome(v: UltTTTView) -> TicTacToeStatus {
    let st = board_status(v.status);
    if st == TicTacToeStatus::Tie {
        let me = count_cells(v.status, TicTacToeStatus::Me);
        let opp = count_cells(v.status, TicTacToeStatus::Opp);
        if me > opp {
            TicTacToeStatus::Me
        } else if me < opp {
            TicTacToeStatus::Opp
        } else {
            TicTacToeStatus::Tie
        }
    } else {
        st
    }
}

/// Score of a game in half points for `Me`; `None` while it runs.
pub open spec fn spec_evaluate(v: UltTTTView) -> Option<u8> {
    game_outcome(v).spec_evaluate()
}

/// The score of a game comes from its status map: `Me` holding a line of mini boards wins (2
/// half points) and `Opp` holding one wins for `Opp` (0); a full status map without a held
/// line goes to the player who won more mini boards (2 for `Me`, 0 for `Opp`), 1 for equally
/// many; with an open mini board and no held line the game runs (`None`).
pub proof fn lemma_evaluate_by_status_map(v: UltTTTView)
    requires
        v.status.len() == 9,
    ensures
        three_in_a_row(v.status, TicTacToeStatus::Me) && !three_in_a_row(v.status, TicTacToeStatus::Opp)
            ==> spec_evaluate(v) == Some(2u8),
        three_in_a_row(v.status, TicTacToeStatus::Opp) && !three_in_a_row(v.status, TicTacToeStatus::Me)
            ==> spec_evaluate(v) == Some(0u8),
        !three_in_a_row(v.status, TicTacToeStatus::Me) && !three_in_a_row(v.status, TicTacToeStatus::Opp)
            && (forall|i: int| 0 <= i < 9 ==> v.status[i] != TicTacToeStatus::Vacant) ==> {
            let me = count_cells(v.status, TicTacToeStatus::Me);
            let opp = count_cells(v.status, TicTacToeStatus::Opp);
            &&& me > opp ==> spec_evaluate(v) == Some(2u8)
            &&& me < opp ==> spec_evaluate(v) == Some(0u8)
            &&& me == opp ==> spec_evaluate(v) == Some(1u8)
        },
        !three_in_a_row(v.status, TicTacToeStatus::Me) && !three_in_a_row(v.status, TicTacToeStatus::Opp)
            && (exists|i: int| 0 <= i < 9 && v.status[i] == TicTacToeStatus::Vacant) ==> spec_evaluate(v)
            is None,
{
    lemma_board_status_by_lines(v.status);
}

/// After a move, the next move is restricted to the mini board that matches the cell just
/// taken exactly when that mini board is still open on the status map, whichever mini board
/// the move was played in; otherwise the choice is free. The status map only changes at the
/// mini board played in, and there only once that mini board is decided: a line completed by
/// the mover wins it for the mover. The players swap.
pub proof fn lemma_apply_move_constraint(v: UltTTTView, m: UltTTTMove)
    requires
        v.shape_ok(),
    ensures
        spec_apply_move(v, m).status[m.mini_board_index.idx()] == TicTacToeStatus::Vacant
            ==> spec_apply_move(v, m).constraint == NextActionConstraint::MiniBoard(m.mini_board_index),
        spec_apply_move(v, m).status[m.mini_board_index.idx()] != TicTacToeStatus::Vacant
            ==> spec_apply_move(v, m).constraint == NextActionConstraint::FreeChoice,
        forall|i: int|
            0 <= i < 9 && i != m.status_index.idx() ==> #[trigger] spec_apply_move(v, m).status[i]
                == v.status[i],
        v.status[m.status_index.idx()] == TicTacToeStatus::Vacant && board_status(
            spec_apply_move(v, m).boards[m.status_index.idx()],
        ) == TicTacToeStatus::Vacant ==> spec_apply_move(v, m).status[m.status_index.idx()]
            == TicTacToeStatus::Vacant,
        spec_apply_move(v, m).boards[m.status_index.idx()][m.mini_board_index.idx()] == v.current,
        m.mini_board_index != m.status_index && v.status[m.mini_board_index.idx()]
            == TicTacToeStatus::Vacant ==> spec_apply_move(v, m).constraint
            == NextActionConstraint::MiniBoard(m.mini_board_index),
        m.mini_board_index == m.status_index && v.status[m.status_index.idx()] == TicTacToeStatus::Vacant
            && board_status(v.boards[m.status_index.idx()].update(m.mini_board_index.idx(), v.current))
            == TicTacToeStatus::Vacant ==> spec_apply_move(v, m).constraint
            == NextActionConstraint::MiniBoard(m.mini_board_index),
        v.current == TicTacToeStatus::Me ==> spec_apply_move(v, m).current == TicTacToeStatus::Opp
            && spec_apply_move(v, m).last == TicTacToeStatus::Me,
        v.current == TicTacToeStatus::Opp ==> spec_apply_move(v, m).current == TicTacToeStatus::Me
            && spec_apply_move(v, m).last == TicTacToeStatus::Opp,
        v.current.is_player_status() && three_in_a_row(spec_apply_move(v, m).boards[m.status_index.idx()], v.current)
            && !three_in_a_row(spec_apply_move(v, m).boards[m.status_index.idx()], v.current.spec_next())
            ==> spec_apply_move(v, m).status[m.status_index.idx()] == v.current,
{
    lemma_board_status_by_lines(spec_apply_move(v, m).boards[m.status_index.idx()]);
}

impl UltTTTMCTSGame {
    /// Plays `mv` for the current player, see [`spec_apply_move`].
    pub fn apply_move(state: &UltTTT, mv: &UltTTTMove, _game_cache: &mut NoGameCache) -> (r: UltTTT)
        requires
            state@.current.is_player_status(),
        ensures
            r@ == spec_apply_move(state@, *mv),
    {
        let mut new_state = *state;
        new_state.map.get_cell_mut(mv.status_index).set_cell_value(
            mv.mini_board_index,
            state.current_player,
        );
        let status = new_state.map.get_cell(mv.status_index).get_status();
        if !status.is_vacant() {
            new_state.status_map.set_cell_value(mv.status_index, status);
        }
        new_state.next_action_constraint =
            if new_state.status_map.get_cell_value(mv.mini_board_index).is_vacant() {
            NextActionConstraint::MiniBoard(mv.mini_board_index)
        } else {
            NextActionConstraint::FreeChoice
        };
        new_state.next_player();
        proof {
            let ghost e = spec_apply_move(state@, *mv);
            assert(new_state@.boards =~= e.boards);
            assert(new_state@.status =~= e.status);
        }
        new_state
    }

    /// Score of the game in half points for `Me` (2 win, 1 tie, 0 loss); `None` while it runs.
    pub fn evaluate(state: &UltTTT, _game_cache: &mut NoGameCache) -> (r: Option<u8>)
        ensures
            r == spec_evaluate(state@),
    {
        let mut status = state.status_map.get_status();
        if status == TicTacToeStatus::Tie {
            let my_squares = state.status_map.count_me_cells();
            let opp_squares = state.status_map.count_opp_cells();
            status = if my_squares > opp_squares {
                TicTacToeStatus::Me
            } else if my_squares < opp_squares {
                TicTacToeStatus::Opp
            } else {
                TicTacToeStatus::Tie
            };
        }
        status.evaluate()
    }

    pub fn current_player(state: &UltTTT) -> (r: TicTacToeStatus)
        ensures
            r == state@.current,
    {
        state.current_player
    }

    pub fn last_player(state: &UltTTT) -> (r: TicTacToeStatus)
        ensures
            r == state@.last,
    {
        state.last_player
    }

    /// The player from whose perspective scores are given.
    pub fn perspective_player() -> (r: TicTacToeStatus)
        ensures
            r == TicTacToeStatus::Me,
    {
        TicTacToeStatus::Me
    }

    /// The moves that may be played now, ordered by mini board, then cell.
    pub fn available_moves(state: &UltTTT) -> (r: Vec<UltTTTMove>)
        ensures
            forall|m: UltTTTMove| #[trigger] r@.contains(m) <==> state@.move_allowed(m),
            sorted_by_key(r@),
    {
        match state.next_action_constraint {
            NextActionConstraint::Init => state.board_moves(CellIndex3x3::MM),
            NextActionConstraint::MiniBoard(constraint) => state.board_moves(constraint),
            NextActionConstraint::FreeChoice => {
                let status_cells = state.status_map.iter_map();
                let mut r: Vec<UltTTTMove> = Vec::new();
                let mut i: usize = 0;
                while i < 9
                    invariant
                        0 <= i <= 9,
                        state@.constraint == NextActionConstraint::FreeChoice,
                        status_cells@.len() == 9,
                        forall|k: int|
                            0 <= k < 9 ==> #[trigger] status_cells@[k] == (
                                cell_of_index(k),
                                state@.status[k],
                            ),
                        forall|m: UltTTTMove|
                            #[trigger] r@.contains(m) <==> (m.status_index.idx() < i
                                && state@.move_allowed(m)),
                        sorted_by_key(r@),
                        forall|k: int| 0 <= k < r@.len() ==> (#[trigger] r@[k]).key() < i * 9,
                    decreases 9 - i,
                {
                    let (status_cell, c) = status_cells[i];
                    if c.is_vacant() {
                        let mut more = state.board_moves(status_cell);
                        let ghost old_r = r@;
                        let ghost more_v = more@;
                        proof {
                            assert forall|k: int| 0 <= k < more_v.len() implies (#[trigger] more_v[k]).key() >= i * 9 && more_v[k].key() < i * 9 + 9 by {
                                assert(more_v[k].status_index == status_cell);
                                assert(status_cell.idx() == i);
                            }
                        }
                        r.append(&mut more);
                        proof {
                            assert(r@ == old_r + more_v);
                            assert forall|m: UltTTTMove| #[trigger] r@.contains(m) <==> (old_r.contains(m) || more_v.contains(m)) by {
                                if r@.contains(m) {
                                    let k = choose|k: int| 0 <= k < r@.len() && r@[k] == m;
                                    if k < old_r.len() {
                                        assert(old_r[k] == m);
                                    } else {
                                        assert(more_v[k - old_r.len()] == m);
                                    }
                                }
                                if old_r.contains(m) {
                                    let k = choose|k: int| 0 <= k < old_r.len() && old_r[k] == m;
                                    assert(r@[k] == m);
                                }
                                if more_v.contains(m) {
                                    let k = choose|k: int| 0 <= k < more_v.len() && more_v[k] == m;
                                    assert(r@[k + old_r.len()] == m);
                                }
                            }
                            assert forall|a: int, b: int| 0 <= a < b < r@.len() implies (#[trigger] r@[a]).key() < (#[trigger] r@[b]).key() by {
                                if b < old_r.len() {
                                    assert(r@[a] == old_r[a] && r@[b] == old_r[b]);
                                } else if a >= old_r.len() {
                                    assert(r@[a] == more_v[a - old_r.len()] && r@[b] == more_v[b - old_r.len()]);
                                } else {
                                    assert(r@[a] == old_r[a] && r@[b] == more_v[b - old_r.len()]);
                                }
                            }
                            assert forall|k: int| 0 <= k < r@.len() implies (#[trigger] r@[k]).key() < (i + 1) * 9 by {
                                if k < old_r.len() {
                                    assert(r@[k] == old_r[k]);
                                } else {
                                    assert(r@[k] == more_v[k - old_r.len()]);
                                }
                            }
                        }
                    }
                    proof {
                        assert forall|m: UltTTTMove|
                            #[trigger] r@.contains(m) <==> (m.status_index.idx() < i + 1
                                && state@.move_allowed(m)) by {
                            if m.status_index.idx() == i {
                                assert(m.status_index == status_cell);
                            }
                            if r@.contains(m) && m.status_index.idx() >= i {
                                let k = choose|k: int| 0 <= k < r@.len() && r@[k] == m;
                                assert(r@[k].key() < (i + 1) * 9);
                            }
                        }
                    }
                    i = i + 1;
                }
                r
            },
        }
    }
}


/// An empty board has no winner and is not full.
proof fn lemma_status_of_empty(b: Seq<TicTacToeStatus>, k: int)
    requires
        b.len() == 9,
        0 <= k <= 8,
        forall|j: int| 0 <= j < 9 ==> #[trigger] b[j] == TicTacToeStatus::Vacant,
    ensures
        status_from(b, k) == TicTacToeStatus::Vacant,
    decreases 8 - k,
{
    if k < 8 {
        lemma_status_of_empty(b, k + 1);
    } else {
        assert(b[0] == TicTacToeStatus::Vacant);
    }
}

/// A board whose status is still open has a vacant cell.
pub proof fn lemma_open_board_has_vacant_cell(b: Seq<TicTacToeStatus>, k: int)
    requires
        b.len() == 9,
        0 <= k <= 8,
        status_from(b, k) == TicTacToeStatus::Vacant,
    ensures
        exists|j: int| 0 <= j < 9 && b[j] == TicTacToeStatus::Vacant,
    decreases 8 - k,
{
    if k < 8 {
        lemma_open_board_has_vacant_cell(b, k + 1);
    } else {
        assert(!all_filled(b));
    }
}

/// Raising one term of a sum by one raises the sum by one.
pub proof fn lemma_sum_to_bump(f: spec_fn(int) -> int, g: spec_fn(int) -> int, n: int, j: int)
    requires
        0 <= j < n,
        g(j) == f(j) + 1,
        forall|i: int| 0 <= i < n && i != j ==> #[trigger] g(i) == f(i),
    ensures
        sum_to(g, n) == sum_to(f, n) + 1,
    decreases n,
{
    if n - 1 > j {
        lemma_sum_to_bump(f, g, n - 1, j);
    } else {
        lemma_sum_to_equal(f, g, n - 1);
    }
}

/// Sums of terms that agree agree.
pub proof fn lemma_sum_to_equal(f: spec_fn(int) -> int, g: spec_fn(int) -> int, n: int)
    requires
        forall|i: int| 0 <= i < n ==> #[trigger] g(i) == f(i),
    ensures
        sum_to(g, n) == sum_to(f, n),
    decreases n,
{
    if n > 0 {
        lemma_sum_to_equal(f, g, n - 1);
    }
}

/// Every reachable state stays reachable: playing an allowed move keeps the status map in step
/// with the mini boards, keeps the players valid and only constrains to an open mini board.
pub proof fn lemma_apply_move_keeps_wf(v: UltTTTView, m: UltTTTMove)
    requires
        v.wf(),
        v.move_allowed(m),
    ensures
        spec_apply_move(v, m).wf(),
{
    let w = spec_apply_move(v, m);
    let s = m.status_index.idx();
    assert(v.status[s] == TicTacToeStatus::Vacant);
    assert forall|i: int| 0 <= i < 9 implies w.status[i] == board_status(#[trigger] w.boards[i]) by {
        if i != s {
            assert(w.boards[i] == v.boards[i]);
        }
    }
    assert forall|i: int| 0 <= i < 9 implies (#[trigger] w.boards[i]).len() == 9 by {
        if i != s {
            assert(w.boards[i] == v.boards[i]);
        }
    }
    assert forall|i: int, j: int| 0 <= i < 9 && 0 <= j < 9 implies #[trigger] w.boards[i][j]
        != TicTacToeStatus::Tie by {
        if i != s {
            assert(w.boards[i] == v.boards[i]);
        }
    }
}

/// A game that has no result yet always offers a move.
pub proof fn lemma_running_game_has_move(v: UltTTTView)
    requires
        v.wf(),
        spec_evaluate(v) is None,
    ensures
        exists|m: UltTTTMove| v.move_allowed(m),
{
    assert(board_status(v.status) == TicTacToeStatus::Vacant);
    let s: int = match v.constraint {
        NextActionConstraint::Init => 4,
        NextActionConstraint::MiniBoard(c) => c.idx(),
        NextActionConstraint::FreeChoice => {
            lemma_open_board_has_vacant_cell(v.status, 0);
            choose|i: int| 0 <= i < 9 && v.status[i] == TicTacToeStatus::Vacant
        },
    };
    assert(v.status[s] == TicTacToeStatus::Vacant);
    assert(board_status(v.boards[s]) == TicTacToeStatus::Vacant);
    lemma_open_board_has_vacant_cell(v.boards[s], 0);
    let j = choose|j: int| 0 <= j < 9 && v.boards[s][j] == TicTacToeStatus::Vacant;
    let m = UltTTTMove { status_index: cell_of_index(s), mini_board_index: cell_of_index(j) };
    assert(cell_of_index(s).idx() == s);
    assert(cell_of_index(j).idx() == j);
    assert(v.move_allowed(m));
}

/// The count of vacant cells is between 0 and 81.
pub proof fn lemma_vacant_cells_bounds(v: UltTTTView)
    requires
        v.shape_ok(),
    ensures
        0 <= v.vacant_cells() <= 81,
{
    assert forall|i: int| 0 <= i < 9 implies 0 <= #[trigger] vacant_in_board(v.boards)(i) <= 9 by {
        crate::tic_tac_toe::lemma_sum_to_bounds(
            |k: int| if v.boards[i][k] != TicTacToeStatus::Vacant { 1int } else { 0int },
            9,
            1,
        );
    }
    crate::tic_tac_toe::lemma_sum_to_bounds(vacant_in_board(v.boards), 9, 9);
}

/// Every move fills one vacant cell, so a game ends after at most 81 moves.
pub proof fn lemma_apply_move_fills_a_cell(v: UltTTTView, m: UltTTTMove)
    requires
        v.wf(),
        v.move_allowed(m),
    ensures
        spec_apply_move(v, m).vacant_cells() == v.vacant_cells() - 1,
        0 <= spec_apply_move(v, m).vacant_cells(),
{
    let w = spec_apply_move(v, m);
    let s = m.status_index.idx();
    let j = m.mini_board_index.idx();
    let b = v.boards[s];
    let nb = w.boards[s];
    lemma_sum_to_bump(
        |i: int| if b[i] != TicTacToeStatus::Vacant { 1int } else { 0int },
        |i: int| if nb[i] != TicTacToeStatus::Vacant { 1int } else { 0int },
        9,
        j,
    );
    assert forall|i: int| 0 <= i < 9 && i != s implies #[trigger] vacant_in_board(v.boards)(i)
        == vacant_in_board(w.boards)(i) by {
        assert(w.boards[i] == v.boards[i]);
    }
    lemma_sum_to_bump(vacant_in_board(w.boards), vacant_in_board(v.boards), 9, s);
    assert forall|i: int| 0 <= i < 9 implies 0 <= #[trigger] vacant_in_board(w.boards)(i) <= 9 by {
        crate::tic_tac_toe::lemma_sum_to_bounds(
            |k: int| if w.boards[i][k] != TicTacToeStatus::Vacant { 1int } else { 0int },
            9,
            1,
        );
    }
    crate::tic_tac_toe::lemma_sum_to_bounds(vacant_in_board(w.boards), 9, 9);
}


/// Decided mini boards are final: a move never touches a mini board that is won or tied,
/// and never changes its entry on the status map.
pub proof fn lemma_decided_boards_are_final(v: UltTTTView, m: UltTTTMove, i: int)
    requires
        v.wf(),
        v.move_allowed(m),
        0 <= i < 9,
        v.status[i] != TicTacToeStatus::Vacant,
    ensures
        spec_apply_move(v, m).status[i] == v.status[i],
        spec_apply_move(v, m).boards[i] == v.boards[i],
{
    assert(v.status[m.status_index.idx()] == TicTacToeStatus::Vacant);
}

/// Game coordinates and moves are two names for the same thing: converting a move to
/// coordinates and back gives the move, and coordinates in range survive the trip too.
pub proof fn lemma_move_coords_round_trip(m: UltTTTMove, x: int, y: int)
    requires
        0 <= x < 9,
        0 <= y < 9,
    ensures
        ({
            let cx = m.status_index.row() * 3 + m.mini_board_index.row();
            let cy = m.status_index.col() * 3 + m.mini_board_index.col();
            &&& 0 <= cx < 9 && 0 <= cy < 9
            &&& cell_of_index((cx / 3) * 3 + cy / 3) == m.status_index
            &&& cell_of_index((cx % 3) * 3 + cy % 3) == m.mini_board_index
        }),
        ({
            let s = cell_of_index((x / 3) * 3 + y / 3);
            let b = cell_of_index((x % 3) * 3 + y % 3);
            s.row() * 3 + b.row() == x && s.col() * 3 + b.col() == y
        }),
{
    lemma_split3(x);
    lemma_split3(y);
    let s = (x / 3) * 3 + y / 3;
    let b = (x % 3) * 3 + y % 3;
    lemma_join3(x / 3, y / 3);
    lemma_join3(x % 3, y % 3);
    assert(cell_of_index(s).idx() == s);
    assert(cell_of_index(b).idx() == b);
    let sr = m.status_index.row();
    let sc = m.status_index.col();
    let br = m.mini_board_index.row();
    let bc = m.mini_board_index.col();
    lemma_split3(m.status_index.idx());
    lemma_split3(m.mini_board_index.idx());
    lemma_join3(sr, br);
    lemma_join3(sc, bc);
    assert(cell_of_index(m.status_index.idx()) == m.status_index);
    assert(cell_of_index(m.mini_board_index.idx()) == m.mini_board_index);
}

proof fn lemma_split3(x: int)
    requires
        0 <= x < 9,
    ensures
        0 <= x / 3 < 3,
        0 <= x % 3 < 3,
        x == (x / 3) * 3 + x % 3,
{
}

proof fn lemma_join3(a: int, b: int)
    requires
        0 <= a < 3,
        0 <= b < 3,
    ensures
        (a * 3 + b) / 3 == a,
        (a * 3 + b) % 3 == b,
        0 <= a * 3 + b < 9,
{
}

} // verus!
