use vstd::prelude::*;

use super::map_point::MapPoint;
use super::map_two_dim::MyMap2D;
use crate::tic_tac_toe::sum_to;
use super::tic_tac_toe::{
    board_heuristic, lemma_board_shape, player_cells, BoardView, MonteCarloPlayer, TicTacToeGameData, TicTacToeStatus,
};

verus! {

broadcast use MyMap2D::lemma_shape, lemma_board_shape, MapPoint::lemma_spec_new;

/// A move: the mini board (`ult_ttt_big`) and the cell in it (`ult_ttt_small`).
#[derive(Copy, Clone, PartialEq, Eq, Debug)]
pub struct UltTTTPlayerAction {
    pub ult_ttt_big: MapPoint<3, 3>,
    pub ult_ttt_small: MapPoint<3, 3>,
}

impl Default for UltTTTPlayerAction {
    fn default() -> (r: UltTTTPlayerAction)
        ensures
            r.ult_ttt_big.spec_x() == 0 && r.ult_ttt_big.spec_y() == 0,
            r.ult_ttt_small.spec_x() == 0 && r.ult_ttt_small.spec_y() == 0,
    {
        UltTTTPlayerAction { ult_ttt_big: MapPoint::default(), ult_ttt_small: MapPoint::default() }
    }
}

impl UltTTTPlayerAction {
    /// Both points lie on their 3x3 maps.
    pub open spec fn wf(self) -> bool {
        self.ult_ttt_big.wf() && self.ult_ttt_small.wf()
    }

    /// Position of the move in row-major order of mini boards, then cells.
    pub open spec fn key(self) -> int {
        self.ult_ttt_big.pos() * 9 + self.ult_ttt_small.pos()
    }

    /// The move at a point of the 9x9 game map: mini board `(x / 3, y / 3)`, cell `(x % 3, y % 3)`.
    pub open spec fn spec_from_ext(p: MapPoint<9, 9>) -> UltTTTPlayerAction {
        UltTTTPlayerAction {
            ult_ttt_big: MapPoint::<3, 3>::spec_new(p.spec_x() / 3, p.spec_y() / 3),
            ult_ttt_small: MapPoint::<3, 3>::spec_new(p.spec_x() % 3, p.spec_y() % 3),
        }
    }

    /// The move at a point of the 9x9 game map.
    pub fn from_ext(extern_coordinates: MapPoint<9, 9>) -> (a: UltTTTPlayerAction)
        requires
            extern_coordinates.wf(),
        ensures
            a.wf(),
            a == Self::spec_from_ext(extern_coordinates),
            a.ult_ttt_big.spec_x() == extern_coordinates.spec_x() / 3,
            a.ult_ttt_big.spec_y() == extern_coordinates.spec_y() / 3,
            a.ult_ttt_small.spec_x() == extern_coordinates.spec_x() % 3,
            a.ult_ttt_small.spec_y() == extern_coordinates.spec_y() % 3,
    {
        UltTTTPlayerAction {
            ult_ttt_big: MapPoint::<3, 3>::new(extern_coordinates.x() / 3, extern_coordinates.y() / 3),
            ult_ttt_small: MapPoint::<3, 3>::new(extern_coordinates.x() % 3, extern_coordinates.y() % 3),
        }
    }

    /// The point of the 9x9 game map of the move.
    pub fn to_ext(self) -> (p: MapPoint<9, 9>)
        requires
            self.wf(),
        ensures
            p.wf(),
            p.spec_x() == self.ult_ttt_big.spec_x() * 3 + self.ult_ttt_small.spec_x(),
            p.spec_y() == self.ult_ttt_big.spec_y() * 3 + self.ult_ttt_small.spec_y(),
    {
        MapPoint::<9, 9>::new(
            self.ult_ttt_big.x() * 3 + self.ult_ttt_small.x(),
            self.ult_ttt_big.y() * 3 + self.ult_ttt_small.y(),
        )
    }
}

/// Game map points and moves are two names for the same thing.
pub proof fn lemma_ext_round_trip(p: MapPoint<9, 9>, a: UltTTTPlayerAction)
    requires
        p.wf(),
        a.wf(),
    ensures
        (p.spec_x() / 3) * 3 + p.spec_x() % 3 == p.spec_x(),
        (p.spec_y() / 3) * 3 + p.spec_y() % 3 == p.spec_y(),
        (a.ult_ttt_big.spec_x() * 3 + a.ult_ttt_small.spec_x()) / 3 == a.ult_ttt_big.spec_x(),
        (a.ult_ttt_big.spec_x() * 3 + a.ult_ttt_small.spec_x()) % 3 == a.ult_ttt_small.spec_x(),
        (a.ult_ttt_big.spec_y() * 3 + a.ult_ttt_small.spec_y()) / 3 == a.ult_ttt_big.spec_y(),
        (a.ult_ttt_big.spec_y() * 3 + a.ult_ttt_small.spec_y()) % 3 == a.ult_ttt_small.spec_y(),
{
}

/// Update of the game data by chance; this game has none.
#[derive(Copy, Clone, PartialEq, Eq, Debug)]
pub struct UltTTTGameDataUpdate {}

/// Abstract state of a game.
pub struct LegacyGameView {
    /// Mini boards by row, then column of the status map.
    pub boards: Seq<Seq<BoardView>>,
    pub status_map: BoardView,
    pub status: TicTacToeStatus,
    /// The mini board the next move must go to, if any.
    pub next: Option<MapPoint<3, 3>>,
}

impl LegacyGameView {
    /// The mini board at point `p` of the status map.
    pub open spec fn board_at(self, p: MapPoint<3, 3>) -> BoardView {
        self.boards[p.spec_y() as int][p.spec_x() as int]
    }

    /// The mini board at row-major position `q` of the status map.
    pub open spec fn board_pos(self, q: int) -> BoardView {
        self.boards[q / 3][q % 3]
    }

    /// Three rows of three mini boards, each of three rows of three cells, and a status map of
    /// the same shape.
    pub open spec fn shape_ok(self) -> bool {
        &&& self.boards.len() == 3
        &&& forall|y: int| 0 <= y < 3 ==> (#[trigger] self.boards[y]).len() == 3
        &&& forall|x: int, y: int| 0 <= x < 3 && 0 <= y < 3 ==> (#[trigger] self.boards[y][x]).shape_ok()
        &&& self.status_map.shape_ok()
    }

    /// Whether the cell at position `p` (mini board `p / 9`, cell `p % 9`) may be taken when the
    /// move is free: its mini board is open and the cell vacant.
    pub open spec fn free_cell(self, p: int) -> bool {
        &&& self.status_map.at((p / 9) % 3, (p / 9) / 3) == TicTacToeStatus::Vacant
        &&& self.board_pos(p / 9).at((p % 9) % 3, (p % 9) / 3) == TicTacToeStatus::Vacant
    }
}

/// Result of a move for the game: a won mini board is filled with its winner and recorded on
/// the status map, a tied one recorded as a tie; a finished status map without a line goes to
/// the player with more mini boards.
pub open spec fn spec_execute(v: LegacyGameView, a: UltTTTPlayerAction, player: MonteCarloPlayer) -> LegacyGameView {
    let bx = a.ult_ttt_big.spec_x() as int;
    let by = a.ult_ttt_big.spec_y() as int;
    let sx = a.ult_ttt_small.spec_x() as int;
    let sy = a.ult_ttt_small.spec_y() as int;
    let played = v.boards[by][bx].after_set(sx, sy, TicTacToeStatus::Player(player));
    let nb = if played.status is Player {
        played.filled_with_status()
    } else {
        played
    };
    let boards = v.boards.update(by, v.boards[by].update(bx, nb));
    let status_map = match nb.status {
        TicTacToeStatus::Vacant => v.status_map,
        TicTacToeStatus::Player(w) => v.status_map.after_set(bx, by, TicTacToeStatus::Player(w)),
        TicTacToeStatus::Tie => v.status_map.after_set(bx, by, TicTacToeStatus::Tie),
    };
    let status = match nb.status {
        TicTacToeStatus::Vacant => v.status,
        _ => status_map.status,
    };
    if status == TicTacToeStatus::Tie {
        let me = player_cells(status_map, MonteCarloPlayer::Me);
        let opp = player_cells(status_map, MonteCarloPlayer::Opp);
        LegacyGameView {
            boards: boards,
            status_map: status_map,
            status: if me > opp {
                TicTacToeStatus::Player(MonteCarloPlayer::Me)
            } else if me < opp {
                TicTacToeStatus::Player(MonteCarloPlayer::Opp)
            } else {
                TicTacToeStatus::Tie
            },
            next: v.next,
        }
    } else {
        LegacyGameView {
            boards: boards,
            status_map: status_map,
            status: status,
            next: if status_map.at(sx, sy) == TicTacToeStatus::Vacant {
                Some(a.ult_ttt_small)
            } else {
                None
            },
        }
    }
}

/// State of a game.
#[derive(Copy, Clone, PartialEq, Eq, Debug)]
pub struct UltTTT {
    map: MyMap2D<TicTacToeGameData, 3, 3>,
    pub status_map: TicTacToeGameData,
    pub status: TicTacToeStatus,
    next_action_square_is_specified: Option<MapPoint<3, 3>>,
}

impl View for UltTTT {
    type V = LegacyGameView;

    closed spec fn view(&self) -> LegacyGameView {
        LegacyGameView {
            boards: Seq::new(3, |y: int| Seq::new(3, |x: int| self.map@[y][x]@)),
            status_map: self.status_map@,
            status: self.status,
            next: self.next_action_square_is_specified,
        }
    }
}

impl UltTTT {
    /// Every game has the shape of [`LegacyGameView::shape_ok`].
    pub broadcast proof fn lemma_view_shape(self)
        ensures
            #[trigger] self@.shape_ok(),
    {
        assert forall|x: int, y: int| 0 <= x < 3 && 0 <= y < 3 implies (#[trigger] self@.boards[y][x]).shape_ok() by {
            assert(self@.boards[y][x] == self.map@[y][x]@);
        }
    }

    /// The empty game.
    pub fn new() -> (r: UltTTT)
        ensures
            r@.status == TicTacToeStatus::Vacant,
            r@.next is None,
            r@.status_map.status == TicTacToeStatus::Vacant,
            forall|bx: int, by: int|
                0 <= bx < 3 && 0 <= by < 3 ==> #[trigger] r@.boards[by][bx].status == TicTacToeStatus::Vacant,
            forall|x: int, y: int|
                0 <= x < 3 && 0 <= y < 3 ==> #[trigger] r@.status_map.at(x, y) == TicTacToeStatus::Vacant,
            forall|bx: int, by: int, x: int, y: int|
                0 <= bx < 3 && 0 <= by < 3 && 0 <= x < 3 && 0 <= y < 3 ==> #[trigger] r@.boards[by][bx].at(
                    x,
                    y,
                ) == TicTacToeStatus::Vacant,
    {
        let r = UltTTT {
            map: MyMap2D::new(),
            status_map: TicTacToeGameData::new(),
            status: TicTacToeStatus::Vacant,
            next_action_square_is_specified: None,
        };
        proof {
            assert forall|bx: int, by: int, x: int, y: int|
                0 <= bx < 3 && 0 <= by < 3 && 0 <= x < 3 && 0 <= y < 3 implies #[trigger] r@.boards[by][bx].at(
                x,
                y,
            ) == TicTacToeStatus::Vacant by {
                assert(r.map.cell(bx, by) == r.map.cell(0, 0));
            }
            assert forall|bx: int, by: int| 0 <= bx < 3 && 0 <= by < 3 implies #[trigger] r@.boards[by][bx].status
                == TicTacToeStatus::Vacant by {
                assert(r.map.cell(bx, by) == r.map.cell(0, 0));
            }
        }
        r
    }

    /// Plays `player_action` for `player`, see [`spec_execute`]; returns the game status.
    pub fn execute_player_action(&mut self, player_action: UltTTTPlayerAction, player: MonteCarloPlayer) -> (r: TicTacToeStatus)
        requires
            player_action.wf(),
        ensures
            final(self)@ == spec_execute(old(self)@, player_action, player),
            r == final(self)@.status,
    {
        let ghost v = self@;
        let cell_status = self.map.get_mut(player_action.ult_ttt_big).set_player(
            player_action.ult_ttt_small,
            player,
        );
        proof {
            let bx = player_action.ult_ttt_big.spec_x() as int;
            let by = player_action.ult_ttt_big.spec_y() as int;
            let nb = v.boards[by][bx].after_set(
                player_action.ult_ttt_small.spec_x() as int,
                player_action.ult_ttt_small.spec_y() as int,
                TicTacToeStatus::Player(player),
            );
            assert(cell_status == nb.status);
            assert(self@.boards =~~= v.boards.update(by, v.boards[by].update(bx, nb))) by {
                assert forall|y: int, x: int| 0 <= y < 3 && 0 <= x < 3 implies #[trigger] self@.boards[y][x]
                    == v.boards.update(by, v.boards[by].update(bx, nb))[y][x] by {
                    if !(x == bx && y == by) {
                        assert(self.map.cell(x, y) == old(self).map.cell(x, y));
                    }
                }
            }
        }
        self.status = match cell_status {
            TicTacToeStatus::Vacant => self.status,
            TicTacToeStatus::Player(winner) => {
                let ghost before = self@;
                let ghost before_map = self.map;
                self.map.get_mut(player_action.ult_ttt_big).set_all_to_status();
                proof {
                    let bx = player_action.ult_ttt_big.spec_x() as int;
                    let by = player_action.ult_ttt_big.spec_y() as int;
                    let filled = before.boards[by][bx].filled_with_status();
                    assert(self@.boards =~~= before.boards.update(
                        by,
                        before.boards[by].update(bx, filled),
                    )) by {
                        assert forall|y: int, x: int| 0 <= y < 3 && 0 <= x < 3 implies #[trigger] self@.boards[y][x]
                            == before.boards.update(by, before.boards[by].update(bx, filled))[y][x] by {
                            if !(x == bx && y == by) {
                                assert(self.map.cell(x, y) == before_map.cell(x, y));
                            }
                        }
                    }
                    assert(before.boards[by][bx] == v.boards[by][bx].after_set(
                        player_action.ult_ttt_small.spec_x() as int,
                        player_action.ult_ttt_small.spec_y() as int,
                        TicTacToeStatus::Player(player),
                    ));
                    assert(self@.boards =~~= v.boards.update(by, v.boards[by].update(bx, filled)));
                }
                self.status_map.set_player(player_action.ult_ttt_big, winner)
            },
            TicTacToeStatus::Tie => self.status_map.set_tie(player_action.ult_ttt_big),
        };
        if self.status == TicTacToeStatus::Tie {
            let my_squares = self.status_map.count_player_cells(MonteCarloPlayer::Me);
            let opp_squares = self.status_map.count_player_cells(MonteCarloPlayer::Opp);
            self.status = if my_squares > opp_squares {
                TicTacToeStatus::Player(MonteCarloPlayer::Me)
            } else if my_squares < opp_squares {
                TicTacToeStatus::Player(MonteCarloPlayer::Opp)
            } else {
                TicTacToeStatus::Tie
            };
        } else {
            self.next_action_square_is_specified =
                if self.status_map.get_cell_value(player_action.ult_ttt_small).is_vacant() {
                Some(player_action.ult_ttt_small)
            } else {
                None
            };
        }
        self.status
    }

    /// Plays the opponent's move given as a point of the 9x9 game map.
    pub fn set_last_opp_action(&mut self, opp_map_point: MapPoint<9, 9>) -> (r: TicTacToeStatus)
        requires
            opp_map_point.wf(),
        ensures
            final(self)@ == spec_execute(
                old(self)@,
                UltTTTPlayerAction::spec_from_ext(opp_map_point),
                MonteCarloPlayer::Opp,
            ),
            r == final(self)@.status,
    {
        let opp_action = UltTTTPlayerAction::from_ext(opp_map_point);
        self.execute_player_action(opp_action, MonteCarloPlayer::Opp)
    }

    /// Plays `player_action` for `Me`; whether the game ended or the mini board was won.
    pub fn apply_my_action(&mut self, player_action: &UltTTTPlayerAction) -> (r: bool)
        requires
            player_action.wf(),
        ensures
            final(self)@ == spec_execute(old(self)@, *player_action, MonteCarloPlayer::Me),
            r == (final(self)@.status != TicTacToeStatus::Vacant || final(self)@.status_map.at(
                player_action.ult_ttt_big.spec_x() as int,
                player_action.ult_ttt_big.spec_y() as int,
            ) is Player),
    {
        let my_action = *player_action;
        self.execute_player_action(my_action, MonteCarloPlayer::Me).is_not_vacant()
            || self.status_map.get_cell_value(my_action.ult_ttt_big).is_player()
    }

    /// Plays `player_action` for `Opp`; whether the game ended or the mini board was won.
    pub fn apply_opp_action(&mut self, player_action: &UltTTTPlayerAction) -> (r: bool)
        requires
            player_action.wf(),
        ensures
            final(self)@ == spec_execute(old(self)@, *player_action, MonteCarloPlayer::Opp),
            r == (final(self)@.status != TicTacToeStatus::Vacant || final(self)@.status_map.at(
                player_action.ult_ttt_big.spec_x() as int,
                player_action.ult_ttt_big.spec_y() as int,
            ) is Player),
    {
        let opp_action = *player_action;
        self.execute_player_action(opp_action, MonteCarloPlayer::Opp).is_not_vacant()
            || self.status_map.get_cell_value(opp_action.ult_ttt_big).is_player()
    }

    /// Heuristic of the game for `Me`: ten times the line heuristic of the status map plus one
    /// per mini board won by `Me`, minus one per mini board won by `Opp`.
    pub fn calc_heuristic(&self) -> (h: i32)
        ensures
            h == board_heuristic(self@.status_map) * 10 + sum_to(won_balance(self@.status_map), 9),
    {
        let cells = self.status_map.iter_map();
        let mut balance: i32 = 0;
        let mut k: usize = 0;
        while k < 9
            invariant
                0 <= k <= 9,
                -(k as int) <= balance <= k,
                cells@.len() == 9,
                forall|x: int, y: int|
                    0 <= x < 3 && 0 <= y < 3 ==> (#[trigger] cells@[y * 3 + x]).1 == self@.status_map.at(x, y),
                balance == sum_to(won_balance(self@.status_map), k as int),
            decreases 9 - k,
        {
            let ghost x = (k % 3) as int;
            let ghost y = (k / 3) as int;
            assert(k == y * 3 + x);
            match cells[k].1 {
                TicTacToeStatus::Player(player) => match player {
                    MonteCarloPlayer::Me => {
                        balance = balance + 1;
                    },
                    MonteCarloPlayer::Opp => {
                        balance = balance - 1;
                    },
                },
                _ => {},
            }
            k = k + 1;
        }
        let h = self.status_map.calc_heuristic_();
        proof {
            crate::legacy::tic_tac_toe::lemma_board_heuristic_bounds(self@.status_map);
        }
        h * 10 + balance
    }

    /// Whether the game has ended.
    pub fn check_game_ending(&self, _game_turn: usize) -> (r: bool)
        ensures
            r == (self@.status != TicTacToeStatus::Vacant),
    {
        self.status.is_not_vacant()
    }

    /// The winner of the game, `None` while it runs or after a tie.
    pub fn game_winner(&self, _game_turn: usize) -> (r: Option<MonteCarloPlayer>)
        ensures
            self@.status matches TicTacToeStatus::Player(p) ==> r == Some(p),
            !(self@.status is Player) ==> r is None,
    {
        match self.status {
            TicTacToeStatus::Player(player) => Some(player),
            _ => None,
        }
    }

    /// The mini board at `big`.
    pub fn get_mini_board(&self, big: MapPoint<3, 3>) -> (r: TicTacToeGameData)
        requires
            big.wf(),
        ensures
            r@ == self@.board_at(big),
    {
        *self.map.get(big)
    }
}


/// Per cell of `b` in row-major order: 1 if `Me` holds it, -1 if `Opp` does, else 0.
pub open spec fn won_balance(b: BoardView) -> spec_fn(int) -> int {
    |k: int|
        if b.at(k % 3, k / 3) == TicTacToeStatus::Player(MonteCarloPlayer::Me) {
            1int
        } else if b.at(k % 3, k / 3) == TicTacToeStatus::Player(MonteCarloPlayer::Opp) {
            -1int
        } else {
            0int
        }
}

/// Whether `p` is the first vacant cell of `b` in row-major order.
pub open spec fn is_first_vacant(b: BoardView, p: MapPoint<3, 3>) -> bool {
    &&& p.wf()
    &&& b.at(p.spec_x() as int, p.spec_y() as int) == TicTacToeStatus::Vacant
    &&& forall|x: int, y: int|
        0 <= x < 3 && 0 <= y < 3 && y * 3 + x < p.pos() ==> #[trigger] b.at(x, y) != TicTacToeStatus::Vacant
}

/// Whether cell position `s` (row-major, `0..9`) of `b` is vacant.
pub open spec fn vacant_at(b: BoardView, s: int) -> bool {
    b.at(s % 3, s / 3) == TicTacToeStatus::Vacant
}

/// Whether the first open mini board of the status map, if there is one, has a vacant cell.
pub open spec fn first_open_board_has_room(v: LegacyGameView) -> bool {
    forall|p: MapPoint<3, 3>| #[trigger] is_first_vacant(v.status_map, p) ==> v.board_at(p).has_vacant()
}

/// Two first vacant cells of a board are the same cell.
proof fn lemma_first_vacant_unique(b: BoardView, p: MapPoint<3, 3>, q: MapPoint<3, 3>)
    requires
        is_first_vacant(b, p),
        is_first_vacant(b, q),
    ensures
        p == q,
{
    lemma_pos3(p.pos(), p.spec_x() as int, p.spec_y() as int);
    lemma_pos3(q.pos(), q.spec_x() as int, q.spec_y() as int);
    if p.pos() < q.pos() {
        assert(b.at(p.spec_x() as int, p.spec_y() as int) != TicTacToeStatus::Vacant);
    } else if q.pos() < p.pos() {
        assert(b.at(q.spec_x() as int, q.spec_y() as int) != TicTacToeStatus::Vacant);
    }
    MapPoint::<3, 3>::lemma_point_ext(p, q);
}

/// Abstract state of a move cursor.
pub struct IterView {
    pub data: LegacyGameView,
    pub action: UltTTTPlayerAction,
    /// Whether the moves are restricted to the mini board of the cursor.
    pub specified: bool,
    pub finished: bool,
}

impl IterView {
    /// A cursor that is not finished stands on an open mini board, unless it is restricted to
    /// its mini board.
    pub open spec fn wf(self) -> bool {
        !self.finished ==> self.action.wf() && (board_open(self.data, self.action.ult_ttt_big.pos())
            || self.specified)
    }
}

/// Whether the mini board at row-major position `q` of the status map is open.
pub open spec fn board_open(d: LegacyGameView, q: int) -> bool {
    d.status_map.at(q % 3, q / 3) == TicTacToeStatus::Vacant
}

/// Whether `q` is the first open mini board after position `b0`.
pub open spec fn first_open_after(d: LegacyGameView, b0: int, q: int) -> bool {
    &&& b0 < q < 9
    &&& board_open(d, q)
    &&& forall|r: int| b0 < r < q ==> !#[trigger] board_open(d, r)
}

/// Cursor over the moves of a game: it stands on the next move to hand out.
pub struct IterUltTTT<'a> {
    ult_ttt_data: &'a UltTTT,
    player_action: UltTTTPlayerAction,
    next_action_square_is_specified: bool,
    iter_finished: bool,
}

impl<'a> View for IterUltTTT<'a> {
    type V = IterView;

    closed spec fn view(&self) -> IterView {
        IterView {
            data: self.ult_ttt_data@,
            action: self.player_action,
            specified: self.next_action_square_is_specified,
            finished: self.iter_finished,
        }
    }
}

/// What the cursor needs to start: when `Me` opens the game, nothing; when the mini board is
/// given, a vacant cell on it; else a vacant cell on the first open mini board, if any.
pub open spec fn iter_start_ok(v: LegacyGameView, player: MonteCarloPlayer, parent_game_turn: usize) -> bool {
    if parent_game_turn == 0 && player == MonteCarloPlayer::Me {
        true
    } else if v.next is Some {
        &&& v.next->0.wf()
        &&& v.board_at(v.next->0).has_vacant()
    } else {
        first_open_board_has_room(v)
    }
}

/// Whether a move cursor can start on `ult_ttt_data` for `player` after `parent_game_turn`
/// turns, see [`iter_start_ok`].
pub fn iter_can_start(ult_ttt_data: &UltTTT, player: MonteCarloPlayer, parent_game_turn: usize) -> (r:
    bool)
    ensures
        r == iter_start_ok(ult_ttt_data@, player, parent_game_turn),
{
    let opens = match player {
        MonteCarloPlayer::Me => parent_game_turn == 0,
        MonteCarloPlayer::Opp => false,
    };
    if opens {
        return true;
    }
    match ult_ttt_data.next_action_square_is_specified {
        Some(next) => {
            if !next.is_in_map() {
                return false;
            }
            ult_ttt_data.map.get(next).get_first_vacant_cell().is_some()
        },
        None => match ult_ttt_data.status_map.get_first_vacant_cell() {
            Some((big, _)) => {
                proof {
                    assert(is_first_vacant(ult_ttt_data@.status_map, big));
                    assert forall|p: MapPoint<3, 3>| #[trigger] is_first_vacant(ult_ttt_data@.status_map, p) implies p
                        == big by {
                        lemma_first_vacant_unique(ult_ttt_data@.status_map, p, big);
                    }
                }
                ult_ttt_data.map.get(big).get_first_vacant_cell().is_some()
            },
            None => true,
        },
    }
}

impl<'a> IterUltTTT<'a> {
    /// A cursor on the first move: when `Me` opens the game, the first cell of the centre mini
    /// board; when the mini board is given, its first vacant cell; else the first vacant cell
    /// of the first open mini board, or finished when there is none.
    pub fn new(ult_ttt_data: &'a UltTTT, player: MonteCarloPlayer, parent_game_turn: usize) -> (r: Self)
        requires
            iter_start_ok(ult_ttt_data@, player, parent_game_turn),
        ensures
            r@.data == ult_ttt_data@,
            r@.wf(),
            parent_game_turn == 0 && player == MonteCarloPlayer::Me ==> r@.specified && !r@.finished
                && r@.action.ult_ttt_big.spec_x() == 1 && r@.action.ult_ttt_big.spec_y() == 1
                && r@.action.ult_ttt_small.spec_x() == 0 && r@.action.ult_ttt_small.spec_y() == 0,
            !(parent_game_turn == 0 && player == MonteCarloPlayer::Me) && ult_ttt_data@.next is Some
                ==> r@.specified && !r@.finished && r@.action.ult_ttt_big == ult_ttt_data@.next->0
                && is_first_vacant(ult_ttt_data@.board_at(ult_ttt_data@.next->0), r@.action.ult_ttt_small),
            !(parent_game_turn == 0 && player == MonteCarloPlayer::Me) && ult_ttt_data@.next is None
                ==> !r@.specified && (r@.finished <==> !ult_ttt_data@.status_map.has_vacant()) && (
                !r@.finished ==> is_first_vacant(ult_ttt_data@.status_map, r@.action.ult_ttt_big)
                && is_first_vacant(ult_ttt_data@.board_at(r@.action.ult_ttt_big), r@.action.ult_ttt_small)),
    {
        let mut result = IterUltTTT {
            ult_ttt_data,
            player_action: UltTTTPlayerAction::default(),
            next_action_square_is_specified: false,
            iter_finished: false,
        };
        if parent_game_turn == 0 && player == MonteCarloPlayer::Me {
            result.player_action.ult_ttt_big = MapPoint::<3, 3>::new(1, 1);
            result.player_action.ult_ttt_small = MapPoint::<3, 3>::new(0, 0);
            result.next_action_square_is_specified = true;
        } else if let Some(next_ult_ttt_big) = ult_ttt_data.next_action_square_is_specified {
            result.player_action.ult_ttt_big = next_ult_ttt_big;
            let board = ult_ttt_data.get_mini_board(next_ult_ttt_big);
            result.player_action.ult_ttt_small = match board.get_first_vacant_cell() {
                Some(c) => c.0,
                None => {
                    proof {
                        assert(false);
                    }
                    MapPoint::<3, 3>::new(0, 0)
                },
            };
            result.next_action_square_is_specified = true;
        } else {
            match ult_ttt_data.status_map.get_first_vacant_cell() {
                Some((new_iter_ttt_big, _)) => {
                    proof {
                        lemma_pos3(new_iter_ttt_big.pos(), new_iter_ttt_big.spec_x() as int, new_iter_ttt_big.spec_y() as int);
                    }
                    result.player_action.ult_ttt_big = new_iter_ttt_big;
                    let board = ult_ttt_data.get_mini_board(new_iter_ttt_big);
                    result.player_action.ult_ttt_small = match board.get_first_vacant_cell() {
                        Some(c) => c.0,
                        None => {
                            proof {
                                assert(is_first_vacant(ult_ttt_data@.status_map, new_iter_ttt_big));
                                assert(false);
                            }
                            MapPoint::<3, 3>::new(0, 0)
                        },
                    };
                },
                None => result.iter_finished = true,
            };
        }
        result
    }

    /// Hands out the move under the cursor and moves the cursor to the next move: with the mini
    /// board given, the next vacant cell of that mini board (finished after its last one), or,
    /// when that mini board is closed, see [`skipped_to_open_board`]; else the next vacant cell
    /// of an open mini board in row-major order of mini boards, then cells (finished after the
    /// last one). `None` once finished.
    pub fn next(&mut self) -> (r: Option<UltTTTPlayerAction>)
        requires
            old(self)@.wf(),
        ensures
            final(self)@.data == old(self)@.data,
            final(self)@.specified == old(self)@.specified,
            final(self)@.wf(),
            old(self)@.finished ==> r is None && final(self)@ == old(self)@,
            !old(self)@.finished ==> r == Some(old(self)@.action),
            !old(self)@.finished && old(self)@.specified && board_open(
                old(self)@.data,
                old(self)@.action.ult_ttt_big.pos(),
            ) ==> ({
                let b = old(self)@.data.board_at(old(self)@.action.ult_ttt_big);
                let s0 = old(self)@.action.ult_ttt_small.pos();
                let s1 = final(self)@.action.ult_ttt_small.pos();
                &&& final(self)@.action.ult_ttt_big == old(self)@.action.ult_ttt_big
                &&& final(self)@.finished <==> (forall|s: int| s0 < s < 9 ==> !#[trigger] vacant_at(b, s))
                &&& !final(self)@.finished ==> s0 < s1 && vacant_at(b, s1) && (forall|s: int|
                    s0 < s < s1 ==> !#[trigger] vacant_at(b, s))
            }),
            !old(self)@.finished && !old(self)@.specified ==> ({
                let d = old(self)@.data;
                let k0 = old(self)@.action.key();
                let k1 = final(self)@.action.key();
                &&& final(self)@.finished <==> (forall|p: int| k0 < p < 81 ==> !#[trigger] d.free_cell(p))
                &&& !final(self)@.finished ==> k0 < k1 && d.free_cell(k1) && (forall|p: int|
                    k0 < p < k1 ==> !#[trigger] d.free_cell(p))
            }),
            !old(self)@.finished && old(self)@.specified && !board_open(
                old(self)@.data,
                old(self)@.action.ult_ttt_big.pos(),
            ) ==> skipped_to_open_board(old(self)@, final(self)@),
    {
        if self.iter_finished {
            return None;
        }
        if self.next_action_square_is_specified && !self.ult_ttt_data.status_map.get_cell_value(
            self.player_action.ult_ttt_big,
        ).is_vacant() {
            proof {
                let b = self.player_action.ult_ttt_big;
                lemma_pos3(b.pos(), b.spec_x() as int, b.spec_y() as int);
            }
            let result = self.player_action;
            self.skip_closed_boards();
            return Some(result);
        }
        proof {
            let b = self.player_action.ult_ttt_big;
            lemma_pos3(b.pos(), b.spec_x() as int, b.spec_y() as int);
        }
        let result = self.player_action;
        let ghost d = self@.data;
        let ghost k0 = result.key();
        let ghost s0 = result.ult_ttt_small.pos();
        let ghost big0 = result.ult_ttt_big;
        let ghost specified = self.next_action_square_is_specified;
        let ghost mut checked: int = k0;
        proof {
            lemma_key_cell(d, result);
        }
        let mut searching_new_iter_ttt_big = true;
        while searching_new_iter_ttt_big
            invariant
                self@.data == d,
                self.ult_ttt_data@ == d,
                self@.specified == specified,
                old(self)@.action == result,
                old(self)@.specified == specified,
                !old(self)@.finished,
                k0 == result.key(),
                s0 == result.ult_ttt_small.pos(),
                big0 == result.ult_ttt_big,
                result.wf(),
                d.status_map.at(big0.spec_x() as int, big0.spec_y() as int) == TicTacToeStatus::Vacant,
                searching_new_iter_ttt_big ==> !self@.finished && self@.action.wf() && checked
                    == self@.action.key(),
                old(self)@.data == d,
                searching_new_iter_ttt_big ==> self@.action == result || (self@.action.ult_ttt_big.pos()
                    > big0.pos() && self@.action.ult_ttt_small.pos() == 0),
                specified ==> searching_new_iter_ttt_big && self@.action == result,
                !searching_new_iter_ttt_big ==> self@.finished && !specified && checked == 80,
                k0 <= checked <= 80,
                forall|p: int| k0 < p <= checked ==> !#[trigger] d.free_cell(p),
            decreases (if searching_new_iter_ttt_big { 20 - self@.action.ult_ttt_big.pos() } else { 0 }),
        {
            let big = self.player_action.ult_ttt_big;
            if self.ult_ttt_data.status_map.get_cell_value(big).is_vacant() {
                let board = self.ult_ttt_data.get_mini_board(big);
                let mut searching_new_iter_ttt_small = true;
                while searching_new_iter_ttt_small
                    invariant
                        self@.data == d,
                        self.ult_ttt_data@ == d,
                        self@.specified == specified,
                        old(self)@.action == result,
                        old(self)@.specified == specified,
                        !old(self)@.finished,
                        !self@.finished,
                        k0 == result.key(),
                        s0 == result.ult_ttt_small.pos(),
                        big0 == result.ult_ttt_big,
                        result.wf(),
                        big.wf(),
                        self@.action.ult_ttt_big == big,
                        board@ == d.board_at(big),
                        d.status_map.at(big.spec_x() as int, big.spec_y() as int) == TicTacToeStatus::Vacant,
                        d.status_map.at(big0.spec_x() as int, big0.spec_y() as int) == TicTacToeStatus::Vacant,
                        self@.action.ult_ttt_small.wf(),
                        searching_new_iter_ttt_small ==> checked == self@.action.key(),
                        !searching_new_iter_ttt_small ==> checked == big.pos() * 9 + 8
                            && self@.action.ult_ttt_small.pos() == 0 && !specified,
                        specified ==> searching_new_iter_ttt_small && big == big0,
                        old(self)@.data == d,
                        (big == big0 && k0 <= checked) || (big.pos() > big0.pos() && big.pos() * 9
                            <= checked),
                        checked <= big.pos() * 9 + 8,
                        forall|p: int| k0 < p <= checked ==> !#[trigger] d.free_cell(p),
                    decreases (if searching_new_iter_ttt_small { 20 - self@.action.ult_ttt_small.pos() } else { 0 }),
                {
                    match self.player_action.ult_ttt_small.forward_x() {
                        Some(new_iter_ttt_small) => {
                            self.player_action.ult_ttt_small = new_iter_ttt_small;
                            proof {
                                lemma_key_cell(d, self.player_action);
                            }
                            if board.get_cell_value(self.player_action.ult_ttt_small).is_vacant() {
                                proof {
                                    if specified {
                                        lemma_vacant_between(d, big0, s0, new_iter_ttt_small.pos());
                                    }
                                }
                                return Some(result);
                            }
                            proof {
                                checked = self@.action.key();
                            }
                        },
                        None => {
                            if self.next_action_square_is_specified {
                                self.iter_finished = true;
                                proof {
                                    lemma_vacant_between(d, big0, s0, 9);
                                }
                                return Some(result);
                            }
                            self.player_action.ult_ttt_small = MapPoint::<3, 3>::new(0, 0);
                            searching_new_iter_ttt_small = false;
                        },
                    }
                }
            } else {
                proof {
                    assert(big != big0);
                    assert(big.pos() > big0.pos());
                    assert forall|p: int| big.pos() * 9 <= p <= big.pos() * 9 + 8 implies !#[trigger] d.free_cell(p) by {
                        lemma_pos9(p, big.pos(), p - big.pos() * 9);
                        lemma_pos3(big.pos(), big.spec_x() as int, big.spec_y() as int);
                    }
                    checked = big.pos() * 9 + 8;
                }
            }
            match self.player_action.ult_ttt_big.forward_x() {
                Some(new_iter_ttt_big) => {
                    self.player_action.ult_ttt_big = new_iter_ttt_big;
                    proof {
                        lemma_key_cell(d, self.player_action);
                    }
                    let nb = self.ult_ttt_data.get_mini_board(new_iter_ttt_big);
                    if self.ult_ttt_data.status_map.get_cell_value(new_iter_ttt_big).is_vacant()
                        && nb.get_cell_value(self.player_action.ult_ttt_small).is_vacant() {
                        return Some(result);
                    }
                    proof {
                        checked = self@.action.key();
                    }
                },
                None => {
                    self.iter_finished = true;
                    searching_new_iter_ttt_big = false;
                },
            }
        }
        Some(result)
    }
}

/// How a cursor restricted to a closed mini board moves on: to the first open mini board after
/// it, on the first vacant cell at or after its own cell position; finished when there is no
/// open mini board after it, or that one has no such cell.
pub open spec fn skipped_to_open_board(before: IterView, after: IterView) -> bool {
    let d = before.data;
    let b0 = before.action.ult_ttt_big.pos();
    let s0 = before.action.ult_ttt_small.pos();
    let b1 = after.action.ult_ttt_big.pos();
    let s1 = after.action.ult_ttt_small.pos();
    &&& after.finished <==> (forall|q: int|
        #[trigger] first_open_after(d, b0, q) ==> (forall|s: int| s0 <= s < 9 ==> !#[trigger] vacant_at(d.board_pos(q), s)))
    &&& !after.finished ==> first_open_after(d, b0, b1) && s0 <= s1 && vacant_at(d.board_pos(b1), s1) && (forall|s: int|
        s0 <= s < s1 ==> !#[trigger] vacant_at(d.board_pos(b1), s))
}

impl<'a> IterUltTTT<'a> {
    /// Moves a cursor off its mini board, see [`skipped_to_open_board`].
    fn skip_closed_boards(&mut self)
        requires
            !old(self)@.finished,
            old(self)@.action.wf(),
        ensures
            final(self)@.data == old(self)@.data,
            final(self)@.specified == old(self)@.specified,
            final(self)@.wf(),
            skipped_to_open_board(old(self)@, final(self)@),
    {
        let ghost d = self@.data;
        let ghost b0 = self.player_action.ult_ttt_big.pos();
        let ghost start = self@;
        let s_start = self.player_action.ult_ttt_small;
        let ghost s0 = s_start.pos();
        loop
            invariant
                self@.data == d,
                self.ult_ttt_data@ == d,
                start == old(self)@,
                start.data == d,
                b0 == start.action.ult_ttt_big.pos(),
                s0 == start.action.ult_ttt_small.pos(),
                s_start == start.action.ult_ttt_small,
                s_start.wf(),
                self@.specified == start.specified,
                !self.iter_finished,
                self.player_action.ult_ttt_big.wf(),
                b0 <= self.player_action.ult_ttt_big.pos(),
                forall|r: int| b0 < r <= self.player_action.ult_ttt_big.pos() ==> !#[trigger] board_open(d, r),
            decreases 9 - self.player_action.ult_ttt_big.pos(),
        {
            match self.player_action.ult_ttt_big.forward_x() {
                None => {
                    self.iter_finished = true;
                    return;
                },
                Some(b) => {
                    self.player_action.ult_ttt_big = b;
                    proof {
                        lemma_pos3(b.pos(), b.spec_x() as int, b.spec_y() as int);
                    }
                    if self.ult_ttt_data.status_map.get_cell_value(b).is_vacant() {
                        let board = self.ult_ttt_data.get_mini_board(b);
                        proof {
                            assert(first_open_after(d, b0, b.pos()));
                            assert forall|q: int| #[trigger] first_open_after(d, b0, q) implies q == b.pos() by {
                                if q < b.pos() {
                                    assert(!board_open(d, q));
                                } else if q > b.pos() {
                                    assert(!board_open(d, b.pos()));
                                }
                            }
                        }
                        let mut c = s_start;
                        loop
                            invariant
                                self@.data == d,
                                self.ult_ttt_data@ == d,
                                start == old(self)@,
                                start.data == d,
                                b0 == start.action.ult_ttt_big.pos(),
                                s0 == start.action.ult_ttt_small.pos(),
                                self@.specified == start.specified,
                                !self.iter_finished,
                                self.player_action.ult_ttt_big == b,
                                b.wf(),
                                board@ == d.board_pos(b.pos()),
                                first_open_after(d, b0, b.pos()),
                                forall|q: int| #[trigger] first_open_after(d, b0, q) ==> q == b.pos(),
                                c.wf(),
                                s0 <= c.pos(),
                                forall|s: int| s0 <= s < c.pos() ==> !#[trigger] vacant_at(board@, s),
                            decreases 9 - c.pos(),
                        {
                            proof {
                                lemma_pos3(c.pos(), c.spec_x() as int, c.spec_y() as int);
                            }
                            if board.get_cell_value(c).is_vacant() {
                                self.player_action.ult_ttt_small = c;
                                proof {
                                    assert(vacant_at(d.board_pos(b.pos()), c.pos()));
                                    assert(first_open_after(d, b0, b.pos()));
                                }
                                return;
                            }
                            match c.forward_x() {
                                Some(n) => {
                                    c = n;
                                },
                                None => {
                                    self.player_action.ult_ttt_small = c;
                                    self.iter_finished = true;
                                    return;
                                },
                            }
                        }
                    }
                },
            }
        }
    }
}

/// Splits a position of 81 into mini board and cell.
proof fn lemma_pos9(p: int, q: int, r: int)
    requires
        0 <= r < 9,
        p == q * 9 + r,
    ensures
        p / 9 == q,
        p % 9 == r,
{
}

/// Splits a position of 9 into column and row.
proof fn lemma_pos3(q: int, x: int, y: int)
    requires
        0 <= x < 3,
        0 <= y < 3,
        q == y * 3 + x,
    ensures
        q % 3 == x,
        q / 3 == y,
{
}

/// Whether the cell of a move is free is whether its mini board is open and its cell vacant.
proof fn lemma_key_cell(d: LegacyGameView, a: UltTTTPlayerAction)
    requires
        a.wf(),
    ensures
        0 <= a.ult_ttt_big.pos() < 9,
        0 <= a.ult_ttt_small.pos() < 9,
        0 <= a.key() < 81,
        d.free_cell(a.key()) == (d.status_map.at(
            a.ult_ttt_big.spec_x() as int,
            a.ult_ttt_big.spec_y() as int,
        ) == TicTacToeStatus::Vacant && d.board_at(a.ult_ttt_big).at(
            a.ult_ttt_small.spec_x() as int,
            a.ult_ttt_small.spec_y() as int,
        ) == TicTacToeStatus::Vacant),
        vacant_at(d.board_at(a.ult_ttt_big), a.ult_ttt_small.pos()) == (d.board_at(a.ult_ttt_big).at(
            a.ult_ttt_small.spec_x() as int,
            a.ult_ttt_small.spec_y() as int,
        ) == TicTacToeStatus::Vacant),
{
    let b = a.ult_ttt_big;
    let c = a.ult_ttt_small;
    lemma_pos3(b.pos(), b.spec_x() as int, b.spec_y() as int);
    lemma_pos3(c.pos(), c.spec_x() as int, c.spec_y() as int);
    lemma_pos9(a.key(), b.pos(), c.pos());
}

/// With the mini board fixed, the free cells after position `s0` are its vacant cells.
proof fn lemma_vacant_between(d: LegacyGameView, big: MapPoint<3, 3>, s0: int, s1: int)
    requires
        big.wf(),
        0 <= s0 < s1 <= 9,
        d.status_map.at(big.spec_x() as int, big.spec_y() as int) == TicTacToeStatus::Vacant,
        forall|p: int| big.pos() * 9 + s0 < p < big.pos() * 9 + s1 ==> !#[trigger] d.free_cell(p),
    ensures
        forall|s: int| s0 < s < s1 ==> !#[trigger] vacant_at(d.board_at(big), s),
{
    assert forall|s: int| s0 < s < s1 implies !#[trigger] vacant_at(d.board_at(big), s) by {
        let p = big.pos() * 9 + s;
        lemma_pos3(big.pos(), big.spec_x() as int, big.spec_y() as int);
        lemma_pos9(p, big.pos(), s);
        assert(!d.free_cell(p));
    }
}

} // verus!
