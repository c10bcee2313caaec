use vstd::prelude::*;

use crate::cell_index::{cell_of_index, CellIndex3x3};
use crate::cell_set::{count_cells_in, lemma_count_cells_in_empty, CellIndexSet};
use crate::game::{NextActionConstraint, UltTTT, UltTTTMCTSGame, UltTTTView};
use crate::tic_tac_toe::{control, meta_count, threats, TicTacToeStatus};

verus! {

/// Heuristic of ultimate tic-tac-toe positions: the decisions and counts that its score is
/// built from.
#[derive(Clone, Copy)]
pub struct UltTTTHeuristic {}

/// Whether the player who just moved loses directly: the opponent has a threat on the mini
/// board and winning that mini board completes one of the opponent's lines on the status map.
pub open spec fn spec_is_direct_loss(
    last_player: TicTacToeStatus,
    my_threats_of_mini_board: Set<CellIndex3x3>,
    my_meta_threats: Set<CellIndex3x3>,
    opp_threats_of_mini_board: Set<CellIndex3x3>,
    opp_meta_threats: Set<CellIndex3x3>,
    mini_board_index: CellIndex3x3,
) -> bool {
    if last_player == TicTacToeStatus::Me {
        opp_threats_of_mini_board != Set::<CellIndex3x3>::empty() && opp_meta_threats.contains(
            mini_board_index,
        )
    } else {
        my_threats_of_mini_board != Set::<CellIndex3x3>::empty() && my_meta_threats.contains(
            mini_board_index,
        )
    }
}

/// A direct loss needs both a threat cell of the other player on the mini board and a threat of
/// that player on the status map through the mini board: without a threat cell on the mini
/// board there is never a direct loss, and with both there always is.
pub proof fn lemma_direct_loss_needs_threats(
    last_player: TicTacToeStatus,
    my_threats_of_mini_board: Set<CellIndex3x3>,
    my_meta_threats: Set<CellIndex3x3>,
    opp_threats_of_mini_board: Set<CellIndex3x3>,
    opp_meta_threats: Set<CellIndex3x3>,
    mini_board_index: CellIndex3x3,
)
    requires
        last_player.is_player_status(),
    ensures
        last_player == TicTacToeStatus::Me ==> (spec_is_direct_loss(
            last_player,
            my_threats_of_mini_board,
            my_meta_threats,
            opp_threats_of_mini_board,
            opp_meta_threats,
            mini_board_index,
        ) <==> (exists|c: CellIndex3x3| opp_threats_of_mini_board.contains(c))
            && opp_meta_threats.contains(mini_board_index)),
        last_player == TicTacToeStatus::Opp ==> (spec_is_direct_loss(
            last_player,
            my_threats_of_mini_board,
            my_meta_threats,
            opp_threats_of_mini_board,
            opp_meta_threats,
            mini_board_index,
        ) <==> (exists|c: CellIndex3x3| my_threats_of_mini_board.contains(c))
            && my_meta_threats.contains(mini_board_index)),
{
    if exists|c: CellIndex3x3| opp_threats_of_mini_board.contains(c) {
        let c = choose|c: CellIndex3x3| opp_threats_of_mini_board.contains(c);
        assert(!Set::<CellIndex3x3>::empty().contains(c));
    } else {
        assert(opp_threats_of_mini_board =~= Set::<CellIndex3x3>::empty());
    }
    if exists|c: CellIndex3x3| my_threats_of_mini_board.contains(c) {
        let c = choose|c: CellIndex3x3| my_threats_of_mini_board.contains(c);
        assert(!Set::<CellIndex3x3>::empty().contains(c));
    } else {
        assert(my_threats_of_mini_board =~= Set::<CellIndex3x3>::empty());
    }
}

/// The overlap ratio `(shared, current)` that [`UltTTTHeuristic::get_constraint_overlap`]
/// returns when there is no direct loss.
pub open spec fn spec_overlap(
    last_player: TicTacToeStatus,
    my_threats_of_mini_board: Set<CellIndex3x3>,
    my_meta_threats: Set<CellIndex3x3>,
    opp_threats_of_mini_board: Set<CellIndex3x3>,
    opp_meta_threats: Set<CellIndex3x3>,
) -> (int, int) {
    if last_player == TicTacToeStatus::Me {
        (
            count_cells_in(my_meta_threats.intersect(opp_threats_of_mini_board)),
            count_cells_in(opp_threats_of_mini_board),
        )
    } else {
        (
            count_cells_in(opp_meta_threats.intersect(my_threats_of_mini_board)),
            count_cells_in(my_threats_of_mini_board),
        )
    }
}

/// What the heuristic reads of one mini board.
#[derive(Copy, Clone, PartialEq, Eq, Debug)]
pub struct MiniBoardScan {
    /// The mini board's entry on the status map.
    pub status: TicTacToeStatus,
    /// Weighted control of `Me` and of `Opp`.
    pub control: (u32, u32),
    /// Number of threat cells of `Me` and of `Opp`.
    pub threats: (usize, usize),
    /// Lines through the mini board on the status map, see
    /// [`crate::tic_tac_toe::TicTacToeGameData::get_meta_cell_threats`].
    pub meta: (u8, u8, u8, u8),
    /// The constraint overlap when the constraint concerns this open mini board.
    pub overlap: Option<(usize, usize)>,
    /// Whether the constraint factor for free choice applies instead of the plain one.
    pub free_choice: bool,
}

/// Whether the constraint of `v` concerns mini board `i` when it is open: the one named, or
/// all under free choice.
pub open spec fn constraint_concerns(v: UltTTTView, i: int) -> bool {
    match v.constraint {
        NextActionConstraint::MiniBoard(b) => b.idx() == i,
        NextActionConstraint::FreeChoice => true,
        NextActionConstraint::Init => false,
    }
}

/// Whether the player who just moved in `v` loses directly through open mini board `i`.
pub open spec fn direct_loss_at(v: UltTTTView, i: int) -> bool {
    &&& v.status[i] == TicTacToeStatus::Vacant
    &&& constraint_concerns(v, i)
    &&& spec_is_direct_loss(
        v.last,
        threats(v.boards[i], 2),
        threats(v.status, 2),
        threats(v.boards[i], -2),
        threats(v.status, -2),
        cell_of_index(i),
    )
}

/// The scan entry of mini board `i` of `v`.
pub open spec fn scan_entry_ok(v: UltTTTView, i: int, e: MiniBoardScan) -> bool {
    &&& e.status == v.status[i]
    &&& e.control.0 == control(v.boards[i], TicTacToeStatus::Me)
    &&& e.control.1 == control(v.boards[i], TicTacToeStatus::Opp)
    &&& e.threats.0 == count_cells_in(threats(v.boards[i], 2))
    &&& e.threats.1 == count_cells_in(threats(v.boards[i], -2))
    &&& (v.status[i] != TicTacToeStatus::Vacant ==> e.meta == (0u8, 0u8, 0u8, 0u8))
    &&& (v.status[i] == TicTacToeStatus::Vacant ==> e.meta.0 == meta_count(v.status, cell_of_index(i), 2)
        && e.meta.1 == meta_count(v.status, cell_of_index(i), 1) && e.meta.2 == meta_count(
        v.status,
        cell_of_index(i),
        -2,
    ) && e.meta.3 == meta_count(v.status, cell_of_index(i), -1))
    &&& e.free_choice == (v.constraint == NextActionConstraint::FreeChoice)
    &&& (v.status[i] == TicTacToeStatus::Vacant && constraint_concerns(v, i)) <==> e.overlap is Some
    &&& e.overlap matches Some(q) ==> q.0 == spec_overlap(
        v.last,
        threats(v.boards[i], 2),
        threats(v.status, 2),
        threats(v.boards[i], -2),
        threats(v.status, -2),
    ).0 && q.1 == spec_overlap(
        v.last,
        threats(v.boards[i], 2),
        threats(v.status, 2),
        threats(v.boards[i], -2),
        threats(v.status, -2),
    ).1
}

impl UltTTTHeuristic {
    /// Reads every mini board as the heuristic needs it: `None` when the player who just moved
    /// loses directly on an open mini board that the constraint concerns, else one entry per
    /// mini board in order. Defined after the first move (not under the opening constraint).
    pub fn scan_mini_boards(state: &UltTTT) -> (r: Option<Vec<MiniBoardScan>>)
        requires
            state@.last.is_player_status(),
            state@.constraint != NextActionConstraint::Init,
        ensures
            r is None <==> exists|i: int| 0 <= i < 9 && #[trigger] direct_loss_at(state@, i),
            r matches Some(v) ==> v@.len() == 9 && forall|i: int|
                0 <= i < 9 ==> #[trigger] scan_entry_ok(state@, i, v@[i]),
    {
        proof {
            state.lemma_shape();
        }
        let status_map = state.get_status_map();
        let (first_meta_threats, second_meta_threats) = status_map.get_threats();
        let last_player = UltTTTMCTSGame::last_player(state);
        let constraint = state.get_next_action_constraint();
        let mut entries: Vec<MiniBoardScan> = Vec::new();
        let mut i: usize = 0;
        while i < 9
            invariant
                0 <= i <= 9,
                state@.last.is_player_status(),
                state@.constraint != NextActionConstraint::Init,
                state@.shape_ok(),
                last_player == state@.last,
                constraint == state@.constraint,
                status_map@ == state@.status,
                first_meta_threats@ == threats(state@.status, 2),
                second_meta_threats@ == threats(state@.status, -2),
                entries@.len() == i,
                forall|j: int| 0 <= j < i ==> #[trigger] scan_entry_ok(state@, j, entries@[j]),
                forall|j: int| 0 <= j < i ==> !#[trigger] direct_loss_at(state@, j),
            decreases 9 - i,
        {
            let status_index = match CellIndex3x3::try_from_index(i) {
                Ok(c) => c,
                Err(_) => CellIndex3x3::TL,
            };
            let status = status_map.get_cell_value(status_index);
            let board = state.get_mini_board(status_index);
            let control = board.get_board_control();
            let (first_threats, second_threats) = board.get_threats();
            let meta = status_map.get_meta_cell_threats(status_index);
            let concerned = match constraint {
                NextActionConstraint::MiniBoard(next_board) => status_index == next_board,
                _ => true,
            };
            let overlap = if status.is_vacant() && concerned {
                match UltTTTHeuristic::get_constraint_overlap(
                    last_player,
                    &first_threats,
                    &first_meta_threats,
                    &second_threats,
                    &second_meta_threats,
                    status_index,
                ) {
                    Some(q) => Some(q),
                    None => {
                        proof {
                            assert(direct_loss_at(state@, i as int));
                        }
                        return None;
                    },
                }
            } else {
                None
            };
            let free_choice = match constraint {
                NextActionConstraint::FreeChoice => true,
                _ => false,
            };
            let ghost before = entries@;
            entries.push(
                MiniBoardScan {
                    status,
                    control,
                    threats: (first_threats.len(), second_threats.len()),
                    meta,
                    overlap,
                    free_choice,
                },
            );
            proof {
                assert(scan_entry_ok(state@, i as int, entries@[i as int]));
                assert forall|j: int| 0 <= j < i + 1 implies #[trigger] scan_entry_ok(
                    state@,
                    j,
                    entries@[j],
                ) by {
                    if j < i {
                        assert(entries@[j] == before[j]);
                    }
                }
            }
            i = i + 1;
        }
        Some(entries)
    }

    /// See [`spec_is_direct_loss`].
    pub fn is_direct_loss(
        last_player: TicTacToeStatus,
        my_threats_of_mini_board: &CellIndexSet,
        my_meta_threats: &CellIndexSet,
        opp_threats_of_mini_board: &CellIndexSet,
        opp_meta_threats: &CellIndexSet,
        mini_board_index: CellIndex3x3,
    ) -> (r: bool)
        requires
            last_player.is_player_status(),
        ensures
            r == spec_is_direct_loss(
                last_player,
                my_threats_of_mini_board@,
                my_meta_threats@,
                opp_threats_of_mini_board@,
                opp_meta_threats@,
                mini_board_index,
            ),
    {
        match last_player {
            TicTacToeStatus::Me => !opp_threats_of_mini_board.is_empty()
                && opp_meta_threats.contains(&mini_board_index),
            _ => !my_threats_of_mini_board.is_empty() && my_meta_threats.contains(
                &mini_board_index,
            ),
        }
    }

    /// Overlap of the last player's threats on the status map with the current player's threats
    /// on a mini board, as a ratio `(shared, current)`: the number of the current player's
    /// threat cells that are also threat cells of the last player on the status map, over the
    /// number of the current player's threat cells. `(0, 0)` when the current player has none.
    pub fn get_threat_overlap_for_last_player(
        last_player_meta_threats: &CellIndexSet,
        current_player_threats: &CellIndexSet,
    ) -> (r: (usize, usize))
        ensures
            r.1 == count_cells_in(current_player_threats@),
            r.0 == count_cells_in(last_player_meta_threats@.intersect(current_player_threats@)),
            current_player_threats@ == Set::<CellIndex3x3>::empty() ==> r == (0usize, 0usize),
    {
        if current_player_threats.is_empty() {
            proof {
                assert(last_player_meta_threats@.intersect(current_player_threats@)
                    =~= Set::<CellIndex3x3>::empty());
                lemma_count_cells_in_empty();
            }
            return (0, 0);
        }
        let num_last_player_back_to_threat_line = last_player_meta_threats.intersection_len(
            current_player_threats,
        );
        (num_last_player_back_to_threat_line, current_player_threats.len())
    }

    /// The decision behind the constraint factors of a mini board: `None` on a direct loss of
    /// the player who just moved, else the overlap ratio of [`Self::get_threat_overlap_for_last_player`]
    /// for the last player's status-map threats against the current player's threats on the mini
    /// board. With ratio `q` and factor `f`, the factors are `(1 + q f, 1 + (1 - q) f)` for
    /// `Me` and `Opp` when `Me` moved last, `(1 + (1 - q) f, 1 + q f)` when `Opp` did.
    pub fn get_constraint_overlap(
        last_player: TicTacToeStatus,
        my_threats_of_mini_board: &CellIndexSet,
        my_meta_threats: &CellIndexSet,
        opp_threats_of_mini_board: &CellIndexSet,
        opp_meta_threats: &CellIndexSet,
        mini_board_index: CellIndex3x3,
    ) -> (r: Option<(usize, usize)>)
        requires
            last_player.is_player_status(),
        ensures
            spec_is_direct_loss(
                last_player,
                my_threats_of_mini_board@,
                my_meta_threats@,
                opp_threats_of_mini_board@,
                opp_meta_threats@,
                mini_board_index,
            ) <==> r is None,
            r matches Some(q) ==> (if last_player == TicTacToeStatus::Me {
                q.0 == count_cells_in(my_meta_threats@.intersect(opp_threats_of_mini_board@))
                    && q.1 == count_cells_in(opp_threats_of_mini_board@)
            } else {
                q.0 == count_cells_in(opp_meta_threats@.intersect(my_threats_of_mini_board@))
                    && q.1 == count_cells_in(my_threats_of_mini_board@)
            }),
    {
        if UltTTTHeuristic::is_direct_loss(
            last_player,
            my_threats_of_mini_board,
            my_meta_threats,
            opp_threats_of_mini_board,
            opp_meta_threats,
            mini_board_index,
        ) {
            return None;
        }
        match last_player {
            TicTacToeStatus::Me => Some(
                UltTTTHeuristic::get_threat_overlap_for_last_player(
                    my_meta_threats,
                    opp_threats_of_mini_board,
                ),
            ),
            _ => Some(
                UltTTTHeuristic::get_threat_overlap_for_last_player(
                    opp_meta_threats,
                    my_threats_of_mini_board,
                ),
            ),
        }
    }
}

} // verus!
