use vstd::prelude::*;

use crate::cell_index::{cell_of_index, CellIndex3x3};
use crate::game::{NextActionConstraint, UltTTT};
use crate::tic_tac_toe::TicTacToeStatus;

verus! {

/// Feature code of a mini-board cell: vacant 0, `Me` 1, `Opp` -1.
pub open spec fn cell_code(v: TicTacToeStatus) -> i8 {
    match v {
        TicTacToeStatus::Me => 1i8,
        TicTacToeStatus::Opp => -1i8,
        _ => 0i8,
    }
}

/// Position of the constraint in the one-hot block: the mini board it names, 9 for none.
pub open spec fn constraint_slot(c: NextActionConstraint) -> int {
    match c {
        NextActionConstraint::MiniBoard(b) => b.idx(),
        _ => 9,
    }
}

/// The constraint block is a one-hot block of ten: the slot of a constraint to one mini board
/// is that mini board's index, and the opening and free choice, which do not restrict the move
/// to one mini board, share the last slot; every constraint has exactly one slot in the block.
pub proof fn lemma_constraint_slot_one_hot(c: NextActionConstraint)
    ensures
        0 <= constraint_slot(c) < 10,
        c matches NextActionConstraint::MiniBoard(b) ==> constraint_slot(c) == b.idx() && constraint_slot(c)
            < 9,
        !(c is MiniBoard) <==> constraint_slot(c) == 9,
        c == NextActionConstraint::FreeChoice ==> constraint_slot(c) == 9,
        c == NextActionConstraint::Init ==> constraint_slot(c) == 9,
{
}

impl UltTTT {
    /// Feature vector of the state for learning: the 81 cells board by board (codes of
    /// [`cell_code`]), then a one-hot block of ten entries for the constraint.
    pub fn extract_features(&self) -> (r: Vec<i8>)
        requires
            forall|i: int, j: int|
                0 <= i < 9 && 0 <= j < 9 ==> #[trigger] self@.boards[i][j] != TicTacToeStatus::Tie,
        ensures
            r@.len() == 91,
            forall|i: int, j: int|
                0 <= i < 9 && 0 <= j < 9 ==> #[trigger] r@[i * 9 + j] == cell_code(
                    self@.boards[i][j],
                ),
            forall|k: int|
                0 <= k < 10 ==> #[trigger] r@[81 + k] == (if k == constraint_slot(self@.constraint) {
                    1i8
                } else {
                    0i8
                }),
            self@.constraint matches NextActionConstraint::MiniBoard(b) ==> r@[81 + b.idx()] == 1i8
                && r@[90] == 0i8,
            !(self@.constraint is MiniBoard) ==> r@[90] == 1i8,
            forall|k: int, l: int|
                0 <= k < 10 && 0 <= l < 10 && #[trigger] r@[81 + k] == 1i8 && #[trigger] r@[81 + l]
                    == 1i8 ==> k == l,
            forall|k: int| 0 <= k < 10 ==> #[trigger] r@[81 + k] == 0i8 || r@[81 + k] == 1i8,
    {
        let mut features: Vec<i8> = Vec::with_capacity(91);
        let mut i: usize = 0;
        while i < 9
            invariant
                0 <= i <= 9,
                features@.len() == i * 9,
                forall|a: int, b: int|
                    0 <= a < 9 && 0 <= b < 9 ==> #[trigger] self@.boards[a][b]
                        != TicTacToeStatus::Tie,
                forall|a: int, b: int|
                    0 <= a < i && 0 <= b < 9 ==> #[trigger] features@[a * 9 + b] == cell_code(
                        self@.boards[a][b],
                    ),
            decreases 9 - i,
        {
            let c = match CellIndex3x3::try_from_index(i) {
                Ok(c) => c,
                Err(_) => CellIndex3x3::TL,
            };
            let board = self.get_mini_board(c);
            let cells = board.iter_map();
            let mut j: usize = 0;
            while j < 9
                invariant
                    0 <= i < 9,
                    0 <= j <= 9,
                    c.idx() == i,
                    board@ == self@.boards[i as int],
                    cells@.len() == 9,
                    forall|k: int| 0 <= k < 9 ==> #[trigger] cells@[k] == (cell_of_index(k), board@[k]),
                    features@.len() == i * 9 + j,
                    forall|a: int, b: int|
                        0 <= a < 9 && 0 <= b < 9 ==> #[trigger] self@.boards[a][b]
                            != TicTacToeStatus::Tie,
                    forall|a: int, b: int|
                        0 <= a < i && 0 <= b < 9 ==> #[trigger] features@[a * 9 + b] == cell_code(
                            self@.boards[a][b],
                        ),
                    forall|b: int| 0 <= b < j ==> #[trigger] features@[i * 9 + b] == cell_code(
                        self@.boards[i as int][b],
                    ),
                decreases 9 - j,
            {
                let (_, cell_value) = cells[j];
                let feature: i8 = match cell_value {
                    TicTacToeStatus::Me => 1,
                    TicTacToeStatus::Opp => -1,
                    _ => 0,
                };
                let ghost before = features@;
                features.push(feature);
                proof {
                    assert forall|a: int, b: int|
                        0 <= a < i && 0 <= b < 9 implies #[trigger] features@[a * 9 + b]
                        == cell_code(self@.boards[a][b]) by {
                        assert(a * 9 + b < i * 9) by (nonlinear_arith)
                            requires
                                0 <= a < i,
                                0 <= b < 9,
                        ;
                        assert(features@[a * 9 + b] == before[a * 9 + b]);
                    }
                }
                j = j + 1;
            }
            proof {
                assert forall|a: int, b: int|
                    0 <= a < i + 1 && 0 <= b < 9 implies #[trigger] features@[a * 9 + b]
                    == cell_code(self@.boards[a][b]) by {
                    if a == i {
                        assert(features@[i * 9 + b] == cell_code(self@.boards[i as int][b]));
                    }
                }
            }
            i = i + 1;
        }
        let constraint_index: usize = match self.get_next_action_constraint() {
            NextActionConstraint::MiniBoard(board) => board.to_index(),
            _ => 9,
        };
        let mut k: usize = 0;
        while k < 10
            invariant
                0 <= k <= 10,
                features@.len() == 81 + k,
                constraint_index == constraint_slot(self@.constraint),
                forall|a: int, b: int|
                    0 <= a < 9 && 0 <= b < 9 ==> #[trigger] features@[a * 9 + b] == cell_code(
                        self@.boards[a][b],
                    ),
                forall|q: int| 0 <= q < k ==> #[trigger] features@[81 + q] == (if q
                    == constraint_slot(self@.constraint) {
                    1i8
                } else {
                    0i8
                }),
            decreases 10 - k,
        {
            let ghost before = features@;
            if k == constraint_index {
                features.push(1);
            } else {
                features.push(0);
            }
            proof {
                assert forall|a: int, b: int|
                    0 <= a < 9 && 0 <= b < 9 implies #[trigger] features@[a * 9 + b] == cell_code(
                    self@.boards[a][b],
                ) by {
                    assert(a * 9 + b < 81) by (nonlinear_arith)
                        requires
                            0 <= a < 9,
                            0 <= b < 9,
                    ;
                    assert(features@[a * 9 + b] == before[a * 9 + b]);
                }
            }
            k = k + 1;
        }
        proof {
            lemma_constraint_slot_one_hot(self@.constraint);
            assert(features@[81 + 9int] == features@[90int]);
            if let NextActionConstraint::MiniBoard(b) = self@.constraint {
                assert(features@[81 + b.idx()] == 1i8);
            }
        }
        features
    }
}

} // verus!
