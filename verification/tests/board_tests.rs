use cg_ultimate_tic_tac_toe::cell_index::CellIndex3x3;
use cg_ultimate_tic_tac_toe::cell_set::CellIndexSet;
use cg_ultimate_tic_tac_toe::map3x3::MyMap3x3;
use cg_ultimate_tic_tac_toe::tic_tac_toe::{score_lines, TicTacToeGameData, TicTacToeStatus};

fn cell(i: usize) -> CellIndex3x3 {
    CellIndex3x3::try_from_index(i).unwrap()
}

fn board_from(values: [TicTacToeStatus; 9]) -> TicTacToeGameData {
    let mut b = TicTacToeGameData::new();
    for (i, v) in values.iter().enumerate() {
        b.set_cell_value(cell(i), *v);
    }
    b
}

const V: TicTacToeStatus = TicTacToeStatus::Vacant;
const M: TicTacToeStatus = TicTacToeStatus::Me;
const O: TicTacToeStatus = TicTacToeStatus::Opp;
const T: TicTacToeStatus = TicTacToeStatus::Tie;

#[test]
fn cell_index_round_trips() {
    for i in 0..9 {
        let c = cell(i);
        assert_eq!(c.to_index(), i);
        let (row, col) = c.to_coords();
        assert_eq!((row as usize, col as usize), (i / 3, i % 3));
        assert_eq!(CellIndex3x3::try_from_coords((row, col)), Ok(c));
    }
    assert_eq!(CellIndex3x3::try_from_index(9), Err(()));
    assert_eq!(CellIndex3x3::try_from_coords((3, 0)), Err(()));
    assert_eq!(CellIndex3x3::try_from_coords((0, 3)), Err(()));
    assert_eq!(CellIndex3x3::try_from_coords((0, 1)), Ok(CellIndex3x3::TM));
    assert_eq!(CellIndex3x3::try_from_coords((2, 0)), Ok(CellIndex3x3::BL));
}

#[test]
fn cell_weights() {
    assert_eq!(CellIndex3x3::MM.cell_weight(), 4);
    for c in [CellIndex3x3::TL, CellIndex3x3::TR, CellIndex3x3::BL, CellIndex3x3::BR] {
        assert_eq!(c.cell_weight(), 3);
    }
    for c in [CellIndex3x3::TM, CellIndex3x3::ML, CellIndex3x3::MR, CellIndex3x3::BM] {
        assert_eq!(c.cell_weight(), 2);
    }
}

#[test]
fn map3x3_access() {
    let m: MyMap3x3<u8> = MyMap3x3::new();
    assert!(m.iterate().iter().all(|(_, v)| *v == 0));
    let mut m = MyMap3x3::init(7u8);
    m.set_cell(CellIndex3x3::MR, 3);
    *m.get_cell_mut(CellIndex3x3::BL) = 5;
    assert_eq!(*m.get_cell(CellIndex3x3::MR), 3);
    assert_eq!(*m.get_cell(CellIndex3x3::BL), 5);
    assert_eq!(*m.get_cell(CellIndex3x3::TL), 7);
    let all = m.iterate();
    assert_eq!(all.len(), 9);
    assert_eq!(all[5], (CellIndex3x3::MR, 3));
    assert_eq!(all[6], (CellIndex3x3::BL, 5));
    assert_eq!(all[8], (CellIndex3x3::BR, 7));
}

#[test]
fn status_values_and_players() {
    assert_eq!(V.value(), 0);
    assert_eq!(M.value(), 1);
    assert_eq!(O.value(), -1);
    assert_eq!(T.value(), 20);
    assert_eq!(M.next(), O);
    assert_eq!(O.next(), M);
    assert_eq!(M.evaluate(), Some(2));
    assert_eq!(T.evaluate(), Some(1));
    assert_eq!(O.evaluate(), Some(0));
    assert_eq!(V.evaluate(), None);
    assert_eq!(TicTacToeStatus::default(), V);
}

#[test]
fn board_status_lines_and_ties() {
    assert_eq!(TicTacToeGameData::new().get_status(), V);
    assert_eq!(board_from([M, M, M, O, O, V, V, V, V]).get_status(), M);
    assert_eq!(board_from([O, M, M, V, O, M, V, V, O]).get_status(), O);
    assert_eq!(board_from([M, O, M, M, O, O, O, M, M]).get_status(), T);
    assert_eq!(board_from([M, O, M, M, O, O, O, M, V]).get_status(), V);
    // a tied cell never completes a line
    assert_eq!(board_from([T, T, T, V, V, V, V, V, V]).get_status(), V);
    // the first line in checking order decides: the middle row before the top row
    assert_eq!(board_from([M, M, M, O, O, O, V, V, V]).get_status(), O);
}

#[test]
fn board_counts() {
    let b = board_from([M, O, M, T, V, O, M, V, V]);
    assert_eq!(b.count_me_cells(), 3);
    assert_eq!(b.count_opp_cells(), 2);
    assert_eq!(b.count_non_vacant_cells(), 6);
    assert_eq!(b.get_board_control(), (3 + 3 + 3, 2 + 2));
}

#[test]
fn board_threats() {
    // Me threatens TR (top row), BR (main diagonal) and BM (middle column)
    let b = board_from([M, M, V, V, M, V, O, V, V]);
    let (me, opp) = b.get_threats();
    assert!(me.contains(&CellIndex3x3::TR));
    assert!(me.contains(&CellIndex3x3::BR));
    assert!(me.contains(&CellIndex3x3::BM));
    assert_eq!(me.len(), 3);
    assert!(opp.is_empty());
    let b = board_from([O, V, V, O, M, V, V, V, M]);
    let (me, opp) = b.get_threats();
    assert!(me.is_empty());
    assert!(opp.contains(&CellIndex3x3::BL));
    assert_eq!(opp.len(), 1);
}

#[test]
fn meta_cell_threats() {
    let b = board_from([M, M, V, V, O, V, V, V, V]);
    // TR lies on the top row (M, M: 2), the right column (0) and the anti-diagonal (O: -1)
    assert_eq!(b.get_meta_cell_threats(CellIndex3x3::TR), (1, 0, 0, 1));
    // a taken cell has no meta threats
    assert_eq!(b.get_meta_cell_threats(CellIndex3x3::TL), (0, 0, 0, 0));
    // BR: main diagonal M, O -> 0; bottom row 0; right column 0
    assert_eq!(b.get_meta_cell_threats(CellIndex3x3::BR), (0, 0, 0, 0));
    // ML: middle row O -> -1; left column M -> 1
    assert_eq!(b.get_meta_cell_threats(CellIndex3x3::ML), (0, 1, 0, 1));
}

#[test]
fn score_lines_cover_all_lines() {
    let lines = score_lines();
    assert_eq!(lines.len(), 8);
    for c in 0..9 {
        let through = lines.iter().filter(|l| l.contains(&cell(c))).count();
        let expected = match c {
            4 => 4,
            0 | 2 | 6 | 8 => 3,
            _ => 2,
        };
        assert_eq!(through, expected);
    }
}

#[test]
fn cell_set_operations() {
    let mut a = CellIndexSet::new();
    assert!(a.is_empty());
    assert_eq!(a.len(), 0);
    a.insert(CellIndex3x3::MM);
    a.insert(CellIndex3x3::TL);
    a.insert(CellIndex3x3::MM);
    assert_eq!(a.len(), 2);
    assert!(!a.is_empty());
    assert!(a.contains(&CellIndex3x3::TL));
    assert!(!a.contains(&CellIndex3x3::BR));
    let mut b = CellIndexSet::new();
    b.insert(CellIndex3x3::MM);
    b.insert(CellIndex3x3::BR);
    assert_eq!(a.intersection_len(&b), 1);
    assert_eq!(b.intersection_len(&CellIndexSet::new()), 0);
}
