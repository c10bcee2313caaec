use cg_ultimate_tic_tac_toe::cell_index::CellIndex3x3;
use cg_ultimate_tic_tac_toe::simulation::random_playout;
use cg_ultimate_tic_tac_toe::tic_tac_toe::TicTacToeStatus;
use cg_ultimate_tic_tac_toe::{NextActionConstraint, NoGameCache, UltTTT, UltTTTMCTSGame, UltTTTMove};

fn cell(i: usize) -> CellIndex3x3 {
    CellIndex3x3::try_from_index(i).unwrap()
}

fn mv(status: usize, mini: usize) -> UltTTTMove {
    UltTTTMove { status_index: cell(status), mini_board_index: cell(mini) }
}

fn play(state: &UltTTT, moves: &[UltTTTMove]) -> UltTTT {
    let mut cache = NoGameCache::new();
    let mut s = *state;
    for m in moves {
        assert!(UltTTTMCTSGame::available_moves(&s).contains(m), "move not allowed");
        s = UltTTTMCTSGame::apply_move(&s, m, &mut cache);
    }
    s
}

#[test]
fn move_coordinates_round_trip() {
    for x in 0..9u8 {
        for y in 0..9u8 {
            let m = UltTTTMove::try_from_coords((x, y)).unwrap();
            assert_eq!(m.to_coords(), (x, y));
        }
    }
    assert_eq!(UltTTTMove::try_from_coords((9, 0)), Err(()));
    assert_eq!(UltTTTMove::try_from_coords((0, 9)), Err(()));
    let m = UltTTTMove::try_from_coords((4, 7)).unwrap();
    assert_eq!(m.status_index, CellIndex3x3::MR);
    assert_eq!(m.mini_board_index, CellIndex3x3::MM);
}

#[test]
fn valid_move_only_on_vacant() {
    assert_eq!(
        UltTTTMove::valid_move(CellIndex3x3::TL, CellIndex3x3::BR, &TicTacToeStatus::Vacant),
        Some(mv(0, 8))
    );
    assert_eq!(UltTTTMove::valid_move(CellIndex3x3::TL, CellIndex3x3::BR, &TicTacToeStatus::Me), None);
    assert_eq!(UltTTTMove::valid_move(CellIndex3x3::TL, CellIndex3x3::BR, &TicTacToeStatus::Tie), None);
}

#[test]
fn new_game_starts_in_centre() {
    let s = UltTTT::new();
    assert_eq!(s.get_next_action_constraint(), NextActionConstraint::Init);
    assert_eq!(UltTTTMCTSGame::current_player(&s), TicTacToeStatus::Me);
    assert_eq!(UltTTTMCTSGame::last_player(&s), TicTacToeStatus::Me);
    assert_eq!(UltTTTMCTSGame::perspective_player(), TicTacToeStatus::Me);
    let moves = UltTTTMCTSGame::available_moves(&s);
    let expected: Vec<UltTTTMove> = (0..9).map(|i| mv(4, i)).collect();
    assert_eq!(moves, expected);
    assert_eq!(UltTTTMCTSGame::evaluate(&s, &mut NoGameCache::new()), None);
}

#[test]
fn apply_move_sends_to_matching_board() {
    let s = play(&UltTTT::new(), &[mv(4, 2)]);
    assert_eq!(s.get_cell_value(mv(4, 2)), TicTacToeStatus::Me);
    assert_eq!(UltTTTMCTSGame::current_player(&s), TicTacToeStatus::Opp);
    assert_eq!(UltTTTMCTSGame::last_player(&s), TicTacToeStatus::Me);
    assert_eq!(s.get_next_action_constraint(), NextActionConstraint::MiniBoard(CellIndex3x3::TR));
    let moves = UltTTTMCTSGame::available_moves(&s);
    let expected: Vec<UltTTTMove> = (0..9).map(|i| mv(2, i)).collect();
    assert_eq!(moves, expected);
    let s = play(&s, &[mv(2, 4)]);
    assert_eq!(s.get_cell_value(mv(2, 4)), TicTacToeStatus::Opp);
    // the centre board has one cell taken, so eight moves are left there
    let moves = UltTTTMCTSGame::available_moves(&s);
    assert_eq!(moves.len(), 8);
    assert!(!moves.contains(&mv(4, 2)));
}

#[test]
fn won_board_is_recorded_and_frees_choice() {
    // Me wins the centre board's top row; Opp answers in the top boards
    let s = play(
        &UltTTT::new(),
        &[mv(4, 0), mv(0, 4), mv(4, 1), mv(1, 4), mv(4, 2)],
    );
    assert_eq!(s.get_status_map().get_cell_value(CellIndex3x3::MM), TicTacToeStatus::Me);
    assert_eq!(s.get_mini_board(CellIndex3x3::MM).get_status(), TicTacToeStatus::Me);
    assert_eq!(s.get_next_action_constraint(), NextActionConstraint::MiniBoard(CellIndex3x3::TR));
    // Opp plays TR's centre cell: the next board would be MM, which is decided
    let s = play(&s, &[mv(2, 4)]);
    assert_eq!(s.get_next_action_constraint(), NextActionConstraint::FreeChoice);
    let moves = UltTTTMCTSGame::available_moves(&s);
    assert!(moves.iter().all(|m| m.status_index != CellIndex3x3::MM));
    // all vacant cells of open boards: 8 boards * 9 cells minus 3 taken (0/4, 1/4, 2/4)
    assert_eq!(moves.len(), 8 * 9 - 3);
    // listed by board, then cell
    for w in moves.windows(2) {
        let a = w[0].status_index.to_index() * 9 + w[0].mini_board_index.to_index();
        let b = w[1].status_index.to_index() * 9 + w[1].mini_board_index.to_index();
        assert!(a < b);
    }
    assert_eq!(UltTTTMCTSGame::evaluate(&s, &mut NoGameCache::new()), None);
}

#[test]
fn random_playout_ends_with_result() {
    for _ in 0..20 {
        let start = UltTTT::new();
        let (score, moves) = random_playout(&start, &mut NoGameCache::new());
        assert!(score <= 2);
        assert!(moves.len() <= 81);
        let end = play(&start, &moves);
        assert_eq!(UltTTTMCTSGame::evaluate(&end, &mut NoGameCache::new()), Some(score));
        // no earlier position already had a result
        let mut cache = NoGameCache::new();
        let mut s = start;
        for m in &moves {
            assert_eq!(UltTTTMCTSGame::evaluate(&s, &mut cache), None);
            s = UltTTTMCTSGame::apply_move(&s, m, &mut cache);
        }
    }
}

#[test]
fn features_of_state() {
    let s = play(&UltTTT::new(), &[mv(4, 2), mv(2, 0)]);
    let f = s.extract_features();
    assert_eq!(f.len(), 91);
    assert_eq!(f[4 * 9 + 2], 1);
    assert_eq!(f[2 * 9], -1);
    assert_eq!(f.iter().take(81).filter(|v| **v != 0).count(), 2);
    // next move must go to TL (board 0)
    for k in 0..10 {
        assert_eq!(f[81 + k], if k == 0 { 1 } else { 0 });
    }
    let f0 = UltTTT::new().extract_features();
    assert_eq!(f0[90], 1);
    assert_eq!(f0.iter().filter(|v| **v != 0).count(), 1);
}

#[test]
fn set_current_player_changes_mover() {
    let mut s = UltTTT::new();
    s.set_current_player(TicTacToeStatus::Opp);
    let s = play(&s, &[mv(4, 4)]);
    assert_eq!(s.get_cell_value(mv(4, 4)), TicTacToeStatus::Opp);
    assert_eq!(UltTTTMCTSGame::current_player(&s), TicTacToeStatus::Me);
}
