use cg_ultimate_tic_tac_toe::legacy::compass::Compass;
use cg_ultimate_tic_tac_toe::legacy::map_point::MapPoint;
use cg_ultimate_tic_tac_toe::legacy::map_two_dim::MyMap2D;
use cg_ultimate_tic_tac_toe::legacy::tic_tac_toe::{MonteCarloPlayer, TicTacToeGameData, TicTacToeStatus};
use cg_ultimate_tic_tac_toe::legacy::ult_ttt::{iter_can_start, IterUltTTT, UltTTT, UltTTTPlayerAction};

fn p3(x: usize, y: usize) -> MapPoint<3, 3> {
    MapPoint::new(x, y)
}

const ME: TicTacToeStatus = TicTacToeStatus::Player(MonteCarloPlayer::Me);
const OPP: TicTacToeStatus = TicTacToeStatus::Player(MonteCarloPlayer::Opp);

#[test]
fn map_point_walks_row_major() {
    let mut p = p3(0, 0);
    let mut seen = vec![(p.x(), p.y())];
    while let Some(q) = p.forward_x() {
        p = q;
        seen.push((p.x(), p.y()));
    }
    assert_eq!(seen.len(), 9);
    assert_eq!(seen[3], (0, 1));
    assert_eq!(seen[8], (2, 2));
    assert!(p3(2, 1).is_in_map());
    assert_eq!(p3(1, 1).offset_pp((1, 1)).map(|q| (q.x(), q.y())), Some((2, 2)));
    assert!(p3(2, 2).offset_pp((1, 0)).is_none());
    assert!(p3(0, 1).offset_mm((1, 0)).is_none());
    assert_eq!(p3(1, 1).neighbor(Compass::NE).map(|q| (q.x(), q.y())), Some((2, 0)));
    assert_eq!(p3(1, 1).neighbor(Compass::SW).map(|q| (q.x(), q.y())), Some((0, 2)));
    assert!(p3(0, 0).neighbor(Compass::N).is_none());
    assert_eq!(p3(0, 0).neighbor(Compass::Center).map(|q| (q.x(), q.y())), Some((0, 0)));
}

#[test]
fn compass_rotations() {
    let mut c = Compass::N;
    for _ in 0..8 {
        assert_eq!(c.clockwise().counterclockwise(), c);
        c = c.clockwise();
    }
    assert_eq!(c, Compass::N);
    assert_eq!(Compass::Center.clockwise(), Compass::Center);
    assert!(Compass::Center.is_center());
    assert_eq!(Compass::W.counterclockwise(), Compass::SW);
}

#[test]
fn map_two_dim_lines() {
    let mut m: MyMap2D<u8, 3, 3> = MyMap2D::init(0);
    let mut k = 0u8;
    for y in 0..3 {
        for x in 0..3 {
            m.set(p3(x, y), k);
            k += 1;
        }
    }
    let row: Vec<u8> = m.iter_row(1).iter().map(|(_, v)| *v).collect();
    assert_eq!(row, vec![3, 4, 5]);
    let col: Vec<u8> = m.iter_column(2).iter().map(|(_, v)| *v).collect();
    assert_eq!(col, vec![2, 5, 8]);
    let d1: Vec<u8> = m.iter_diagonale_top_left().iter().map(|(_, v)| *v).collect();
    assert_eq!(d1, vec![0, 4, 8]);
    let d2: Vec<u8> = m.iter_diagonale_top_right().iter().map(|(_, v)| *v).collect();
    assert_eq!(d2, vec![2, 4, 6]);
    let all: Vec<u8> = m.iter().iter().map(|(_, v)| *v).collect();
    assert_eq!(all, (0..9).collect::<Vec<u8>>());
    *m.get_mut(p3(1, 2)) = 42;
    assert_eq!(*m.get(p3(1, 2)), 42);
    let fresh: MyMap2D<u8, 3, 3> = MyMap2D::new();
    assert!(fresh.iter().iter().all(|(_, v)| *v == 0));
}

#[test]
fn legacy_board_status() {
    let mut b = TicTacToeGameData::new();
    assert_eq!(b.set_player(p3(0, 0), MonteCarloPlayer::Me), TicTacToeStatus::Vacant);
    assert_eq!(b.set_player(p3(1, 1), MonteCarloPlayer::Me), TicTacToeStatus::Vacant);
    assert_eq!(b.set_player(p3(2, 2), MonteCarloPlayer::Me), ME);
    assert_eq!(b.get_status(), ME);
    assert_eq!(b.count_player_cells(MonteCarloPlayer::Me), 3);
    assert_eq!(b.count_player_cells(MonteCarloPlayer::Opp), 0);
    let first = b.get_first_vacant_cell().unwrap();
    assert_eq!((first.0.x(), first.0.y()), (1, 0));
    let mut t = TicTacToeGameData::new();
    let order = [(0, 0, ME), (1, 0, OPP), (2, 0, ME), (0, 1, ME), (1, 1, OPP), (2, 1, OPP), (0, 2, OPP), (1, 2, ME)];
    for (x, y, v) in order {
        match v {
            TicTacToeStatus::Player(p) => {
                assert_eq!(t.set_player(p3(x, y), p), TicTacToeStatus::Vacant);
            },
            _ => unreachable!(),
        }
    }
    assert_eq!(t.set_player(p3(2, 2), MonteCarloPlayer::Me), TicTacToeStatus::Tie);
    assert!(t.get_first_vacant_cell().is_none());
    assert_eq!(t.set_vacant(p3(2, 2)), TicTacToeStatus::Vacant);
    assert_eq!(t.set_tie(p3(2, 2)), TicTacToeStatus::Tie);
}

#[test]
fn legacy_line_heuristic() {
    let b = TicTacToeGameData::new();
    let v = TicTacToeStatus::Vacant;
    assert_eq!(b.calc_line_heuristic(&vec![v, v, v]), 0);
    assert_eq!(b.calc_line_heuristic(&vec![ME, v, v]), 1);
    assert_eq!(b.calc_line_heuristic(&vec![ME, v, ME]), 10);
    assert_eq!(b.calc_line_heuristic(&vec![ME, ME, ME]), 100);
    assert_eq!(b.calc_line_heuristic(&vec![v, OPP, OPP]), -10);
    assert_eq!(b.calc_line_heuristic(&vec![ME, OPP, v]), 0);
    assert_eq!(b.calc_line_heuristic(&vec![ME, TicTacToeStatus::Tie, v]), 0);
    assert_eq!(b.check_status_for_one_line(&vec![OPP, OPP, OPP]), OPP);
    assert_eq!(b.check_status_for_one_line(&vec![OPP, OPP, v]), TicTacToeStatus::Tie);
    assert_eq!(b.check_status_for_one_line(&vec![v, v, v]), TicTacToeStatus::Tie);
    let mut c = TicTacToeGameData::new();
    c.set_player(p3(1, 1), MonteCarloPlayer::Me);
    // row, column and both diagonals through the centre: 4 lines of one Me cell
    assert_eq!(c.calc_heuristic_(), 4);
}

#[test]
fn legacy_actions_and_game() {
    let a = UltTTTPlayerAction::from_ext(MapPoint::<9, 9>::new(7, 4));
    assert_eq!((a.ult_ttt_big.x(), a.ult_ttt_big.y()), (2, 1));
    assert_eq!((a.ult_ttt_small.x(), a.ult_ttt_small.y()), (1, 1));
    let e = a.to_ext();
    assert_eq!((e.x(), e.y()), (7, 4));
    let mut g = UltTTT::new();
    assert_eq!(g.set_last_opp_action(MapPoint::<9, 9>::new(4, 4)), TicTacToeStatus::Vacant);
    assert_eq!(g.get_mini_board(p3(1, 1)).get_cell_value(p3(1, 1)), OPP);
    assert!(!g.check_game_ending(1));
    assert_eq!(g.game_winner(1), None);
    // Me wins the top-left mini board
    let mine = [(0, 0), (1, 0)];
    for (x, y) in mine {
        let act = UltTTTPlayerAction { ult_ttt_big: p3(0, 0), ult_ttt_small: p3(x, y) };
        assert!(!g.apply_my_action(&act));
    }
    let act = UltTTTPlayerAction { ult_ttt_big: p3(0, 0), ult_ttt_small: p3(2, 0) };
    assert!(g.apply_my_action(&act));
    assert_eq!(g.status_map.get_cell_value(p3(0, 0)), ME);
    assert_eq!(g.calc_heuristic(), 3 * 10 + 1);
}

#[test]
fn legacy_cursor_enumerates_moves() {
    let g = UltTTT::new();
    // Me opens: the centre mini board, all nine cells
    let mut it = IterUltTTT::new(&g, MonteCarloPlayer::Me, 0);
    let mut seen = vec![];
    while let Some(a) = it.next() {
        seen.push((a.ult_ttt_big.x(), a.ult_ttt_big.y(), a.ult_ttt_small.x(), a.ult_ttt_small.y()));
    }
    assert_eq!(seen.len(), 9);
    assert!(seen.iter().all(|m| m.0 == 1 && m.1 == 1));
    // free choice on an empty game: all 81 cells in order
    let mut it = IterUltTTT::new(&g, MonteCarloPlayer::Opp, 0);
    let mut n = 0;
    let mut last = None;
    while let Some(a) = it.next() {
        let key = (a.ult_ttt_big.y() * 3 + a.ult_ttt_big.x()) * 9 + a.ult_ttt_small.y() * 3 + a.ult_ttt_small.x();
        if let Some(l) = last {
            assert!(key > l);
        }
        last = Some(key);
        n += 1;
    }
    assert_eq!(n, 81);
    // after a move the next mini board is given
    let mut g = UltTTT::new();
    g.set_last_opp_action(MapPoint::<9, 9>::new(4, 4));
    let mut it = IterUltTTT::new(&g, MonteCarloPlayer::Me, 1);
    let mut k = 0;
    while let Some(a) = it.next() {
        assert_eq!((a.ult_ttt_big.x(), a.ult_ttt_big.y()), (1, 1));
        assert!(!(a.ult_ttt_small.x() == 1 && a.ult_ttt_small.y() == 1));
        k += 1;
    }
    assert_eq!(k, 8);
}

#[test]
fn legacy_cursor_start_condition() {
    let g = UltTTT::new();
    assert!(iter_can_start(&g, MonteCarloPlayer::Me, 0));
    assert!(iter_can_start(&g, MonteCarloPlayer::Opp, 0));
    let mut g = UltTTT::new();
    g.set_last_opp_action(MapPoint::<9, 9>::new(4, 4));
    assert!(iter_can_start(&g, MonteCarloPlayer::Me, 1));
    // Me wins the top-left mini board; the next move goes to the mini board of the last cell
    for x in 0..3 {
        let act = UltTTTPlayerAction { ult_ttt_big: p3(0, 0), ult_ttt_small: p3(x, 0) };
        g.apply_my_action(&act);
    }
    assert!(iter_can_start(&g, MonteCarloPlayer::Opp, 4));
}

#[test]
fn legacy_won_mini_board_is_filled() {
    let mut g = UltTTT::new();
    for x in 0..3 {
        let act = UltTTTPlayerAction { ult_ttt_big: p3(0, 0), ult_ttt_small: p3(x, 0) };
        g.apply_my_action(&act);
    }
    let board = g.get_mini_board(p3(0, 0));
    assert_eq!(board.get_status(), ME);
    for y in 0..3 {
        for x in 0..3 {
            assert_eq!(board.get_cell_value(p3(x, y)), ME);
        }
    }
    // the other mini boards are untouched
    assert_eq!(g.get_mini_board(p3(1, 0)).get_cell_value(p3(0, 0)), TicTacToeStatus::Vacant);
    assert_eq!(g.status_map.get_cell_value(p3(0, 0)), ME);
}

#[test]
fn legacy_set_all_to_status_fills_board() {
    let mut b = TicTacToeGameData::new();
    b.set_player(p3(0, 1), MonteCarloPlayer::Opp);
    b.set_player(p3(1, 1), MonteCarloPlayer::Opp);
    assert_eq!(b.set_player(p3(2, 1), MonteCarloPlayer::Opp), OPP);
    b.set_all_to_status();
    for y in 0..3 {
        for x in 0..3 {
            assert_eq!(b.get_cell_value(p3(x, y)), OPP);
        }
    }
    assert_eq!(b.get_status(), OPP);
}

#[test]
fn legacy_cursor_opening_on_taken_centre() {
    let mut g = UltTTT::new();
    g.status_map.set_player(p3(1, 1), MonteCarloPlayer::Opp);
    assert!(iter_can_start(&g, MonteCarloPlayer::Me, 0));
    let mut it = IterUltTTT::new(&g, MonteCarloPlayer::Me, 0);
    let mut seen = vec![];
    while let Some(a) = it.next() {
        seen.push((a.ult_ttt_big.x(), a.ult_ttt_big.y(), a.ult_ttt_small.x(), a.ult_ttt_small.y()));
    }
    // the opening cell first, then the next open mini board, cell by cell
    assert_eq!(seen.len(), 10);
    assert_eq!(seen[0], (1, 1, 0, 0));
    assert_eq!(seen[1], (2, 1, 0, 0));
    assert_eq!(seen[9], (2, 1, 2, 2));
    assert!(seen[1..].iter().all(|m| m.0 == 2 && m.1 == 1));
}
