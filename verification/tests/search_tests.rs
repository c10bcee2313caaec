use cg_ultimate_tic_tac_toe::cell_index::CellIndex3x3;
use cg_ultimate_tic_tac_toe::cell_set::CellIndexSet;
use cg_ultimate_tic_tac_toe::search::{expandable_count, select_most_visited, should_expand};
use cg_ultimate_tic_tac_toe::tic_tac_toe::TicTacToeStatus;
use cg_ultimate_tic_tac_toe::tree::PlainTree;
use cg_ultimate_tic_tac_toe::{OldUltTTTHeuristic, UltTTTHeuristic};

fn set(cells: &[CellIndex3x3]) -> CellIndexSet {
    let mut s = CellIndexSet::new();
    for c in cells {
        s.insert(*c);
    }
    s
}

#[test]
fn direct_loss_of_last_player() {
    let empty = set(&[]);
    let opp_mini = set(&[CellIndex3x3::TL]);
    let opp_meta = set(&[CellIndex3x3::MM]);
    // Me moved; Opp threatens on the mini board MM and MM completes an Opp line on the status map
    assert!(UltTTTHeuristic::is_direct_loss(
        TicTacToeStatus::Me,
        &empty,
        &empty,
        &opp_mini,
        &opp_meta,
        CellIndex3x3::MM
    ));
    // a different mini board is no direct loss
    assert!(!UltTTTHeuristic::is_direct_loss(
        TicTacToeStatus::Me,
        &empty,
        &empty,
        &opp_mini,
        &opp_meta,
        CellIndex3x3::TL
    ));
    // Opp moved: only Me's threats count
    assert!(!UltTTTHeuristic::is_direct_loss(
        TicTacToeStatus::Opp,
        &empty,
        &empty,
        &opp_mini,
        &opp_meta,
        CellIndex3x3::MM
    ));
    assert!(UltTTTHeuristic::is_direct_loss(
        TicTacToeStatus::Opp,
        &opp_mini,
        &opp_meta,
        &empty,
        &empty,
        CellIndex3x3::MM
    ));
    assert_eq!(
        UltTTTHeuristic::get_constraint_overlap(
            TicTacToeStatus::Me,
            &empty,
            &empty,
            &opp_mini,
            &opp_meta,
            CellIndex3x3::MM
        ),
        None
    );
}

#[test]
fn threat_overlap_ratio() {
    let last_meta = set(&[CellIndex3x3::TL, CellIndex3x3::BR]);
    let current = set(&[CellIndex3x3::TL, CellIndex3x3::MM, CellIndex3x3::TR]);
    assert_eq!(UltTTTHeuristic::get_threat_overlap_for_last_player(&last_meta, &current), (1, 3));
    assert_eq!(
        UltTTTHeuristic::get_threat_overlap_for_last_player(&last_meta, &CellIndexSet::new()),
        (0, 0)
    );
    // Me moved last: Me's status-map threats against Opp's mini-board threats
    let my_meta = last_meta;
    let opp_mini = current;
    let r = UltTTTHeuristic::get_constraint_overlap(
        TicTacToeStatus::Me,
        &CellIndexSet::new(),
        &my_meta,
        &opp_mini,
        &CellIndexSet::new(),
        CellIndex3x3::BM,
    );
    assert_eq!(r, Some((1, 3)));
    // Opp moved last: Opp's status-map threats against Me's mini-board threats
    let r = UltTTTHeuristic::get_constraint_overlap(
        TicTacToeStatus::Opp,
        &set(&[CellIndex3x3::MM, CellIndex3x3::TR]),
        &CellIndexSet::new(),
        &CellIndexSet::new(),
        &set(&[CellIndex3x3::MM]),
        CellIndex3x3::BM,
    );
    assert_eq!(r, Some((1, 2)));
}

#[test]
fn old_heuristic_direct_loss() {
    assert!(OldUltTTTHeuristic::is_direct_loss(TicTacToeStatus::Me, 0, 0, 1, 1));
    assert!(!OldUltTTTHeuristic::is_direct_loss(TicTacToeStatus::Me, 3, 3, 1, 0));
    assert!(!OldUltTTTHeuristic::is_direct_loss(TicTacToeStatus::Me, 3, 3, 0, 2));
    assert!(OldUltTTTHeuristic::is_direct_loss(TicTacToeStatus::Opp, 2, 1, 0, 0));
    assert!(!OldUltTTTHeuristic::is_direct_loss(TicTacToeStatus::Opp, 0, 1, 5, 5));
}

#[test]
fn plain_tree_links() {
    let mut t: PlainTree<&str, u8> = PlainTree::new(16);
    assert_eq!(t.root_id(), None);
    assert_eq!(t.init_root("root"), 0);
    assert_eq!(t.root_id(), Some(0));
    let a = t.add_child(0, 1, "a");
    let b = t.add_child(0, 2, "b");
    let c = t.add_child(a, 3, "c");
    assert_eq!((a, b, c), (1, 2, 3));
    assert_eq!(t.len(), 4);
    t.link_child(b, 4, c);
    assert_eq!(t.get_children(0), &[(1, 1), (2, 2)]);
    assert_eq!(t.get_children(b), &[(3, 4)]);
    assert_eq!(t.get_children(a), &[(3, 3)]);
    assert_eq!(*t.get_node(c), "c");
    *t.get_node_mut(c) = "d";
    assert_eq!(*t.get_node(c), "d");
    t.set_root(a);
    assert_eq!(t.root_id(), Some(a));
    assert_eq!(t.init_root("fresh"), 0);
    assert_eq!(t.len(), 1);
    assert!(t.get_children(0).is_empty());
}

#[test]
fn most_visited_child_last_on_ties() {
    assert_eq!(select_most_visited(&vec![]), None);
    assert_eq!(select_most_visited(&vec![3, 7, 2]), Some(1));
    assert_eq!(select_most_visited(&vec![5, 1, 5, 0]), Some(2));
    assert_eq!(select_most_visited(&vec![0]), Some(0));
}

#[test]
fn progressive_widening_counts() {
    // node full or nothing left: nothing to expand
    assert_eq!(expandable_count(&vec![true, true], 2, 2), 0);
    assert_eq!(expandable_count(&vec![], 5, 0), 0);
    // moves above the threshold, limited by room
    assert_eq!(expandable_count(&vec![true, true, true, false], 3, 1), 2);
    assert_eq!(expandable_count(&vec![true, false, true], 5, 0), 1);
    // at least one move even if the best is below the threshold
    assert_eq!(expandable_count(&vec![false, false], 5, 0), 1);
    assert_eq!(expandable_count(&vec![true, true], 10, 0), 2);
    assert!(should_expand(&vec![false, true], 3, 2));
    assert!(!should_expand(&vec![false, false], 3, 2));
    assert!(!should_expand(&vec![true], 3, 3));
}

#[test]
fn tree_children_then_grandchildren() {
    let mut t: PlainTree<&str, u8> = PlainTree::new(8);
    let root = t.init_root("root");
    let a = t.add_child(root, 1, "a");
    let b = t.add_child(root, 2, "b");
    let a1 = t.add_child(a, 3, "a1");
    let b1 = t.add_child(b, 4, "b1");
    let b2 = t.add_child(b, 5, "b2");
    let a1x = t.add_child(a1, 6, "a1x");
    assert_eq!(t.children_then_grandchildren(root), vec![a, b, a1, b1, b2]);
    assert_eq!(t.children_then_grandchildren(a), vec![a1, a1x]);
    assert_eq!(t.children_then_grandchildren(a1x), Vec::<usize>::new());
    // a node linked twice is listed twice
    t.link_child(root, 7, b1);
    assert_eq!(t.children_then_grandchildren(root), vec![a, b, b1, a1, b1, b2]);
}
