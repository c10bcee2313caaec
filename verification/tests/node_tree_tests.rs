use cg_ultimate_tic_tac_toe::legacy::node_tree::{
    BackTrack, IterSelf, LevelOrderTraversal, NodeTree, PostOrderTraversal, PreOrderTraversal,
};

/// root(0) -> a(1), b(2); a -> c(3), d(4); b -> e(5)
fn sample_tree() -> NodeTree<u32> {
    let mut tree = NodeTree::seed_root(10u32, 2);
    assert_eq!(tree.add_child(0, 1, 2), 1);
    assert_eq!(tree.add_child(0, 2, 1), 2);
    assert_eq!(tree.add_child(1, 3, 0), 3);
    assert_eq!(tree.add_child(1, 4, 0), 4);
    assert_eq!(tree.add_child(2, 5, 0), 5);
    tree
}

fn collect_pre(tree: &NodeTree<u32>, root: usize) -> Vec<usize> {
    let mut it = PreOrderTraversal::new(tree, root);
    let mut out = Vec::new();
    while let Some(n) = it.next() {
        out.push(n);
    }
    assert_eq!(it.next(), None);
    out
}

fn collect_post(tree: &NodeTree<u32>, root: usize) -> Vec<usize> {
    let mut it = PostOrderTraversal::new(tree, root);
    let mut out = Vec::new();
    while let Some(n) = it.next() {
        out.push(n);
    }
    assert_eq!(it.next(), None);
    out
}

fn collect_levels(
    tree: &NodeTree<u32>,
    root: usize,
    start: usize,
    end: Option<usize>,
) -> Vec<(usize, usize)> {
    let mut it = tree.iter_level_order_traversal_with_bordes(root, start, end);
    let mut out = Vec::new();
    while let Some(item) = it.next() {
        out.push(item);
    }
    assert_eq!(it.next(), None);
    out
}

#[test]
fn test_add_child_returns_existing_child_with_equal_value() {
    let mut tree = sample_tree();
    assert_eq!(tree.len(), 6);
    assert_eq!(tree.add_child(0, 2, 0), 2);
    assert_eq!(tree.add_child(1, 3, 0), 3);
    assert_eq!(tree.len(), 6);
    assert_eq!(tree.add_child(3, 3, 0), 6);
    assert_eq!(tree.len(), 7);
    assert_eq!(tree.get_level(6), 3);
    assert_eq!(tree.get_parent(6), Some(3));
}

#[test]
fn test_node_accessors() {
    let mut tree = sample_tree();
    assert_eq!(*tree.get_value(4), 4);
    assert_eq!(tree.get_level(0), 0);
    assert_eq!(tree.get_level(5), 2);
    assert_eq!(tree.get_parent(0), None);
    assert_eq!(tree.get_parent(5), Some(2));
    assert_eq!(tree.get_child(1, 1), Some(4));
    assert_eq!(tree.get_child(1, 2), None);
    assert_eq!(tree.len_children(0), 2);
    assert!(tree.is_leave(3));
    assert!(!tree.is_leave(2));
    *tree.get_mut_value(3) = 30;
    assert_eq!(*tree.get_value(3), 30);
}

#[test]
fn test_preorder_traversal() {
    let tree = sample_tree();
    assert_eq!(collect_pre(&tree, 0), vec![0, 1, 3, 4, 2, 5]);
    assert_eq!(collect_pre(&tree, 1), vec![1, 3, 4]);
    assert_eq!(collect_pre(&tree, 5), vec![5]);
}

#[test]
fn test_postorder_traversal() {
    let tree = sample_tree();
    assert_eq!(collect_post(&tree, 0), vec![3, 4, 1, 5, 2, 0]);
    assert_eq!(collect_post(&tree, 2), vec![5, 2]);
    assert_eq!(collect_post(&tree, 4), vec![4]);
}

#[test]
fn test_level_order_traversal() {
    let tree = sample_tree();
    assert_eq!(
        collect_levels(&tree, 0, 0, None),
        vec![(0, 0), (1, 1), (2, 1), (3, 2), (4, 2), (5, 2)]
    );
    assert_eq!(collect_levels(&tree, 0, 1, Some(1)), vec![(1, 1), (2, 1)]);
    assert_eq!(collect_levels(&tree, 0, 1, Some(2)), vec![(1, 1), (2, 1), (3, 2), (4, 2), (5, 2)]);
    assert_eq!(collect_levels(&tree, 0, 2, None), vec![(3, 2), (4, 2), (5, 2)]);
    assert_eq!(collect_levels(&tree, 0, 3, None), vec![]);
    assert_eq!(collect_levels(&tree, 1, 1, None), vec![(3, 1), (4, 1)]);
}

#[test]
fn test_level_order_traversal_ending_at_the_start_depth_zero_is_empty() {
    let tree = sample_tree();
    assert_eq!(collect_levels(&tree, 0, 0, Some(0)), vec![]);
    assert_eq!(collect_levels(&tree, 0, 0, Some(1)), vec![(0, 0), (1, 1), (2, 1)]);
}

#[test]
fn test_level_order_traversal_as_used_for_the_new_root_search() {
    let tree = sample_tree();
    let mut it = LevelOrderTraversal::new(&tree, 0, 1, Some(2));
    let found = loop {
        match it.next() {
            Some((node, _)) if *tree.get_value(node) == 4 => break Some(node),
            Some(_) => {}
            None => break None,
        }
    };
    assert_eq!(found, Some(4));
}

#[test]
fn test_back_track_and_children() {
    let tree = sample_tree();
    let mut back = BackTrack::new(&tree, 4);
    assert_eq!(back.next(), Some(4));
    assert_eq!(back.next(), Some(1));
    assert_eq!(back.next(), Some(0));
    assert_eq!(back.next(), None);
    let mut children = tree.iter_children(0);
    assert_eq!(children.len(), 2);
    assert_eq!(children.next(), Some(1));
    assert_eq!(children.next(), Some(2));
    assert_eq!(children.next(), None);
    assert_eq!(children.next(), None);
    let mut back = tree.iter_back_track(0);
    assert_eq!(back.next(), Some(0));
    assert_eq!(back.next(), None);
    let mut itself = IterSelf::new(3);
    assert_eq!(itself.next(), Some(3));
    assert_eq!(itself.next(), None);
}

#[test]
fn test_removing_children() {
    let mut tree = sample_tree();
    assert_eq!(tree.swap_remove_child(0, 5), None);
    assert_eq!(tree.swap_remove_child(0, 0), Some(1));
    assert_eq!(tree.len_children(0), 1);
    assert_eq!(tree.get_child(0, 0), Some(2));
    assert_eq!(collect_pre(&tree, 0), vec![0, 2, 5]);
    // the removed node keeps its link upwards
    assert_eq!(tree.get_parent(1), Some(0));

    let mut tree = sample_tree();
    tree.split_off_children(1, 1, true);
    assert_eq!(collect_pre(&tree, 1), vec![1, 4]);
    let mut tree = sample_tree();
    tree.split_off_children(1, 1, false);
    assert_eq!(collect_pre(&tree, 1), vec![1, 3]);
    tree.clear_children(0, 0);
    assert!(tree.is_leave(0));
    assert_eq!(collect_post(&tree, 0), vec![0]);
}
