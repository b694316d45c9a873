use bstree::RemoveResult;
use bstree::Tree;
use bstree::TreeNode;
use bstree::TreeType;

#[test]
fn insert_node_attaches_whole_subtree() {
    let mut tree = Tree::new(5);
    let node = TreeNode {
        value: 8,
        left: Some(Box::new(TreeNode::new(7))),
        right: Some(Box::new(TreeNode::new(9))),
    };
    assert!(tree.insert_node(node));
    assert_eq!(tree.size(), 4);
    for v in [5, 7, 8, 9] {
        assert!(tree.find_value(v).upgrade(&tree).is_some());
    }
}

#[test]
fn insert_node_rejects_duplicate_value() {
    let mut tree = Tree::new(5);
    assert!(!tree.insert_node(TreeNode::new(5)));
    assert_eq!(tree.size(), 1);
}

#[test]
fn insert_node_rejects_overlapping_span() {
    let mut tree = Tree::new(5);
    let node = TreeNode {
        value: 8,
        left: Some(Box::new(TreeNode::new(2))),
        right: None,
    };
    assert!(!tree.insert_node(node));
    assert_eq!(tree.size(), 1);
    assert!(tree.find_value(8).upgrade(&tree).is_none());
}

#[test]
fn insert_node_rejects_disordered_node() {
    let mut tree = Tree::new(5);
    let node = TreeNode {
        value: 8,
        left: Some(Box::new(TreeNode::new(9))),
        right: None,
    };
    assert!(!tree.insert_node(node));
    assert_eq!(tree.size(), 1);
}

#[test]
fn new_with_children_attaches_live_targets() {
    let mut tree = Tree::new(4);
    tree.insert_value(2);
    tree.insert_value(6);
    let l = tree.find_value(2);
    let r = tree.find_value(6);
    let n = TreeNode::new_with_children(5, &tree, l, r);
    assert_eq!(n.value, 5);
    assert_eq!(n.left.as_ref().map(|c| c.value), Some(2));
    assert_eq!(n.right.as_ref().map(|c| c.value), Some(6));
}

#[test]
fn new_with_children_leaves_stale_slot_empty() {
    let mut tree = Tree::new(4);
    tree.insert_value(2);
    tree.insert_value(6);
    let stale = tree.find_value(2);
    assert!(matches!(tree.remove_value(2), RemoveResult::Removed(_)));
    let live = tree.find_value(6);
    let n = TreeNode::new_with_children(5, &tree, stale, live);
    assert!(n.left.is_none());
    assert_eq!(n.right.as_ref().map(|c| c.value), Some(6));
}

#[test]
fn set_right_child_swaps_and_returns_previous() {
    let mut node = TreeNode::new(1);
    node.right = Some(Box::new(TreeNode::new(3)));

    let host = Tree::new(4);
    let new_ref = host.find_value(4);
    let prev = node.set_right_child(&host, new_ref);
    assert_eq!(prev.map(|p| p.value), Some(3));
    assert_eq!(node.right.as_ref().map(|r| r.value), Some(4));
    assert!(node.left.is_none());
}

#[test]
fn set_left_child_with_stale_reference_clears_slot() {
    let mut node = TreeNode::new(1);
    node.left = Some(Box::new(TreeNode::new(0)));

    let mut host = Tree::new(4);
    host.insert_value(9);
    let stale = host.find_value(9);
    assert!(matches!(host.remove_value(9), RemoveResult::Removed(_)));
    let prev = node.set_left_child(&host, stale);
    assert_eq!(prev.map(|p| p.value), Some(0));
    assert!(node.left.is_none());
}

#[test]
fn duplicate_copies_the_whole_subtree() {
    let node = TreeNode {
        value: 5,
        left: Some(Box::new(TreeNode::new(3))),
        right: Some(Box::new(TreeNode {
            value: 8,
            left: Some(Box::new(TreeNode::new(7))),
            right: None,
        })),
    };
    let copy = node.duplicate();
    assert_eq!(copy.value, 5);
    assert_eq!(copy.left.as_ref().map(|l| l.value), Some(3));
    let right = copy.right.as_ref().expect("right child must be copied");
    assert_eq!(right.value, 8);
    assert_eq!(right.left.as_ref().map(|l| l.value), Some(7));
    assert!(right.right.is_none());
}
