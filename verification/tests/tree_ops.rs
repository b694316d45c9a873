use bstree::RemoveResult;
use bstree::Tree;
use bstree::TreeNode;
use bstree::TreeType;
use bstree::WeakRef;

fn in_order_walk(n: &TreeNode, out: &mut Vec<i64>) {
    if let Some(l) = &n.left {
        in_order_walk(l, out);
    }
    out.push(n.value);
    if let Some(r) = &n.right {
        in_order_walk(r, out);
    }
}

fn in_order(tree: &Tree) -> Vec<i64> {
    let mut out = Vec::new();
    in_order_walk(tree.root_node(), &mut out);
    out
}

#[test]
fn prelude_test() {
    println!("Start test......");
}

#[test]
fn tree_node_function_test() {
    let mut root = TreeNode::new(1);
    root.left = Some(Box::new(TreeNode::new(2)));
    root.right = Some(Box::new(TreeNode::new(3)));

    let host = Tree::new(4);
    let new_ref = host.find_value(4);
    let prev = root.set_left_child(&host, new_ref);
    assert_eq!(prev.map(|p| p.value), Some(2));
    assert_eq!(root.left.as_ref().map(|l| l.value), Some(4));
    assert_eq!(root.right.as_ref().map(|r| r.value), Some(3));
}

#[test]
fn tree_basic_function_test() {
    let mut tree = Tree::new(0);

    tree.insert_value(1);
    tree.insert_value(2);
    tree.insert_value(-2);
    tree.insert_value(-1);

    let ptr = tree.find_value(-1);
    let strong_ptr = ptr.upgrade(&tree).unwrap();
    assert_eq!(strong_ptr.value, -1);
}

#[test]
fn insert_duplicate_reports_false() {
    let mut tree = Tree::new(5);
    assert!(tree.insert_value(3));
    assert!(!tree.insert_value(3));
    assert_eq!(tree.size(), 2);
    assert_eq!(in_order(&tree), vec![3, 5]);
}

#[test]
fn find_after_insert_upgrades_to_value() {
    let mut tree = Tree::new(5);
    assert!(tree.insert_value(3));
    assert!(tree.insert_value(8));
    for v in [3, 5, 8] {
        let w = tree.find_value(v);
        let node = w.upgrade(&tree).expect("inserted value must be found");
        assert_eq!(node.value, v);
    }
}

#[test]
fn find_miss_reports_absent() {
    let mut tree = Tree::new(5);
    tree.insert_value(3);
    let w = tree.find_value(9);
    assert!(w.upgrade(&tree).is_none());
}

#[test]
fn remove_round_trip() {
    let mut tree = Tree::new(5);
    assert!(tree.insert_value(3));
    match tree.remove_value(3) {
        RemoveResult::Removed(n) => assert_eq!(n.value, 3),
        _ => panic!("inserted value must be removable"),
    }
    assert!(tree.find_value(3).upgrade(&tree).is_none());
    assert_eq!(tree.size(), 1);
}

#[test]
fn leaf_removal_preserves_sibling() {
    let mut tree = Tree::new(5);
    tree.insert_value(3);
    tree.insert_value(8);
    assert!(matches!(tree.remove_value(3), RemoveResult::Removed(_)));
    assert!(tree.root_node().left.is_none());
    let sibling = tree.find_value(8).upgrade(&tree).expect("sibling must survive");
    assert_eq!(sibling.value, 8);
}

#[test]
fn two_child_removal_preserves_order() {
    let mut tree = Tree::new(5);
    tree.insert_value(3);
    tree.insert_value(8);
    tree.insert_value(7);
    tree.insert_value(9);
    match tree.remove_value(8) {
        RemoveResult::Removed(n) => assert_eq!(n.value, 8),
        _ => panic!("value with two children must be removable"),
    }
    assert_eq!(in_order(&tree), vec![3, 5, 7, 9]);
    assert!(tree.find_value(8).upgrade(&tree).is_none());
}

#[test]
fn two_child_removal_with_deep_successor() {
    let mut tree = Tree::new(5);
    for v in [20, 10, 30, 25, 22] {
        assert!(tree.insert_value(v));
    }
    assert!(matches!(tree.remove_value(20), RemoveResult::Removed(_)));
    assert_eq!(in_order(&tree), vec![5, 10, 22, 25, 30]);
}

#[test]
fn one_child_removal_splices_child() {
    let mut tree = Tree::new(5);
    tree.insert_value(3);
    tree.insert_value(2);
    assert!(matches!(tree.remove_value(3), RemoveResult::Removed(_)));
    assert_eq!(in_order(&tree), vec![2, 5]);
}

#[test]
fn root_removal_keeps_tree_usable() {
    let mut tree = Tree::new(5);
    tree.insert_value(3);
    tree.insert_value(8);
    match tree.remove_value(5) {
        RemoveResult::Removed(n) => assert_eq!(n.value, 5),
        _ => panic!("root with children must be removable"),
    }
    assert_eq!(in_order(&tree), vec![3, 8]);
}

#[test]
fn remove_last_element_is_refused() {
    let mut tree = Tree::new(7);
    assert!(matches!(tree.remove_value(7), RemoveResult::LastElement));
    let survivor = tree.find_value(7).upgrade(&tree).expect("sole element must survive");
    assert_eq!(survivor.value, 7);
    assert_eq!(tree.size(), 1);
}

#[test]
fn remove_missing_reports_not_found() {
    let mut tree = Tree::new(5);
    tree.insert_value(3);
    assert!(matches!(tree.remove_value(4), RemoveResult::NotFound));
    assert_eq!(in_order(&tree), vec![3, 5]);
}

#[test]
fn stale_reference_upgrades_to_absent() {
    let mut tree = Tree::new(5);
    tree.insert_value(3);
    let w = tree.find_value(3);
    assert!(w.upgrade(&tree).is_some());
    assert!(matches!(tree.remove_value(3), RemoveResult::Removed(_)));
    assert!(w.upgrade(&tree).is_none());
}

#[test]
fn empty_reference_upgrades_to_absent() {
    let tree = Tree::new(5);
    assert!(WeakRef::empty().upgrade(&tree).is_none());
}

#[test]
fn extreme_values_are_ordered() {
    let mut tree = Tree::new(0);
    assert!(tree.insert_value(i64::MAX));
    assert!(tree.insert_value(i64::MIN));
    assert_eq!(in_order(&tree), vec![i64::MIN, 0, i64::MAX]);
}
