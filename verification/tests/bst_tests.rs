use bst::bst::BST;
use bst::errors::BSTError;

fn sample_tree() -> BST {
    let mut t = BST::new();
    for v in [5u64, 3, 8, 1, 4, 7, 9] {
        t.insert(v);
    }
    t
}

#[test]
fn empty_tree_properties() {
    let t = BST::new();
    assert!(t.is_empty());
    assert!(!t.is_leaf());
    assert!(!t.has_left());
    assert!(!t.has_right());
    assert!(t.get_data().is_none());
    assert!(t.get_left().is_none());
    assert!(t.get_right().is_none());
    assert!(!t.has_value(1));
    assert!(t.get_value(1).is_none());
    assert_eq!(t.in_order(), Vec::<u64>::new());
}

#[test]
fn insert_then_has_value() {
    let mut t = BST::new();
    for v in [42u64, 7, 99, 0, u64::MAX] {
        t.insert(v);
        assert!(t.has_value(v));
    }
    for v in [42u64, 7, 99, 0, u64::MAX] {
        assert!(t.has_value(v));
    }
}

#[test]
fn insert_twice_is_idempotent() {
    let mut once = sample_tree();
    let mut twice = sample_tree();
    twice.insert(3);
    twice.insert(5);
    assert_eq!(once.in_order(), twice.in_order());
    assert_eq!(once.pre_order(), twice.pre_order());
    for v in 0u64..11 {
        assert_eq!(once.has_value(v), twice.has_value(v));
    }
    once.insert(5);
    assert_eq!(once.in_order(), twice.in_order());
}

#[test]
fn in_order_is_sorted_without_duplicates() {
    let mut t = BST::new();
    for v in [20u64, 4, 18, 4, 30, 1, 19, 20, 2] {
        t.insert(v);
    }
    let values = t.in_order();
    assert_eq!(values, vec![1, 2, 4, 18, 19, 20, 30]);
    for pair in values.windows(2) {
        assert!(pair[0] < pair[1]);
    }
}

#[test]
fn scenario_seven_values() {
    let mut t = sample_tree();
    assert_eq!(t.in_order(), vec![1, 3, 4, 5, 7, 8, 9]);
    assert_eq!(t.delete(5), Ok(()));
    assert_eq!(t.get_data(), Some(&7));
    assert_eq!(t.in_order(), vec![1, 3, 4, 7, 8, 9]);
    assert!(!t.has_value(5));
}

#[test]
fn delete_missing_value_leaves_tree_unchanged() {
    let mut t = sample_tree();
    let before = t.in_order();
    let r = t.delete(6);
    assert!(matches!(r, Err(BSTError::UnfoundValue(_))));
    assert_eq!(t.in_order(), before);
}

#[test]
fn delete_on_empty_tree_fails_with_empty_tree() {
    let mut t = BST::new();
    assert_eq!(t.delete(1), Err(BSTError::EmptyTree));
    assert!(t.is_empty());
}

#[test]
fn delete_root_of_singleton_empties_the_tree() {
    let mut t = BST::from(10);
    assert_eq!(t.delete(10), Ok(()));
    assert!(t.is_empty());
    assert!(!t.has_value(10));
}

#[test]
fn delete_leaf_node() {
    let mut t = sample_tree();
    assert_eq!(t.delete(1), Ok(()));
    assert_eq!(t.in_order(), vec![3, 4, 5, 7, 8, 9]);
}

#[test]
fn delete_node_with_single_child() {
    let mut t = BST::new();
    for v in [5u64, 3, 1] {
        t.insert(v);
    }
    assert_eq!(t.delete(3), Ok(()));
    assert_eq!(t.in_order(), vec![1, 5]);
}

#[test]
fn get_min_of_tree_and_of_empty() {
    assert_eq!(BST::new().get_min(), Err(BSTError::EmptyTree));
    assert_eq!(sample_tree().get_min(), Ok(1));
    assert_eq!(BST::from(10).get_min(), Ok(10));
}

#[test]
fn error_messages() {
    assert_eq!(BSTError::EmptyTree.message(), "BST Tree is empty");
    assert_eq!(BSTError::UnfoundValue("no such value").message(), "no such value");
}

#[test]
fn from_builds_a_leaf() {
    let t = BST::from(10);
    assert!(!t.is_empty());
    assert!(t.is_leaf());
    assert_eq!(t.get_data(), Some(&10));
    assert!(t.has_value(10));
    assert!(!t.has_value(9));
}

#[test]
fn comparison_is_root_only() {
    let empty = BST::new();
    let small = BST::from(1);
    let mut deep = BST::from(1);
    deep.insert(2);
    assert_eq!(BST::new(), empty);
    assert_eq!(small, deep);
    assert_ne!(small, BST::from(2));
    assert_ne!(empty, small);
    assert!(empty < small);
    assert!(BST::from(1) < BST::from(2));
    assert!(BST::from(2) > deep);
}

#[test]
fn pre_and_post_order_traversals() {
    let t = sample_tree();
    assert_eq!(t.pre_order(), vec![5, 3, 1, 4, 8, 7, 9]);
    assert_eq!(t.post_order(), vec![1, 4, 3, 7, 9, 8, 5]);
}

#[test]
fn get_value_finds_the_stored_value() {
    let t = sample_tree();
    assert_eq!(t.get_value(4), Some(&4));
    assert_eq!(t.get_value(6), None);
}

#[test]
fn structural_queries_on_sample() {
    let t = sample_tree();
    assert!(!t.is_leaf());
    assert!(t.has_left());
    assert!(t.has_right());
    let left = t.get_left().unwrap();
    assert_eq!(left.get_data(), Some(&3));
    let right = t.get_right().unwrap();
    assert_eq!(right.get_data(), Some(&8));
}

#[test]
fn clone_copies_every_node() {
    let t = sample_tree();
    let copy = t.clone();
    assert_eq!(copy.in_order(), t.in_order());
    assert_eq!(copy.pre_order(), t.pre_order());
}
