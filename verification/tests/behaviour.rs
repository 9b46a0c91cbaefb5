use binary_tree::{BinaryTree, Node};
use std::cmp::Ordering;

/// A value that is ordered by its key alone; the label rides along.
#[derive(Debug, Clone)]
struct Labelled {
    key: u32,
    label: &'static str,
}

impl PartialEq for Labelled {
    fn eq(&self, other: &Self) -> bool {
        self.key == other.key
    }
}

impl Eq for Labelled {}

impl PartialOrd for Labelled {
    fn partial_cmp(&self, other: &Self) -> Option<Ordering> {
        Some(self.cmp(other))
    }
}

impl Ord for Labelled {
    fn cmp(&self, other: &Self) -> Ordering {
        self.key.cmp(&other.key)
    }
}

fn links<T: Ord>(node: &Node<T>) -> (bool, bool) {
    (node.has_left(), node.has_right())
}

fn tree_of(values: &[i32]) -> BinaryTree<i32> {
    let mut tree = BinaryTree::new(None);
    for v in values {
        tree.insert(*v);
    }
    tree
}

#[test]
fn search_in_empty_tree_finds_nothing() {
    let tree = BinaryTree::<i32>::new(None);

    assert!(tree.search(0).is_none());
    assert!(tree.search(5).is_none());
    assert!(tree.search(i32::MIN).is_none());
}

#[test]
fn insert_into_empty_tree_makes_the_root() {
    let mut tree = BinaryTree::<i32>::new(None);
    tree.insert(7);

    let root = tree.root().unwrap();
    assert_eq!(root.value(), &7);
    assert_eq!(links(root), (false, false));
    assert_eq!(root.value, 7);
}

#[test]
fn new_with_a_value_equals_insert_into_empty() {
    let seeded = BinaryTree::new(Some(9));
    let mut grown = BinaryTree::new(None);
    grown.insert(9);

    assert_eq!(seeded.root().unwrap().value(), grown.root().unwrap().value());
    assert_eq!(links(seeded.root().unwrap()), links(grown.root().unwrap()));
}

#[test]
fn search_finds_exactly_what_was_inserted() {
    let inserted = [50, 20, 70, 10, 30, 60, 80, 20, 50, 65, 10, 5];
    let tree = tree_of(&inserted);

    for v in -10..100 {
        let found = tree.search(v);
        assert_eq!(found.is_some(), inserted.contains(&v), "value {}", v);
        if let Some(node) = found {
            assert_eq!(node.value(), &v);
        }
    }
}

#[test]
fn search_returns_the_node_with_the_sought_value() {
    let tree = tree_of(&[8, 3, 10, 1, 6, 14, 4, 7, 13]);

    assert_eq!(tree.search(8).unwrap().value(), &8);
    assert_eq!(tree.search(6).unwrap().value(), &6);
    assert_eq!(tree.search(13).unwrap().value(), &13);
    assert!(tree.search(2).is_none());
    assert!(tree.search(9).is_none());
    assert!(tree.search(15).is_none());
}

#[test]
fn shape_follows_the_order_of_insertion() {
    let tree = tree_of(&[8, 3, 10, 1, 6, 14, 4, 7, 13]);

    assert_eq!(links(tree.search(8).unwrap()), (true, true));
    assert_eq!(links(tree.search(3).unwrap()), (true, true));
    assert_eq!(links(tree.search(10).unwrap()), (false, true));
    assert_eq!(links(tree.search(1).unwrap()), (false, false));
    assert_eq!(links(tree.search(6).unwrap()), (true, true));
    assert_eq!(links(tree.search(14).unwrap()), (true, false));
    assert_eq!(links(tree.search(4).unwrap()), (false, false));
    assert_eq!(links(tree.search(7).unwrap()), (false, false));
    assert_eq!(links(tree.search(13).unwrap()), (false, false));
}

#[test]
fn same_values_in_another_order_give_another_shape() {
    let balanced = tree_of(&[2, 1, 3]);
    let chain = tree_of(&[1, 2, 3]);

    assert_eq!(balanced.root().unwrap().value(), &2);
    assert_eq!(links(balanced.root().unwrap()), (true, true));

    assert_eq!(chain.root().unwrap().value(), &1);
    assert_eq!(links(chain.root().unwrap()), (false, true));
    assert_eq!(links(chain.search(2).unwrap()), (false, true));
    assert_eq!(links(chain.search(3).unwrap()), (false, false));
}

#[test]
fn smaller_values_go_left_and_larger_values_go_right() {
    let mut tree = BinaryTree::new(Some(100));
    tree.insert(50);
    assert_eq!(links(tree.root().unwrap()), (true, false));
    tree.insert(150);
    assert_eq!(links(tree.root().unwrap()), (true, true));

    tree.insert(75);
    assert_eq!(links(tree.search(50).unwrap()), (false, true));
    tree.insert(125);
    assert_eq!(links(tree.search(150).unwrap()), (true, false));
    assert_eq!(links(tree.search(75).unwrap()), (false, false));
    assert_eq!(links(tree.search(125).unwrap()), (false, false));
}

#[test]
fn inserting_a_present_value_changes_no_link() {
    let values = [8, 3, 10, 1, 6, 14, 4, 7, 13];
    let mut tree = tree_of(&values);
    let before: Vec<(bool, bool)> = values.iter().map(|v| links(tree.search(*v).unwrap())).collect();

    for v in values {
        tree.insert(v);
        let after: Vec<(bool, bool)> =
            values.iter().map(|w| links(tree.search(*w).unwrap())).collect();
        assert_eq!(before, after, "after inserting {} again", v);
    }
    assert_eq!(tree.root().unwrap().value(), &8);
}

#[test]
fn inserting_the_root_value_again_keeps_a_single_node() {
    let mut tree = BinaryTree::new(Some(5));
    tree.insert(5);
    tree.insert(5);

    let root = tree.root().unwrap();
    assert_eq!(root.value(), &5);
    assert_eq!(links(root), (false, false));
}

#[test]
fn the_first_of_two_tied_values_stays() {
    let mut tree = BinaryTree::new(None);
    tree.insert(Labelled { key: 2, label: "first" });
    tree.insert(Labelled { key: 1, label: "low" });
    tree.insert(Labelled { key: 2, label: "second" });
    tree.insert(Labelled { key: 1, label: "lower" });

    let root = tree.root().unwrap();
    assert_eq!(root.value().label, "first");
    assert_eq!(links(root), (true, false));

    let found = tree.search(Labelled { key: 1, label: "sought" }).unwrap();
    assert_eq!(found.value().key, 1);
    assert_eq!(found.value().label, "low");
    assert_eq!(links(found), (false, false));

    assert!(tree.search(Labelled { key: 3, label: "sought" }).is_none());
}

#[test]
fn ascending_insertion_makes_a_chain_to_the_right() {
    let mut tree = BinaryTree::new(None);
    for v in 0..500u32 {
        tree.insert(v);
    }

    assert_eq!(tree.root().unwrap().value(), &0);
    for v in 0..499u32 {
        assert_eq!(links(tree.search(v).unwrap()), (false, true), "value {}", v);
    }
    assert_eq!(links(tree.search(499).unwrap()), (false, false));
    assert!(tree.search(500).is_none());
}

#[test]
fn descending_insertion_makes_a_chain_to_the_left() {
    let mut tree = BinaryTree::new(None);
    for v in (0..500i64).rev() {
        tree.insert(v);
    }

    assert_eq!(tree.root().unwrap().value(), &499);
    for v in 1..500i64 {
        assert_eq!(links(tree.search(v).unwrap()), (true, false), "value {}", v);
    }
    assert_eq!(links(tree.search(0).unwrap()), (false, false));
    assert!(tree.search(-1).is_none());
}

#[test]
fn every_value_is_found_whatever_the_order_of_insertion() {
    // A fixed permutation of 0..257: multiples of 101 modulo the prime 257.
    let mut tree = BinaryTree::new(None);
    let mut inserted = Vec::new();
    for i in 0..257u32 {
        let v = (i * 101) % 257;
        tree.insert(v);
        inserted.push(v);
        for w in &inserted {
            assert_eq!(tree.search(*w).unwrap().value(), w);
        }
    }
    for v in 0..257u32 {
        assert!(tree.search(v).is_some());
    }
    assert!(tree.search(257).is_none());
}

#[test]
fn extreme_integers_are_ordered_like_the_others() {
    let tree = tree_of(&[0, i32::MAX, i32::MIN, -1, 1]);

    assert_eq!(links(tree.root().unwrap()), (true, true));
    assert_eq!(links(tree.search(i32::MAX).unwrap()), (true, false));
    assert_eq!(links(tree.search(i32::MIN).unwrap()), (false, true));
    assert_eq!(links(tree.search(-1).unwrap()), (false, false));
    assert_eq!(links(tree.search(1).unwrap()), (false, false));
}

#[test]
fn strings_are_ordered_as_strings() {
    let mut tree = BinaryTree::new(Some(String::from("m")));
    tree.insert(String::from("b"));
    tree.insert(String::from("x"));
    tree.insert(String::from("ba"));

    assert_eq!(links(tree.root().unwrap()), (true, true));
    assert_eq!(links(tree.search(String::from("b")).unwrap()), (false, true));
    assert_eq!(tree.search(String::from("ba")).unwrap().value(), "ba");
    assert!(tree.search(String::from("a")).is_none());
    assert!(tree.search(String::from("")).is_none());
}

#[test]
fn tuples_are_ordered_field_by_field() {
    let mut tree = BinaryTree::new(None);
    tree.insert((1u8, 5u8));
    tree.insert((1u8, 2u8));
    tree.insert((0u8, 9u8));
    tree.insert((1u8, 7u8));

    assert_eq!(links(tree.root().unwrap()), (true, true));
    assert_eq!(links(tree.search((1, 2)).unwrap()), (true, false));
    assert_eq!(links(tree.search((0, 9)).unwrap()), (false, false));
    assert_eq!(links(tree.search((1, 7)).unwrap()), (false, false));
    assert!(tree.search((0, 5)).is_none());
}
