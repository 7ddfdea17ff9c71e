use spacerl::tree::{Tree, TreeHier, TreeIterator};
use std::collections::HashSet;

fn sample_tree() -> Tree<i32> {
    let mut tree = Tree::new();
    tree.insert(1, 0);
    tree.insert(2, 1);
    tree.insert(3, 0);
    tree.insert(4, 1);
    tree.insert(5, 2);
    tree.insert(6, 5);
    tree.insert(7, 4);
    tree
}

#[test]
fn test_tree_children() {
    let tree = sample_tree();

    assert_eq!(tree.get(0), None);
    assert_eq!(tree.get(1), Some(0));
    assert_eq!(tree.get(2), Some(1));
    assert_eq!(tree.get(3), Some(0));

    let mut children: Vec<_> = tree.children(0);
    children.sort();
    assert_eq!(children, vec![1, 3]);
    assert_eq!(tree.children(4), vec![7]);
    assert!(tree.children(7).is_empty());
}

#[test]
fn test_tree_children_deep() {
    let tree = sample_tree();

    let tests = vec![
        (0, vec![1, 2, 3, 4, 5, 6, 7]),
        (1, vec![2, 4, 5, 6, 7]),
        (2, vec![5, 6]),
        (3, vec![]),
        (4, vec![7]),
        (5, vec![6]),
        (6, vec![]),
        (7, vec![]),
    ];

    for (index, expected) in tests {
        let mut children = tree.children_deep(index);
        children.sort();
        assert_eq!(children, expected);
    }
}

#[test]
fn test_tree_parents() {
    let tree = sample_tree();

    let tests = vec![
        (0, vec![]),
        (1, vec![0]),
        (2, vec![1, 0]),
        (3, vec![0]),
        (4, vec![1, 0]),
        (5, vec![2, 1, 0]),
        (6, vec![5, 2, 1, 0]),
        (7, vec![4, 1, 0]),
    ];

    for (index, expected) in tests {
        let children = tree.parents(index);
        assert_eq!(children, expected);
    }
}

#[test]
fn test_tree_iter() {
    let mut tree = Tree::new();
    tree.insert(1, 0);
    tree.insert(2, 0);
    tree.insert(3, 1);

    for (id, parent) in tree.list_all() {
        match (id, parent) {
            (1, 0) | (2, 0) | (3, 1) => {}
            other => panic!("unexpected {:?}", other),
        }
    }
}

#[test]
fn test_find_roots() {
    let tree = sample_tree();
    assert_eq!(vec![0], tree.find_roots());
}

#[test]
fn test_tree_iter_empty() {
    let tree = Tree::<u32>::new();
    assert_eq!(0, tree.iter_hier().len());
}

#[test]
fn test_tree_iter_one() {
    let mut tree = Tree::new();
    tree.insert(1, 0);
    assert_tree_iter(&tree, vec![(None, 0, 0), (Some(0), 1, 1)]);
}

#[test]
fn test_tree_iter_two_roots() {
    let mut tree = Tree::new();
    tree.insert(1, 0);
    tree.insert(3, 2);
    assert_tree_iter_set(
        &tree,
        vec![(None, 0, 0), (Some(0), 1, 1), (None, 2, 0), (Some(2), 3, 1)].into_iter().collect(),
    );
}

#[test]
fn test_tree_iter_hier() {
    let mut tree = Tree::new();
    tree.insert(1, 0);
    tree.insert(2, 1);
    tree.insert(3, 0);
    tree.insert(4, 1);
    tree.insert(5, 2);
    tree.insert(6, 5);
    tree.insert(7, 4);
    tree.insert(9, 8);
    tree.insert(10, 8);

    let expected = vec![
        (None, 0, 0),
        (Some(0), 1, 1),
        (Some(1), 2, 2),
        (Some(2), 5, 3),
        (Some(5), 6, 4),
        (Some(1), 4, 2),
        (Some(4), 7, 3),
        (Some(0), 3, 1),
        (None, 8, 0),
        (Some(8), 9, 1),
        (Some(8), 10, 1),
    ];

    assert_tree_iter_set(&tree, expected.into_iter().collect());
}

#[test]
fn test_tree_iter_sequence_tree() {
    let mut tree = Tree::new();
    tree.insert(1, 0);
    tree.insert(2, 1);
    tree.insert(5, 2);

    let expected = vec![(None, 0, 0), (Some(0), 1, 1), (Some(1), 2, 2), (Some(2), 5, 3)];

    assert_tree_iter(&tree, expected);
}

fn assert_tree_iter(tree: &Tree<i32>, expected: Vec<(Option<i32>, i32, usize)>) {
    let list: Vec<TreeHier<i32>> = tree.iter_hier();

    for (i, e) in list.iter().enumerate() {
        let (exp_parent, exp_index, exp_deep) = expected[i];
        assert_eq!(exp_index, e.index, "bad index");
        assert_eq!(exp_parent, e.parent, "bad parent");
        assert_eq!(exp_deep, e.deep, "bad deep");
    }

    assert_eq!(expected.len(), list.len());
}

fn assert_tree_iter_set(tree: &Tree<i32>, expected: HashSet<(Option<i32>, i32, usize)>) {
    let list: Vec<TreeHier<i32>> = tree.iter_hier();

    for e in list.iter() {
        let value = (e.parent, e.index, e.deep);
        assert!(expected.contains(&value), "could not find {:?}", e);
    }

    assert_eq!(expected.len(), list.len());
}

#[test]
fn walk_lists_each_parent_before_its_children() {
    let tree = sample_tree();
    let list = tree.iter_hier();
    for (i, e) in list.iter().enumerate() {
        if let Some(p) = e.parent {
            assert!(list[..i].iter().any(|x| x.index == p));
        }
    }
}

#[test]
fn tree_iterator_hands_out_the_walk() {
    let tree = sample_tree();
    let mut it = TreeIterator::new(&tree);
    let mut seen = vec![];
    while let Some(e) = it.next() {
        seen.push((e.parent, e.index, e.deep));
    }
    assert_eq!(8, seen.len());
    assert_eq!((None, 0, 0), seen[0]);
    assert!(it.next().is_none());
}

#[test]
fn insert_and_remove_give_the_previous_parent() {
    let mut tree = Tree::new();
    assert_eq!(None, tree.insert(1, 0));
    assert_eq!(Some(0), tree.insert(1, 2));
    assert_eq!(Some(2), tree.remove(1));
    assert_eq!(None, tree.remove(1));
    assert_eq!(None, tree.get(1));
}

#[test]
fn parents_inclusive_starts_with_the_key() {
    let tree = sample_tree();
    assert_eq!(vec![6, 5, 2, 1, 0], tree.parents_inclusive(6));
}

#[test]
fn walk_is_depth_first() {
    let mut tree = Tree::new();
    for (k, p) in [(1, 0), (2, 1), (3, 0), (4, 1), (5, 2), (6, 5), (7, 4), (9, 8), (10, 8)] {
        tree.insert(k, p);
    }
    let list = tree.iter_hier();
    for (q, e) in list.iter().enumerate() {
        let below = |k: i32| tree.parents(k).contains(&e.index);
        let mut t = q + 1;
        while t < list.len() && below(list[t].index) {
            t += 1;
        }
        for rest in &list[t..] {
            assert!(!below(rest.index), "{:?} is cut off from {:?}", rest, e);
        }
    }
}

#[test]
fn parents_inclusive_walks_up_link_by_link() {
    let mut tree = Tree::new();
    tree.insert(6, 5);
    tree.insert(5, 2);
    tree.insert(2, 1);
    let chain = tree.parents_inclusive(6);
    assert_eq!(vec![6, 5, 2, 1], chain);
    for w in chain.windows(2) {
        assert_eq!(Some(w[1]), tree.get(w[0]));
    }
    assert_eq!(None, tree.get(*chain.last().unwrap()));
}
