use todo_core::entry::Entry;
use todo_core::topology::Position;
use todo_core::tree::{NodeInfo, Tree, TreeError};

fn entry(name: &str) -> Entry {
    Entry { name: String::from(name), complete: false }
}

/// root(0) with children a(1), b(2), c(3); b has children d(4), e(5); d has child f(6).
fn sample() -> Tree<Entry> {
    let mut t = Tree::new_with_root(entry("root"));
    assert_eq!(t.new_node(entry("a"), Position::LastChild, 0), Ok(1));
    assert_eq!(t.new_node(entry("b"), Position::LastChild, 0), Ok(2));
    assert_eq!(t.new_node(entry("c"), Position::LastChild, 0), Ok(3));
    assert_eq!(t.new_node(entry("d"), Position::LastChild, 2), Ok(4));
    assert_eq!(t.new_node(entry("e"), Position::LastChild, 2), Ok(5));
    assert_eq!(t.new_node(entry("f"), Position::LastChild, 4), Ok(6));
    t
}

fn names(t: &Tree<Entry>, ids: &[usize]) -> Vec<String> {
    ids.iter().map(|&i| t.data_at(i).unwrap().name.clone()).collect()
}

#[test]
fn a_new_tree_is_its_root() {
    let t = Tree::new_with_root(entry("only"));
    assert_eq!(t.get_root(), Some(0));
    assert!(t.contains(0));
    assert!(!t.contains(1));
    assert_eq!(t.parent_of(0), Ok(None));
    assert_eq!(t.children_of(0), Ok(vec![]));
    assert_eq!(t.descendants_of(0), Ok(vec![]));
    assert_eq!(t.sub_tree(0), Ok(vec![0]));
    assert_eq!(t.data_at(0).unwrap().name, "only");
}

#[test]
fn insert_at_each_position() {
    let mut t = sample();
    let first = t.new_node(entry("first"), Position::FirstChild, 0).unwrap();
    assert_eq!(t.children_of(0), Ok(vec![first, 1, 2, 3]));
    let before = t.new_node(entry("before b"), Position::SiblingBefore, 2).unwrap();
    assert_eq!(t.children_of(0), Ok(vec![first, 1, before, 2, 3]));
    let after = t.new_node(entry("after b"), Position::SiblingAfter, 2).unwrap();
    assert_eq!(t.children_of(0), Ok(vec![first, 1, before, 2, after, 3]));
    let last = t.new_node(entry("last"), Position::SiblingAfter, 3).unwrap();
    assert_eq!(t.children_of(0), Ok(vec![first, 1, before, 2, after, 3, last]));
    assert_eq!(t.parent_of(before), Ok(Some(0)));
    assert_eq!(t.children_of(before), Ok(vec![]));
    assert_eq!(t.data_at(after).unwrap().name, "after b");
}

#[test]
fn insert_is_refused() {
    let mut t = sample();
    assert_eq!(t.new_node(entry("x"), Position::LastChild, 99), Err(TreeError::NotFound));
    assert_eq!(t.new_node(entry("x"), Position::SiblingBefore, 99), Err(TreeError::NotFound));
    assert_eq!(t.new_node(entry("x"), Position::SiblingBefore, 0), Err(TreeError::InvalidPosition));
    assert_eq!(t.new_node(entry("x"), Position::SiblingAfter, 0), Err(TreeError::InvalidPosition));
    assert_eq!(t.sub_tree(0), Ok(vec![0, 1, 2, 4, 6, 5, 3]));
}

#[test]
fn queries_on_a_missing_node() {
    let mut t = sample();
    assert_eq!(t.parent_of(42), Err(TreeError::NotFound));
    assert_eq!(t.children_of(42), Err(TreeError::NotFound));
    assert_eq!(t.child_count(42), Err(TreeError::NotFound));
    assert_eq!(t.descendants_of(42), Err(TreeError::NotFound));
    assert_eq!(t.sub_tree(42), Err(TreeError::NotFound));
    assert_eq!(t.sub_tree_depth(42, 3), Err(TreeError::NotFound));
    assert_eq!(t.sub_tree_depth_info(42, 3), Err(TreeError::NotFound));
    assert!(matches!(t.data_at(42), Err(TreeError::NotFound)));
    assert!(matches!(t.data_at_mut(42), Err(TreeError::NotFound)));
    assert!(!t.is_within(42, 0));
    assert!(!t.is_within(0, 42));
}

#[test]
fn walks_are_in_pre_order() {
    let t = sample();
    assert_eq!(t.sub_tree_depth(0, 0), Ok(vec![0]));
    assert_eq!(t.sub_tree_depth(0, 1), Ok(vec![0, 1, 2, 3]));
    assert_eq!(t.sub_tree_depth(0, 2), Ok(vec![0, 1, 2, 4, 5, 3]));
    assert_eq!(t.sub_tree_depth(0, 3), Ok(vec![0, 1, 2, 4, 6, 5, 3]));
    assert_eq!(t.sub_tree_depth(0, usize::MAX), Ok(vec![0, 1, 2, 4, 6, 5, 3]));
    assert_eq!(t.sub_tree_depth(2, 1), Ok(vec![2, 4, 5]));
    assert_eq!(t.sub_tree_depth(6, 5), Ok(vec![6]));
    assert_eq!(t.descendants_of(2), Ok(vec![4, 6, 5]));
    assert_eq!(t.descendants_of(0), Ok(vec![1, 2, 4, 6, 5, 3]));
    assert_eq!(t.descendants_of(3), Ok(vec![]));
    assert_eq!(names(&t, &t.sub_tree(2).unwrap()), vec!["b", "d", "f", "e"]);
}

#[test]
fn listing_tells_depth_and_children() {
    let t = sample();
    assert_eq!(
        t.sub_tree_depth_info(2, 1),
        Ok(vec![
            NodeInfo { id: 2, depth: 0, child_count: 2 },
            NodeInfo { id: 4, depth: 1, child_count: 1 },
            NodeInfo { id: 5, depth: 1, child_count: 0 },
        ])
    );
    assert_eq!(
        t.sub_tree_depth_info(0, 3).unwrap()[4],
        NodeInfo { id: 6, depth: 3, child_count: 0 }
    );
    assert_eq!(t.sub_tree_depth_info(4, 0), Ok(vec![NodeInfo { id: 4, depth: 0, child_count: 1 }]));
}

#[test]
fn within_means_at_or_below() {
    let t = sample();
    assert!(t.is_within(0, 6));
    assert!(t.is_within(2, 6));
    assert!(t.is_within(6, 6));
    assert!(!t.is_within(6, 2));
    assert!(!t.is_within(1, 6));
    assert!(!t.is_within(3, 5));
}

#[test]
fn remove_takes_the_whole_subtree() {
    let mut t = sample();
    assert_eq!(t.remove(2), Ok(()));
    assert_eq!(t.sub_tree(0), Ok(vec![0, 1, 3]));
    for gone in [2, 4, 5, 6] {
        assert!(!t.contains(gone));
        assert_eq!(t.parent_of(gone), Err(TreeError::NotFound));
    }
    assert_eq!(t.children_of(0), Ok(vec![1, 3]));
    let new = t.new_node(entry("new"), Position::LastChild, 1).unwrap();
    for old in [0, 1, 3] {
        assert_ne!(new, old);
    }
    assert_eq!(t.sub_tree(0), Ok(vec![0, 1, new, 3]));
}

#[test]
fn remove_is_refused() {
    let mut t = sample();
    assert_eq!(t.remove(0), Err(TreeError::CannotRemoveRoot));
    assert_eq!(t.remove(77), Err(TreeError::NotFound));
    assert_eq!(t.remove(6), Ok(()));
    assert_eq!(t.remove(6), Err(TreeError::NotFound));
    assert_eq!(t.sub_tree(0), Ok(vec![0, 1, 2, 4, 5, 3]));
}

#[test]
fn move_to_each_position() {
    let mut t = sample();
    assert_eq!(t.move_to(4, Position::FirstChild, 0), Ok(()));
    assert_eq!(t.sub_tree(0), Ok(vec![0, 4, 6, 1, 2, 5, 3]));
    assert_eq!(t.parent_of(4), Ok(Some(0)));
    assert_eq!(t.move_to(4, Position::LastChild, 3), Ok(()));
    assert_eq!(t.sub_tree(0), Ok(vec![0, 1, 2, 5, 3, 4, 6]));
    assert_eq!(t.move_to(3, Position::SiblingBefore, 1), Ok(()));
    assert_eq!(t.sub_tree(0), Ok(vec![0, 3, 4, 6, 1, 2, 5]));
    assert_eq!(t.move_to(3, Position::SiblingAfter, 1), Ok(()));
    assert_eq!(t.sub_tree(0), Ok(vec![0, 1, 3, 4, 6, 2, 5]));
    assert_eq!(
        t.sub_tree_depth_info(0, 5).unwrap()[3],
        NodeInfo { id: 4, depth: 2, child_count: 1 }
    );
}

#[test]
fn move_among_siblings() {
    let mut t = sample();
    assert_eq!(t.move_to(1, Position::SiblingAfter, 3), Ok(()));
    assert_eq!(t.children_of(0), Ok(vec![2, 3, 1]));
    assert_eq!(t.move_to(1, Position::SiblingBefore, 3), Ok(()));
    assert_eq!(t.children_of(0), Ok(vec![2, 1, 3]));
    assert_eq!(t.move_to(3, Position::FirstChild, 0), Ok(()));
    assert_eq!(t.children_of(0), Ok(vec![3, 2, 1]));
    assert_eq!(t.move_to(3, Position::LastChild, 0), Ok(()));
    assert_eq!(t.children_of(0), Ok(vec![2, 1, 3]));
    assert_eq!(t.move_to(1, Position::SiblingAfter, 2), Ok(()));
    assert_eq!(t.children_of(0), Ok(vec![2, 1, 3]));
}

#[test]
fn move_into_itself_is_a_cycle() {
    let mut t = sample();
    let all = [
        Position::FirstChild,
        Position::LastChild,
        Position::SiblingBefore,
        Position::SiblingAfter,
    ];
    for pos in all {
        assert_eq!(t.move_to(2, pos, 2), Err(TreeError::CycleError));
        for below in t.descendants_of(2).unwrap() {
            assert_eq!(t.move_to(2, pos, below), Err(TreeError::CycleError));
        }
        for any in t.sub_tree(0).unwrap() {
            assert_eq!(t.move_to(0, pos, any), Err(TreeError::CycleError));
        }
    }
    assert_eq!(t.sub_tree(0), Ok(vec![0, 1, 2, 4, 6, 5, 3]));
}

#[test]
fn move_is_refused() {
    let mut t = sample();
    assert_eq!(t.move_to(99, Position::LastChild, 0), Err(TreeError::NotFound));
    assert_eq!(t.move_to(1, Position::LastChild, 99), Err(TreeError::NotFound));
    assert_eq!(t.move_to(1, Position::SiblingBefore, 0), Err(TreeError::InvalidPosition));
    assert_eq!(t.move_to(1, Position::SiblingAfter, 0), Err(TreeError::InvalidPosition));
    assert_eq!(t.sub_tree(0), Ok(vec![0, 1, 2, 4, 6, 5, 3]));
}

#[test]
fn clone_copies_the_shape() {
    let mut t = sample();
    t.data_at_mut(4).unwrap().complete = true;
    let copy = t.clone_to(2, Position::LastChild, 1).unwrap();
    let copied = t.sub_tree(copy).unwrap();
    assert_eq!(copied.len(), 4);
    assert_eq!(names(&t, &copied), vec!["b", "d", "f", "e"]);
    assert_eq!(t.sub_tree(2), Ok(vec![2, 4, 6, 5]));
    for id in &copied {
        assert!(![0usize, 1, 2, 3, 4, 5, 6].contains(id));
    }
    let info = t.sub_tree_depth_info(copy, 9).unwrap();
    let counts: Vec<usize> = info.iter().map(|i| i.child_count).collect();
    let depths: Vec<usize> = info.iter().map(|i| i.depth).collect();
    assert_eq!(counts, vec![2, 1, 0, 0]);
    assert_eq!(depths, vec![0, 1, 2, 1]);
    assert!(t.data_at(copied[1]).unwrap().complete);
    assert!(!t.data_at(copied[0]).unwrap().complete);
    assert_eq!(t.children_of(1), Ok(vec![copy]));
    assert_eq!(t.parent_of(copy), Ok(Some(1)));
    t.data_at_mut(copy).unwrap().name = String::from("changed");
    assert_eq!(t.data_at(2).unwrap().name, "b");
}

#[test]
fn clone_below_itself() {
    let mut t = sample();
    let copy = t.clone_to(2, Position::FirstChild, 4).unwrap();
    assert_eq!(t.children_of(4), Ok(vec![copy, 6]));
    assert_eq!(names(&t, &t.sub_tree(copy).unwrap()), vec!["b", "d", "f", "e"]);
    assert_eq!(t.sub_tree(0).unwrap().len(), 11);
    let whole = t.clone_to(0, Position::LastChild, 0).unwrap();
    assert_eq!(t.sub_tree(whole).unwrap().len(), 11);
    assert_eq!(t.sub_tree(0).unwrap().len(), 22);
    let beside = t.clone_to(2, Position::SiblingAfter, 2).unwrap();
    assert_eq!(t.children_of(0), Ok(vec![1, 2, beside, 3, whole]));
}

#[test]
fn clone_is_refused() {
    let mut t = sample();
    assert_eq!(t.clone_to(99, Position::LastChild, 0), Err(TreeError::NotFound));
    assert_eq!(t.clone_to(1, Position::LastChild, 99), Err(TreeError::NotFound));
    assert_eq!(t.clone_to(1, Position::SiblingBefore, 0), Err(TreeError::InvalidPosition));
    assert_eq!(t.sub_tree(0), Ok(vec![0, 1, 2, 4, 6, 5, 3]));
}

#[test]
fn stored_bytes() {
    let mut t = Tree::new_with_root(entry("ab"));
    let c = t.new_node(entry("é"), Position::LastChild, 0).unwrap();
    t.data_at_mut(c).unwrap().complete = true;
    assert!(t.can_encode());
    assert_eq!(
        t.into_bytes(),
        vec![
            0, 0, 0, 2, b'a', b'b', 0, 0, 0, 0, 1, // root
            0, 0, 0, 2, 0xC3, 0xA9, 1, 0, 0, 0, 0, // child
        ]
    );
}

#[test]
fn stored_and_read_back() {
    let mut t = sample();
    t.data_at_mut(4).unwrap().complete = true;
    t.data_at_mut(3).unwrap().name = String::from("später ☺");
    t.remove(1).unwrap();
    let bytes = t.into_bytes();
    let back = Tree::from_bytes(&bytes).unwrap();
    let a = t.sub_tree_depth_info(0, usize::MAX).unwrap();
    let b = back.sub_tree_depth_info(back.get_root().unwrap(), usize::MAX).unwrap();
    assert_eq!(a.len(), b.len());
    for (x, y) in a.iter().zip(b.iter()) {
        assert_eq!(x.depth, y.depth);
        assert_eq!(x.child_count, y.child_count);
        assert_eq!(t.data_at(x.id).unwrap().name, back.data_at(y.id).unwrap().name);
        assert_eq!(t.data_at(x.id).unwrap().complete, back.data_at(y.id).unwrap().complete);
    }
    assert_eq!(back.into_bytes(), bytes);
}

#[test]
fn what_stands_behind_the_tree_is_not_read() {
    let t = sample();
    let mut bytes = t.into_bytes();
    bytes.extend_from_slice(&[9, 9, 9]);
    let back = Tree::from_bytes(&bytes).unwrap();
    assert_eq!(back.sub_tree(0).unwrap().len(), 7);
}

#[test]
fn corrupt_bytes_are_refused() {
    let good = sample().into_bytes();
    assert!(Tree::from_bytes(&good).is_ok());
    assert!(matches!(Tree::from_bytes(&[]), Err(TreeError::CorruptData)));
    for cut in 0..good.len() {
        assert!(matches!(Tree::from_bytes(&good[..cut]), Err(TreeError::CorruptData)));
    }
    // a state that is neither 0 nor 1
    assert!(matches!(
        Tree::from_bytes(&[0, 0, 0, 1, b'a', 2, 0, 0, 0, 0]),
        Err(TreeError::CorruptData)
    ));
    // a name that is not UTF-8
    assert!(matches!(
        Tree::from_bytes(&[0, 0, 0, 1, 0xFF, 0, 0, 0, 0, 0]),
        Err(TreeError::CorruptData)
    ));
    // a child that is announced and missing
    assert!(matches!(
        Tree::from_bytes(&[0, 0, 0, 1, b'a', 0, 0, 0, 0, 1]),
        Err(TreeError::CorruptData)
    ));
    // a name longer than the bytes
    assert!(matches!(
        Tree::from_bytes(&[0xFF, 0xFF, 0xFF, 0xFF, b'a', 0, 0, 0, 0, 0]),
        Err(TreeError::CorruptData)
    ));
    let one = Tree::from_bytes(&[0, 0, 0, 0, 1, 0, 0, 0, 0]).unwrap();
    assert_eq!(one.data_at(0).unwrap().name, "");
    assert!(one.data_at(0).unwrap().complete);
}

/// The next number of a fixed sequence.
fn next(seed: &mut u64) -> usize {
    *seed = seed.wrapping_mul(6364136223846793005).wrapping_add(1442695040888963407);
    (*seed >> 33) as usize
}

/// What every tree keeps: the root has no parent, each node is listed once by
/// its parent and is the parent of what it lists, and a walk from the root
/// meets every node once.
fn check_shape(t: &Tree<Entry>, live: &[usize]) {
    let root = t.get_root().unwrap();
    assert_eq!(t.parent_of(root), Ok(None));
    let all = t.sub_tree(root).unwrap();
    let mut sorted = all.clone();
    sorted.sort();
    sorted.dedup();
    assert_eq!(sorted.len(), all.len());
    let mut expected = live.to_vec();
    expected.sort();
    assert_eq!(sorted, expected);
    for &id in &all {
        let kids = t.children_of(id).unwrap();
        assert_eq!(t.child_count(id), Ok(kids.len()));
        for &k in &kids {
            assert_eq!(t.parent_of(k), Ok(Some(id)));
        }
        if id != root {
            let p = t.parent_of(id).unwrap().unwrap();
            assert_eq!(t.children_of(p).unwrap().iter().filter(|&&c| c == id).count(), 1);
        }
        let mut below = vec![id];
        below.extend(t.descendants_of(id).unwrap());
        assert_eq!(t.sub_tree(id).unwrap(), below);
    }
}

#[test]
fn many_changes_keep_the_tree_a_tree() {
    let positions = [
        Position::FirstChild,
        Position::LastChild,
        Position::SiblingBefore,
        Position::SiblingAfter,
    ];
    let mut seed: u64 = 2024;
    let mut t = Tree::new_with_root(entry("0"));
    let mut live = vec![0usize];
    for step in 0..400 {
        let a = live[next(&mut seed) % live.len()];
        let b = live[next(&mut seed) % live.len()];
        let pos = positions[next(&mut seed) % 4];
        let beside = pos == Position::SiblingBefore || pos == Position::SiblingAfter;
        match next(&mut seed) % 4 {
            0 => match t.new_node(entry(&step.to_string()), pos, a) {
                Ok(id) => {
                    assert!(!live.contains(&id));
                    live.push(id);
                }
                Err(e) => {
                    assert!(beside && a == 0);
                    assert_eq!(e, TreeError::InvalidPosition);
                }
            },
            1 => {
                let gone = t.sub_tree(a).unwrap();
                match t.remove(a) {
                    Ok(()) => live.retain(|id| !gone.contains(id)),
                    Err(e) => {
                        assert_eq!(a, 0);
                        assert_eq!(e, TreeError::CannotRemoveRoot);
                    }
                }
            }
            2 => {
                let below = t.is_within(a, b);
                let before = t.sub_tree(a).unwrap();
                match t.move_to(a, pos, b) {
                    Ok(()) => {
                        assert!(!below);
                        assert_eq!(t.sub_tree(a).unwrap(), before);
                    }
                    Err(TreeError::CycleError) => assert!(below),
                    Err(e) => {
                        assert!(beside && b == 0);
                        assert_eq!(e, TreeError::InvalidPosition);
                    }
                }
            }
            _ => {
                if live.len() < 200 {
                    let source = names(&t, &t.sub_tree(a).unwrap());
                    match t.clone_to(a, pos, b) {
                        Ok(copy) => {
                            let copied = t.sub_tree(copy).unwrap();
                            assert_eq!(names(&t, &copied), source);
                            for id in copied {
                                assert!(!live.contains(&id));
                                live.push(id);
                            }
                        }
                        Err(e) => {
                            assert!(beside && b == 0);
                            assert_eq!(e, TreeError::InvalidPosition);
                        }
                    }
                }
            }
        }
        check_shape(&t, &live);
        if step % 50 == 0 {
            let back = Tree::from_bytes(&t.into_bytes()).unwrap();
            let a = t.sub_tree(0).unwrap();
            let b = back.sub_tree(0).unwrap();
            assert_eq!(names(&t, &a), names(&back, &b));
            assert_eq!(back.into_bytes(), t.into_bytes());
        }
    }
}
