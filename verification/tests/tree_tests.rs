use orchard::basic_tree::BasicTree;
use orchard::example_data::{AddRev, RevAddNum, StdNum};
use orchard::locators::{All, ByKey, IndexRange};
use orchard::methods::{
    build, insert_by_key, insert_by_locator, next_filled, previous_filled, search_by_locator,
    to_array,
};
use orchard::slice::Slice;
use orchard::splay::{SplayTree, SplayWalker};
use orchard::trees::{
    ConcatenableTree, ModifiableWalker, Side, SomeEntry, SomeTree, SomeWalker, SplittableWalker,
};
use orchard::walker::BasicWalker;

#[test]
fn iter_locator_segment() {
    let vals: Vec<u64> = (20..80).collect();
    let tree: BasicTree<StdNum> = build(&vals);
    let segment = SomeTree::iter_locator(&tree, &IndexRange { start: 3, end: 13 });
    let expected: Vec<u64> = (23..33).collect();
    assert_eq!(segment, expected);
}

#[test]
fn whole_tree_summary() {
    let vals: Vec<u64> = (1..=8).collect();
    let tree: BasicTree<StdNum> = build(&vals);
    let summary = SomeEntry::subtree_summary(&tree);
    assert_eq!(summary.size, 8);
    assert_eq!(summary.sum, 36);
    assert_eq!(summary.min, Some(1));
    assert_eq!(summary.max, Some(8));
}

#[test]
fn act_segment_add() {
    let vals: Vec<u64> = vec![1, 2, 3, 4, 5];
    let mut tree: BasicTree<RevAddNum> = build(&vals);
    SomeTree::act_segment(
        &mut tree,
        AddRev { add: 10, rev: false },
        &IndexRange { start: 1, end: 4 },
    );
    assert_eq!(SomeTree::iter(&tree), vec![1, 12, 13, 14, 5]);
}

#[test]
fn empty_tree_segment_summary() {
    let mut tree: BasicTree<StdNum> = BasicTree::empty();
    let summary = SomeTree::segment_summary(&mut tree, &IndexRange { start: 0, end: 5 });
    assert_eq!(summary.size, 0);
    assert_eq!(summary.sum, 0);
    assert_eq!(summary.min, None);
    assert_eq!(summary.max, None);
}

#[test]
fn keyed_splay_insert_search_delete() {
    let mut tree: SplayTree<StdNum> = SplayTree::new();
    tree.insert(5);
    tree.insert(3);
    tree.insert(7);
    assert!(tree.search(3).is_ok());
    assert_eq!(tree.delete(3), Some(3));
    assert!(tree.search(3).is_err());
    assert_eq!(SomeTree::iter(&tree), vec![5, 7]);
}

#[test]
fn reverse_segment_roundtrip() {
    let vals: Vec<u64> = vec![1, 2, 3, 4, 5];
    let mut tree: SplayTree<RevAddNum> = SplayTree::from_inner(build(&vals));
    tree.reverse_range(1, 4);
    assert_eq!(SomeTree::iter(&tree), vec![1, 4, 3, 2, 5]);
    tree.reverse_range(1, 4);
    assert_eq!(SomeTree::iter(&tree), vec![1, 2, 3, 4, 5]);
}

#[test]
fn walker_navigation() {
    let vals: Vec<u64> = vec![10, 20, 30];
    let tree: BasicTree<StdNum> = build(&vals);
    let mut w = BasicWalker::new(tree);
    // go to the position before everything, then step through in order
    while w.go_left().is_ok() {}
    let mut seen: Vec<u64> = Vec::new();
    while next_filled(&mut w).is_ok() {
        seen.push(w.value().unwrap());
    }
    assert_eq!(seen, vec![10, 20, 30]);
    // and back
    let mut back: Vec<u64> = Vec::new();
    while w.go_right().is_ok() {}
    while previous_filled(&mut w).is_ok() {
        back.push(w.value().unwrap());
    }
    assert_eq!(back, vec![30, 20, 10]);
}

#[test]
fn walker_moves_fail_at_edges() {
    let tree: BasicTree<StdNum> = BasicTree::empty();
    let mut w = BasicWalker::new(tree);
    assert!(w.go_left().is_err());
    assert!(w.go_right().is_err());
    assert!(w.go_up().is_err());
    assert!(next_filled(&mut w).is_err());
    assert!(previous_filled(&mut w).is_err());
}

#[test]
fn insert_by_locator_rejects_duplicates() {
    let vals: Vec<u64> = vec![5];
    let tree: BasicTree<StdNum> = build(&vals);
    let mut w = BasicWalker::new(tree);
    assert!(insert_by_locator(&mut w, &ByKey { key: 5 }, 5).is_err());
    assert!(insert_by_locator(&mut w, &ByKey { key: 3 }, 3).is_ok());
    let tree = w.into_tree();
    assert_eq!(to_array(&tree), vec![3, 5]);
}

#[test]
fn insert_by_key_keeps_order() {
    let vals: Vec<u64> = vec![3, 7];
    let tree: BasicTree<StdNum> = build(&vals);
    let mut w = BasicWalker::new(tree);
    assert!(insert_by_key(&mut w, 5).is_ok());
    let tree = w.into_tree();
    assert_eq!(to_array(&tree), vec![3, 5, 7]);
    let mut w = BasicWalker::new(tree);
    assert!(insert_by_key(&mut w, 5).is_err());
}

#[test]
fn split_then_concatenate_restores() {
    let vals: Vec<u64> = (1..=6).collect();
    let tree: BasicTree<StdNum> = build(&vals);
    let mut w = BasicWalker::new(tree);
    search_by_locator(&mut w, &IndexRange { start: 2, end: 2 });
    let right = SplittableWalker::split_right(&mut w).unwrap();
    let left = w.into_tree();
    assert_eq!(to_array(&left), vec![1, 2]);
    assert_eq!(to_array(&right), vec![3, 4, 5, 6]);
    let joined = ConcatenableTree::concatenate(left, right);
    assert_eq!(to_array(&joined), (1..=6).collect::<Vec<u64>>());
}

#[test]
fn split_fails_on_a_node() {
    let vals: Vec<u64> = vec![1, 2, 3];
    let tree: BasicTree<StdNum> = build(&vals);
    let mut w = BasicWalker::new(tree);
    // the focus is the root node, not an empty position
    assert!(SplittableWalker::split_right(&mut w).is_none());
    assert!(SplittableWalker::split_left(&mut w).is_none());
}

#[test]
fn splay_walker_splays_to_root() {
    let vals: Vec<u64> = (1..=7).collect();
    let tree: BasicTree<StdNum> = build(&vals);
    let mut w = SplayWalker::new(BasicWalker::new(tree));
    let _ = w.go_left();
    let _ = w.go_left();
    assert!(SomeWalker::depth(&w) == 2);
    w.splay();
    assert_eq!(SomeWalker::depth(&w), 0);
    let tree = w.into_inner().into_tree();
    assert_eq!(to_array(&tree), (1..=7).collect::<Vec<u64>>());
}

#[test]
fn act_whole_subtree_updates_summary() {
    let vals: Vec<u64> = vec![1, 2, 3];
    let mut tree: BasicTree<RevAddNum> = build(&vals);
    SomeEntry::act_subtree(&mut tree, AddRev { add: 5, rev: false });
    let summary = SomeEntry::subtree_summary(&tree);
    assert_eq!(summary.size, 3);
    assert_eq!(summary.sum, 21);
    assert_eq!(to_array(&tree), vec![6, 7, 8]);
}

#[test]
fn act_then_segment_summary_matches_acted_values() {
    // acting on a segment, then summing that segment, equals summing
    // the acted-on values
    let vals: Vec<u64> = vec![1, 2, 3, 4, 5];
    let mut tree: BasicTree<RevAddNum> = build(&vals);
    let range = IndexRange { start: 1, end: 4 };
    SomeTree::act_segment(&mut tree, AddRev { add: 10, rev: false }, &range);
    let mut tree2 = tree;
    let summary = SomeTree::segment_summary(&mut tree2, &range);
    assert_eq!(summary.size, 3);
    assert_eq!(summary.sum, 12 + 13 + 14);
}

#[test]
fn sums_wrap_around_the_word() {
    let vals: Vec<u64> = vec![u64::MAX, 2];
    let mut tree: BasicTree<RevAddNum> = build(&vals);
    let summary = SomeEntry::subtree_summary(&tree);
    assert_eq!(summary.size, 2);
    assert_eq!(summary.sum, 1);
    SomeEntry::act_subtree(&mut tree, AddRev { add: 1, rev: false });
    assert_eq!(to_array(&tree), vec![0, 3]);
    assert_eq!(SomeEntry::subtree_summary(&tree).sum, 3);
}

#[test]
fn segment_summary_by_key() {
    let vals: Vec<u64> = vec![2, 3, 3, 5];
    let mut tree: BasicTree<StdNum> = build(&vals);
    let summary = SomeTree::segment_summary(&mut tree, &ByKey { key: 3 });
    assert_eq!(summary.size, 2);
    assert_eq!(summary.sum, 6);
    assert_eq!(summary.min, Some(3));
    assert_eq!(summary.max, Some(3));
}

#[test]
fn segment_summary_all_is_whole_summary() {
    let vals: Vec<u64> = (1..=5).collect();
    let mut tree: BasicTree<StdNum> = build(&vals);
    let whole = SomeEntry::subtree_summary(&tree);
    let all = SomeTree::segment_summary(&mut tree, &All);
    assert_eq!(whole.size, all.size);
    assert_eq!(whole.sum, all.sum);
    assert_eq!(whole.min, all.min);
    assert_eq!(whole.max, all.max);
}

#[test]
fn side_flips() {
    assert_eq!(Side::Left.flip(), Side::Right);
    assert_eq!(Side::Right.flip(), Side::Left);
}

#[test]
fn root_data_after_search() {
    let mut tree: SplayTree<StdNum> = SplayTree::new();
    assert_eq!(tree.root_data(), None);
    tree.insert(4);
    tree.insert(9);
    assert!(tree.search(9).is_ok());
    assert_eq!(tree.root_data(), Some(9));
}

#[test]
fn splay_delete_missing_key() {
    let mut tree: SplayTree<StdNum> = SplayTree::new();
    tree.insert(1);
    tree.insert(2);
    assert_eq!(tree.delete(42), None);
    assert_eq!(SomeTree::iter(&tree), vec![1, 2]);
}

#[test]
fn act_range_on_splay_tree() {
    let vals: Vec<u64> = vec![1, 2, 3, 4, 5];
    let mut tree: SplayTree<RevAddNum> = SplayTree::from_inner(build(&vals));
    tree.act_range(AddRev { add: 100, rev: false }, 0, 2);
    assert_eq!(SomeTree::iter(&tree), vec![101, 102, 3, 4, 5]);
    // clipped past the end
    tree.act_range(AddRev { add: 1, rev: false }, 4, 99);
    assert_eq!(SomeTree::iter(&tree), vec![101, 102, 3, 4, 6]);
}

#[test]
fn walker_far_summaries() {
    let vals: Vec<u64> = vec![1, 2, 3];
    let tree: BasicTree<StdNum> = build(&vals);
    let mut w = BasicWalker::new(tree);
    assert_eq!(w.far_left_summary().size, 0);
    assert_eq!(w.far_right_summary().size, 0);
    let _ = w.go_left();
    // everything except the left subtree is now to the far right
    assert_eq!(w.far_right_summary().size, 2);
    assert_eq!(w.far_right_summary().sum, 5);
    assert_eq!(w.left_summary().size, 0);
    assert_eq!(w.right_summary().size, 2);
}

#[test]
fn walker_insert_and_delete_roundtrip() {
    let vals: Vec<u64> = vec![1, 2, 4, 5];
    let tree: BasicTree<StdNum> = build(&vals);
    let mut w = BasicWalker::new(tree);
    search_by_locator(&mut w, &ByKey { key: 3 });
    assert!(ModifiableWalker::insert(&mut w, 3).is_some());
    // the walker now stands on the new node; deleting it restores the
    // old sequence
    assert_eq!(ModifiableWalker::delete(&mut w), Some(3));
    let tree = w.into_tree();
    assert_eq!(to_array(&tree), vec![1, 2, 4, 5]);
}

#[test]
fn slice_handle_summary_act_iter() {
    let vals: Vec<u64> = vec![1, 2, 3, 4, 5];
    let tree: orchard::basic_tree::BasicTree<RevAddNum> = build(&vals);
    let mut slice = Slice::new(tree, IndexRange { start: 1, end: 4 });
    let s = slice.summary();
    assert_eq!(s.size, 3);
    assert_eq!(s.sum, 9);
    slice.act(AddRev { add: 1, rev: false });
    assert_eq!(slice.iter(), vec![3, 4, 5]);
    let tree = slice.into_tree();
    assert_eq!(to_array(&tree), vec![1, 3, 4, 5, 5]);
}

#[test]
fn go_to_root_restores_depth() {
    let vals: Vec<u64> = (1..=7).collect();
    let tree: BasicTree<StdNum> = build(&vals);
    let mut w = BasicWalker::new(tree);
    let _ = w.go_left();
    let _ = w.go_right();
    w.go_to_root();
    assert_eq!(w.depth(), 0);
    assert_eq!(to_array(&w.into_tree()), (1..=7).collect::<Vec<u64>>());
}

#[test]
fn splay_moves_focus_to_tree_root() {
    let vals: Vec<u64> = (1..=7).collect();
    let tree: BasicTree<StdNum> = build(&vals);
    let mut w = SplayWalker::new(BasicWalker::new(tree));
    let _ = w.go_left();
    let focused = SomeWalker::value(&w).unwrap();
    let mut tree: SplayTree<StdNum> = SplayTree::from_inner(w.into_tree());
    assert_eq!(tree.root_data(), Some(focused));
}

#[test]
fn rotations_preserve_order() {
    let vals: Vec<u64> = (1..=7).collect();
    let tree: BasicTree<StdNum> = build(&vals);
    let mut w = BasicWalker::new(tree);
    // the balanced root has both children, so a rotation succeeds
    assert!(w.rot_side(Side::Left).is_some());
    assert!(w.rot_side(Side::Right).is_some());
    // at the root nothing is above to rotate with
    assert!(w.rot_up().is_none());
    assert!(w.rot_parent_up().is_none());
    let _ = w.go_left();
    assert!(w.rot_up().is_some());
    assert_eq!(to_array(&w.into_tree()), (1..=7).collect::<Vec<u64>>());
    // a lone node has no children to rotate up
    let single: Vec<u64> = vec![9];
    let mut w = BasicWalker::new(build::<StdNum>(&single));
    assert!(w.rot_side(Side::Left).is_none());
    assert!(w.rot_side(Side::Right).is_none());
}
