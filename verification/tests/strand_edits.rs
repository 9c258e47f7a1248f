use splice_solver::forest::CellKind;
use splice_solver::strand::Strand;
use splice_solver::traversal::ChildNodesIterator;
use std::collections::hash_map::DefaultHasher;
use std::hash::{Hash, Hasher};

fn hash_of(strand: &Strand) -> u64 {
    let mut hasher = DefaultHasher::new();
    strand.hash(&mut hasher);
    hasher.finish()
}

#[test]
fn child_nodes_iterator_hands_out_last_child_first() {
    let mut iterator = ChildNodesIterator::new(&[3, 7]);
    assert_eq!(iterator.next(), Some(7));
    assert_eq!(iterator.next(), Some(3));
    assert_eq!(iterator.next(), None);
}

#[test]
fn new_strand_answers_queries() {
    let strand = Strand::new(5, &[(0, 1), (1, 2), (2, 3), (1, 4)], &[(3, CellKind::Doubler)]);
    assert_eq!(Strand::root(), 0);
    assert_eq!(strand.nodeCount(), 5);
    assert_eq!(strand.parentId(0), None);
    assert_eq!(strand.parentId(4), Some(1));
    assert_eq!(strand.childIds(1), &[2, 4]);
    assert_eq!(strand.childCount(1), 2);
    assert_eq!(strand.childCount(4), 0);
    assert_eq!(strand.cellKind(3), CellKind::Doubler);
    assert_eq!(strand.cellKind(2), CellKind::Normal);
    assert!(strand.holdsCell(4));
    assert!(!strand.holdsCell(5));
}

#[test]
fn nodes_and_edges_come_in_depth_first_order() {
    let strand = Strand::new(6, &[(0, 4), (4, 1), (0, 2), (4, 5), (1, 3)], &[]);
    assert_eq!(strand.collectNodeIds(), vec![0, 4, 1, 3, 5, 2]);
    assert_eq!(strand.collectEdges(), vec![(0, 4), (4, 1), (1, 3), (4, 5), (0, 2)]);
    assert_eq!(strand.collectNodeIdsFrom(4), vec![4, 1, 3, 5]);
    assert_eq!(strand.collectEdgesFrom(4), vec![(4, 1), (1, 3), (4, 5)]);
    assert_eq!(strand.collectNodeIdsFrom(2), vec![2]);
    assert_eq!(strand.collectEdgesFrom(2), vec![]);
}

#[test]
fn single_cell_strand_is_walked() {
    let strand = Strand::new(1, &[], &[]);
    assert_eq!(strand.collectNodeIds(), vec![0]);
    assert_eq!(strand.collectEdges(), vec![]);
}

#[test]
fn try_new_refuses_what_is_no_tree() {
    assert!(Strand::tryNew(3, &[(0, 1), (1, 2)], &[]).is_some());
    assert!(Strand::tryNew(0, &[], &[]).is_none());
    assert!(Strand::tryNew(257, &[], &[]).is_none());
    // a cell without a parent besides the root
    assert!(Strand::tryNew(3, &[(0, 1)], &[]).is_none());
    // two parents
    assert!(Strand::tryNew(3, &[(0, 1), (0, 2), (1, 2)], &[]).is_none());
    // three children
    assert!(Strand::tryNew(4, &[(0, 1), (0, 2), (0, 3)], &[]).is_none());
    // the same link twice
    assert!(Strand::tryNew(2, &[(0, 1), (0, 1)], &[]).is_none());
    // a cycle beside the root
    assert!(Strand::tryNew(3, &[(1, 2), (2, 1)], &[]).is_none());
    // a link from a cell to itself
    assert!(Strand::tryNew(2, &[(0, 1), (1, 1)], &[]).is_none());
    // a handle that names no cell
    assert!(Strand::tryNew(2, &[(0, 2)], &[]).is_none());
    assert!(Strand::tryNew(2, &[(0, 1)], &[(2, CellKind::Eraser)]).is_none());
}

#[test]
fn change_parent_appends_to_new_parent() {
    let mut strand = Strand::new(5, &[(0, 1), (0, 2), (1, 3), (2, 4)], &[]);
    strand.changeParent(1, 2);
    assert_eq!(strand.parentId(1), Some(2));
    assert_eq!(strand.childIds(0), &[2]);
    assert_eq!(strand.childIds(2), &[4, 1]);
    assert_eq!(strand.collectEdges(), vec![(0, 2), (2, 4), (2, 1), (1, 3)]);
}

#[test]
fn change_parent_keeps_sibling_order() {
    let mut strand = Strand::new(4, &[(0, 1), (0, 2), (2, 3)], &[]);
    strand.changeParent(1, 3);
    assert_eq!(strand.childIds(0), &[2]);
    assert_eq!(strand.childIds(3), &[1]);
}

#[test]
fn change_parent_there_and_back_from_last_place_restores_the_strand() {
    let start = Strand::new(5, &[(0, 1), (0, 2), (1, 3), (2, 4)], &[]);
    let mut strand = start.clone();
    strand.changeParent(2, 3);
    assert!(strand != start);
    strand.changeParent(2, 0);
    assert!(strand == start);
    assert_eq!(strand.collectEdges(), start.collectEdges());
}

#[test]
fn change_parent_there_and_back_from_first_place_swaps_the_children() {
    let start = Strand::new(5, &[(0, 1), (0, 2), (1, 3), (2, 4)], &[(4, CellKind::Extender)]);
    let mut strand = start.clone();
    strand.changeParent(1, 4);
    strand.changeParent(1, 0);
    assert_eq!(strand.childIds(0), &[2, 1]);
    assert!(strand != start);
    let mut swapped = start.clone();
    swapped.swapChildren(0);
    assert!(strand == swapped);
}

#[test]
fn swap_children_twice_restores_the_strand() {
    let start = Strand::new(4, &[(0, 1), (0, 2), (1, 3)], &[]);
    let mut strand = start.clone();
    strand.swapChildren(0);
    assert_eq!(strand.childIds(0), &[2, 1]);
    assert!(strand != start);
    strand.swapChildren(0);
    assert_eq!(strand.childIds(0), &[1, 2]);
    assert!(strand == start);
}

#[test]
fn clone_equals_and_edits_do_not_reach_what_was_cloned() {
    let start = Strand::new(4, &[(0, 1), (0, 2), (1, 3)], &[(3, CellKind::Eraser)]);
    let mut copy = start.clone();
    assert!(copy == start);
    copy.changeParent(3, 2);
    assert_eq!(start.parentId(3), Some(1));
    assert_eq!(start.childIds(1), &[3]);
    assert_eq!(start.childIds(2), &[]);
    assert_eq!(copy.parentId(3), Some(2));
}

#[test]
fn equality_ignores_handles() {
    let left = Strand::new(4, &[(0, 1), (1, 2), (0, 3)], &[(2, CellKind::Doubler)]);
    let right = Strand::new(4, &[(0, 3), (3, 1), (0, 2)], &[(1, CellKind::Doubler)]);
    assert!(left == right);
    assert!(right == left);
    assert!(left.isEqualOnSurface(&right));
    assert_eq!(hash_of(&left), hash_of(&right));
}

#[test]
fn equality_reads_child_order_kind_and_size() {
    let base = Strand::new(4, &[(0, 1), (1, 2), (0, 3)], &[]);
    let mirrored = Strand::new(4, &[(0, 3), (0, 1), (1, 2)], &[]);
    let special = Strand::new(4, &[(0, 1), (1, 2), (0, 3)], &[(3, CellKind::Extender)]);
    let longer = Strand::new(5, &[(0, 1), (1, 2), (0, 3), (3, 4)], &[]);
    let shorter = Strand::new(3, &[(0, 1), (1, 2)], &[]);
    assert!(base != mirrored);
    assert!(base != special);
    assert!(base != longer);
    assert!(longer != base);
    assert!(base != shorter);
    assert!(base == base.clone());
}

#[test]
fn shape_code_lists_child_count_and_kind() {
    let strand = Strand::new(3, &[(0, 1), (0, 2)], &[(2, CellKind::Eraser), (1, CellKind::Extender)]);
    assert_eq!(strand.shapeCode(), vec![2, 0, 0, 2, 0, 3]);
}

#[test]
fn doubler_copies_its_subtree() {
    let mut strand = Strand::new(
        5,
        &[(0, 1), (1, 2), (1, 3), (3, 4)],
        &[(1, CellKind::Doubler), (3, CellKind::Extender)],
    );
    assert!(strand.canMutate());
    assert_eq!(strand.mutate(), vec![1]);
    assert_eq!(strand.nodeCount(), 9);
    assert_eq!(strand.childIds(0), &[1, 5]);
    assert_eq!(strand.cellKind(1), CellKind::Normal);
    assert_eq!(strand.cellKind(5), CellKind::Normal);
    assert_eq!(strand.cellKind(3), CellKind::Extender);
    assert_eq!(strand.cellKind(7), CellKind::Extender);
    assert_eq!(strand.parentId(5), Some(0));
    assert_eq!(
        strand.collectEdges(),
        vec![(0, 1), (1, 2), (1, 3), (3, 4), (0, 5), (5, 6), (5, 7), (7, 8)]
    );
}

#[test]
fn extender_puts_a_cell_above_its_children() {
    let mut none = Strand::new(2, &[(0, 1)], &[(1, CellKind::Extender)]);
    assert_eq!(none.mutate(), vec![1]);
    assert_eq!(none.collectEdges(), vec![(0, 1), (1, 2)]);
    assert_eq!(none.cellKind(1), CellKind::Normal);
    assert_eq!(none.cellKind(2), CellKind::Normal);

    let mut one = Strand::new(3, &[(0, 1), (1, 2)], &[(1, CellKind::Extender)]);
    assert_eq!(one.mutate(), vec![1]);
    assert_eq!(one.collectEdges(), vec![(0, 1), (1, 3), (3, 2)]);

    let mut two = Strand::new(4, &[(0, 1), (1, 2), (1, 3)], &[(1, CellKind::Extender)]);
    assert_eq!(two.mutate(), vec![1]);
    assert_eq!(two.collectEdges(), vec![(0, 1), (1, 4), (4, 2), (4, 3)]);
    assert_eq!(two.parentId(2), Some(4));
    assert_eq!(two.parentId(3), Some(4));
}

#[test]
fn extender_at_the_root_mutates() {
    let mut strand = Strand::new(3, &[(0, 1), (0, 2)], &[(0, CellKind::Extender)]);
    assert_eq!(strand.mutate(), vec![0]);
    assert_eq!(strand.collectEdges(), vec![(0, 3), (3, 1), (3, 2)]);
}

#[test]
fn eraser_vacates_its_subtree() {
    let mut strand = Strand::new(
        6,
        &[(0, 1), (1, 2), (1, 3), (0, 4), (4, 5)],
        &[(2, CellKind::Eraser), (4, CellKind::Eraser)],
    );
    assert_eq!(strand.mutate(), vec![4]);
    assert_eq!(strand.nodeCount(), 6);
    assert!(!strand.holdsCell(4));
    assert!(!strand.holdsCell(5));
    assert_eq!(strand.childIds(0), &[1]);
    assert_eq!(strand.mutate(), vec![2]);
    assert!(!strand.holdsCell(2));
    assert_eq!(strand.collectEdges(), vec![(0, 1), (1, 3)]);
    assert!(strand == Strand::new(3, &[(0, 1), (1, 2)], &[]));
    assert_eq!(strand.mutate(), vec![]);
}

#[test]
fn cells_of_the_same_depth_mutate_together_in_handle_order() {
    let mut strand = Strand::new(
        5,
        &[(0, 2), (0, 1), (2, 3), (1, 4)],
        &[(2, CellKind::Extender), (1, CellKind::Eraser), (3, CellKind::Doubler)],
    );
    assert_eq!(strand.mutate(), vec![1, 2]);
    assert_eq!(strand.collectEdges(), vec![(0, 2), (2, 5), (5, 3)]);
    assert_eq!(strand.mutate(), vec![3]);
    assert_eq!(strand.collectEdges(), vec![(0, 2), (2, 5), (5, 3), (5, 6)]);
}

#[test]
fn mutation_is_refused_where_it_cannot_be_carried_out() {
    let shared = Strand::new(3, &[(0, 1), (0, 2)], &[(1, CellKind::Doubler)]);
    assert!(!shared.canMutate());
    let root_eraser = Strand::new(2, &[(0, 1)], &[(0, CellKind::Eraser)]);
    assert!(!root_eraser.canMutate());
    let root_doubler = Strand::new(2, &[(0, 1)], &[(0, CellKind::Doubler)]);
    assert!(!root_doubler.canMutate());
}

#[test]
fn doubler_needs_handles_for_its_copy() {
    let mut edges = Vec::new();
    for child in 1..=255u8 {
        edges.push((child - 1, child));
    }
    let full = Strand::new(256, &edges, &[(255, CellKind::Extender)]);
    assert!(!full.canMutate());
    let doubling = Strand::new(200, &edges[..199], &[(100, CellKind::Doubler)]);
    assert!(!doubling.canMutate());
    let fitting = Strand::new(200, &edges[..199], &[(144, CellKind::Doubler)]);
    assert!(fitting.canMutate());
    let mut grown = fitting.clone();
    assert_eq!(grown.mutate(), vec![144]);
    assert_eq!(grown.nodeCount(), 256);
    assert_eq!(grown.childIds(143), &[144, 200]);
    assert_eq!(grown.parentId(255), Some(254));
}

/// The invariants of a strand at rest, read through its queries.
fn assert_is_tree(strand: &Strand) {
    assert!(strand.holdsCell(0));
    assert_eq!(strand.parentId(0), None);
    let count = strand.nodeCount();
    assert!(count >= 1 && count <= 256);
    let mut live = 0;
    for index in 0..count {
        let id = index as u8;
        if !strand.holdsCell(id) {
            continue;
        }
        live += 1;
        let children = strand.childIds(id);
        assert!(children.len() <= 2);
        if children.len() == 2 {
            assert_ne!(children[0], children[1]);
        }
        for child in children {
            assert!(strand.holdsCell(*child));
            assert_eq!(strand.parentId(*child), Some(id));
        }
        match strand.parentId(id) {
            Some(parent) => {
                assert!(strand.holdsCell(parent));
                assert_eq!(strand.childIds(parent).iter().filter(|c| **c == id).count(), 1);
            }
            None => assert_eq!(id, 0),
        }
    }
    // no cycle: the walk from the root meets every cell once
    let order = strand.collectNodeIds();
    assert_eq!(order.len(), live);
    let mut seen = order.clone();
    seen.sort();
    seen.dedup();
    assert_eq!(seen.len(), live);
}

#[test]
fn every_operation_leaves_a_tree() {
    let mut strand = Strand::new(
        8,
        &[(0, 1), (1, 2), (2, 3), (2, 4), (0, 5), (5, 6), (6, 7)],
        &[(1, CellKind::Extender), (2, CellKind::Doubler), (6, CellKind::Eraser)],
    );
    assert_is_tree(&strand);
    strand.changeParent(7, 5);
    assert_is_tree(&strand);
    strand.swapChildren(5);
    assert_is_tree(&strand);
    assert_eq!(strand.mutate(), vec![1]);
    assert_is_tree(&strand);
    assert_eq!(strand.mutate(), vec![6]);
    assert_is_tree(&strand);
    assert!(!strand.holdsCell(6));
    assert_eq!(strand.mutate(), vec![2]);
    assert_is_tree(&strand);
    // the copies stand in new slots; the slot of the erased cell stays vacant
    assert_eq!(strand.nodeCount(), 12);
    assert!(!strand.holdsCell(6));
    assert_eq!(strand.mutate(), vec![]);
    let copy = strand.clone();
    assert_is_tree(&copy);
    assert!(copy.hasSameCells(&strand));
}

#[test]
fn equality_is_an_equivalence() {
    let a = Strand::new(4, &[(0, 1), (1, 2), (0, 3)], &[(3, CellKind::Eraser)]);
    let b = Strand::new(4, &[(0, 2), (2, 1), (0, 3)], &[(3, CellKind::Eraser)]);
    let c = Strand::new(4, &[(0, 3), (0, 1), (1, 2)], &[(3, CellKind::Eraser)]);
    assert!(a == a);
    assert!(a == b && b == a);
    assert!(a != c && c != a);
    // transitive
    let e = Strand::new(4, &[(0, 3), (3, 2), (0, 1)], &[(1, CellKind::Eraser)]);
    assert!(a == b && b == e && a == e);
    assert_eq!(hash_of(&a), hash_of(&e));
    // whatever the slots: a strand with a vacant slot and two exchanges behind it
    let mut erased = Strand::new(5, &[(0, 4), (4, 1), (0, 2), (2, 3)], &[(3, CellKind::Eraser)]);
    erased.mutate();
    erased.swapChildren(0);
    erased.swapChildren(0);
    assert!(!erased.holdsCell(3));
    let d = Strand::new(4, &[(0, 2), (2, 1), (0, 3)], &[]);
    assert!(erased == d && d == erased);
    assert_eq!(hash_of(&erased), hash_of(&d));
}

#[test]
fn strands_of_other_shapes_hash_otherwise() {
    let chain = Strand::new(3, &[(0, 1), (1, 2)], &[]);
    let fork = Strand::new(3, &[(0, 1), (0, 2)], &[]);
    let special = Strand::new(3, &[(0, 1), (1, 2)], &[(2, CellKind::Doubler)]);
    assert_ne!(chain.shapeCode(), fork.shapeCode());
    assert_ne!(chain.shapeCode(), special.shapeCode());
    assert_ne!(hash_of(&chain), hash_of(&fork));
    assert_ne!(hash_of(&chain), hash_of(&special));
}

#[test]
fn vacant_slots_do_not_show_in_equality() {
    let mut erased = Strand::new(4, &[(0, 1), (0, 2), (1, 3)], &[(1, CellKind::Eraser)]);
    erased.mutate();
    let small = Strand::new(2, &[(0, 1)], &[]);
    assert!(erased == small);
    assert!(!erased.hasSameCells(&small));
    assert_eq!(hash_of(&erased), hash_of(&small));
    assert_eq!(erased.nodeCount(), 4);
}
