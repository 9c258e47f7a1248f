use splice_solver::forest::CellKind;
use splice_solver::level_maker::Level;
use splice_solver::level_solver::{
    endsSearch, findChildrenRecursively, findPotentialNewParents, isGoalReached, isMove,
    isPotentialNewParent, isSolution, makeSolutionStepByMutation, makeSolutionStepsBySplicing,
    makeStrandWithNewParent, makeStrandWithSwappedChildren, makeSuccessors, solveLevel, Action,
    SolutionStep,
};
use splice_solver::strand::Strand;

fn level(
    start: (usize, &[(u8, u8)], &[(u8, CellKind)]),
    target: (usize, &[(u8, u8)]),
    max_splices: u8,
) -> Level {
    Level {
        start: Strand::new(start.0, start.1, start.2),
        target: Strand::new(target.0, target.1, &[]),
        maxSplices: max_splices,
    }
}

fn copy_of(level: &Level) -> Level {
    Level { start: level.start.clone(), target: level.target.clone(), maxSplices: level.maxSplices }
}

#[test]
fn one_splice_solves_the_first_level() {
    let puzzle = level((3, &[(0, 1), (1, 2)], &[]), (3, &[(0, 1), (0, 2)]), 1);
    let solution = solveLevel(copy_of(&puzzle)).expect("a solution");
    assert_eq!(solution.len(), 2);
    assert_eq!(solution[0].lastAction, None);
    assert_eq!(solution[0].spliceCount, 0);
    assert!(solution[0].strand.hasSameCells(&puzzle.start));
    assert_eq!(
        solution[1].lastAction,
        Some(Action::ChangeParent { node: 2, oldParent: 1, newParent: 0 })
    );
    assert_eq!(solution[1].spliceCount, 1);
    assert!(solution[1].strand == puzzle.target);
    assert!(isSolution(&puzzle, &solution));
}

#[test]
fn one_splice_moves_a_subtree() {
    let puzzle = level(
        (5, &[(0, 1), (1, 2), (2, 3), (1, 4)], &[]),
        (5, &[(0, 1), (1, 2), (0, 3), (3, 4)]),
        1,
    );
    let solution = solveLevel(copy_of(&puzzle)).expect("a solution");
    assert_eq!(solution.len(), 2);
    assert!(matches!(solution[1].lastAction, Some(Action::ChangeParent { .. })));
    assert!(solution[1].strand == puzzle.target);
    assert!(isSolution(&puzzle, &solution));
}

#[test]
fn two_splices_are_counted() {
    let puzzle = level(
        (
            11,
            &[(0, 1), (1, 2), (1, 3), (3, 4), (3, 5), (0, 6), (6, 7), (6, 8), (8, 9), (8, 10)],
            &[],
        ),
        (11, &[(0, 1), (1, 2), (2, 3), (3, 4), (3, 5), (0, 6), (6, 7), (7, 8), (8, 9), (8, 10)]),
        2,
    );
    let solution = solveLevel(copy_of(&puzzle)).expect("a solution");
    assert_eq!(solution.len(), 3);
    let counts: Vec<u8> = solution.iter().map(|step| step.spliceCount).collect();
    assert_eq!(counts, vec![0, 1, 2]);
    assert!(solution[2].strand == puzzle.target);
    assert!(isSolution(&puzzle, &solution));
}

#[test]
fn a_doubler_mutates_on_the_way() {
    let puzzle = level(
        (3, &[(0, 1), (1, 2)], &[(1, CellKind::Doubler)]),
        (5, &[(0, 1), (1, 2), (0, 3), (3, 4)]),
        1,
    );
    let solution = solveLevel(copy_of(&puzzle)).expect("a solution");
    assert!(solution
        .iter()
        .any(|step| step.lastAction == Some(Action::Mutate { nodes: vec![1] })));
    assert_eq!(solution.len(), 2);
    assert_eq!(solution[1].spliceCount, 0);
    assert!(solution.last().unwrap().strand == puzzle.target);
    assert_eq!(solution[1].strand.nodeCount(), 5);
    assert!(isSolution(&puzzle, &solution));
}

#[test]
fn erasers_vacate_their_subtrees_on_the_way() {
    let puzzle = level(
        (
            6,
            &[(0, 1), (1, 2), (1, 3), (0, 4), (4, 5)],
            &[(2, CellKind::Eraser), (4, CellKind::Eraser)],
        ),
        (3, &[(0, 1), (1, 2)]),
        0,
    );
    let solution = solveLevel(copy_of(&puzzle)).expect("a solution");
    assert_eq!(solution.len(), 3);
    assert_eq!(solution[1].lastAction, Some(Action::Mutate { nodes: vec![4] }));
    assert_eq!(solution[2].lastAction, Some(Action::Mutate { nodes: vec![2] }));
    let last = &solution[2].strand;
    assert!(!last.holdsCell(2) && !last.holdsCell(4) && !last.holdsCell(5));
    assert_eq!(last.collectNodeIds(), vec![0, 1, 3]);
    assert!(*last == puzzle.target);
    assert!(isSolution(&puzzle, &solution));
}

#[test]
fn a_level_out_of_reach_has_no_solution() {
    let no_splice = level((3, &[(0, 1), (1, 2)], &[]), (3, &[(0, 1), (0, 2)]), 0);
    assert!(solveLevel(no_splice).is_none());
    let too_few = level(
        (
            11,
            &[(0, 1), (1, 2), (1, 3), (3, 4), (3, 5), (0, 6), (6, 7), (6, 8), (8, 9), (8, 10)],
            &[],
        ),
        (11, &[(0, 1), (1, 2), (2, 3), (3, 4), (3, 5), (0, 6), (6, 7), (7, 8), (8, 9), (8, 10)]),
        1,
    );
    assert!(solveLevel(too_few).is_none());
    let more_cells = level((3, &[(0, 1), (1, 2)], &[]), (4, &[(0, 1), (1, 2), (2, 3)]), 3);
    assert!(solveLevel(more_cells).is_none());
}

#[test]
fn a_solved_start_gives_one_step() {
    let puzzle = level((3, &[(0, 1), (1, 2)], &[]), (3, &[(0, 2), (2, 1)]), 2);
    let solution = solveLevel(copy_of(&puzzle)).expect("a solution");
    assert_eq!(solution.len(), 1);
    assert_eq!(solution[0].lastAction, None);
    assert!(isSolution(&puzzle, &solution));
}

#[test]
fn solving_twice_gives_the_same_steps() {
    let puzzle = level(
        (5, &[(0, 1), (1, 2), (1, 3), (3, 4)], &[(4, CellKind::Doubler)]),
        (7, &[(0, 1), (1, 2), (2, 3), (0, 4), (4, 5), (5, 6)]),
        3,
    );
    let first = solveLevel(copy_of(&puzzle)).expect("a solution");
    let second = solveLevel(copy_of(&puzzle)).expect("a solution");
    assert_eq!(first.len(), second.len());
    for (left, right) in first.iter().zip(second.iter()) {
        assert_eq!(left.lastAction, right.lastAction);
        assert_eq!(left.spliceCount, right.spliceCount);
        assert!(left.strand.hasSameCells(&right.strand));
    }
    assert!(isSolution(&puzzle, &first));
}

#[test]
fn successors_come_in_the_order_of_the_walk_then_the_mutation() {
    let start = SolutionStep::new(
        Strand::new(4, &[(0, 2), (0, 1), (2, 3)], &[(3, CellKind::Extender)]),
        None,
        0,
    );
    let successors = makeSuccessors(&start, 1);
    let actions: Vec<Option<Action>> =
        successors.iter().map(|pair| pair.0.lastAction.clone()).collect();
    assert_eq!(
        actions,
        vec![
            Some(Action::ChangeParent { node: 2, oldParent: 0, newParent: 1 }),
            Some(Action::SwapChildren { parent: 0 }),
            Some(Action::ChangeParent { node: 3, oldParent: 2, newParent: 1 }),
            Some(Action::ChangeParent { node: 1, oldParent: 0, newParent: 2 }),
            Some(Action::ChangeParent { node: 1, oldParent: 0, newParent: 3 }),
            Some(Action::SwapChildren { parent: 0 }),
            Some(Action::Mutate { nodes: vec![3] }),
        ]
    );
    assert!(successors.iter().all(|pair| pair.1 == 1));
    assert!(successors[..6].iter().all(|pair| pair.0.spliceCount == 1));
    assert_eq!(successors[6].0.spliceCount, 0);
    assert!(successors.iter().all(|pair| isMove(&start, &pair.0, 1)));
}

#[test]
fn no_splice_is_offered_beyond_the_budget() {
    let spent = SolutionStep::new(Strand::new(3, &[(0, 1), (1, 2)], &[]), None, 2);
    assert!(makeSuccessors(&spent, 2).is_empty());
    let special = SolutionStep::new(
        Strand::new(3, &[(0, 1), (1, 2)], &[(2, CellKind::Extender)]),
        None,
        2,
    );
    let successors = makeSuccessors(&special, 2);
    assert_eq!(successors.len(), 1);
    assert_eq!(successors[0].0.lastAction, Some(Action::Mutate { nodes: vec![2] }));
    assert_eq!(successors[0].0.spliceCount, 2);
}

#[test]
fn a_doubler_stays_the_only_child_of_its_parent() {
    let start = SolutionStep::new(
        Strand::new(4, &[(0, 1), (1, 2), (0, 3)], &[(2, CellKind::Doubler)]),
        None,
        0,
    );
    let successors = makeSuccessors(&start, 1);
    let moves: Vec<(u8, u8)> = successors
        .iter()
        .filter_map(|pair| match pair.0.lastAction {
            Some(Action::ChangeParent { node, newParent, .. }) => Some((node, newParent)),
            _ => None,
        })
        .collect();
    // the doubler 2 may move under the childless 3 only; nothing may join it under 1
    assert_eq!(moves, vec![(1, 3), (2, 3), (3, 2)]);
}

#[test]
fn steps_that_are_no_moves_are_told_apart() {
    let start = SolutionStep::new(Strand::new(3, &[(0, 1), (1, 2)], &[]), None, 0);
    let moved = Strand::new(3, &[(0, 1), (0, 2)], &[]);
    let good = SolutionStep::new(
        moved.clone(),
        Some(Action::ChangeParent { node: 2, oldParent: 1, newParent: 0 }),
        1,
    );
    assert!(isMove(&start, &good, 1));
    assert!(!isMove(&start, &good, 0));
    let wrong_count = SolutionStep::new(
        moved.clone(),
        Some(Action::ChangeParent { node: 2, oldParent: 1, newParent: 0 }),
        0,
    );
    assert!(!isMove(&start, &wrong_count, 1));
    let wrong_parent = SolutionStep::new(
        moved.clone(),
        Some(Action::ChangeParent { node: 2, oldParent: 0, newParent: 0 }),
        1,
    );
    assert!(!isMove(&start, &wrong_parent, 1));
    let into_own_subtree = SolutionStep::new(
        moved.clone(),
        Some(Action::ChangeParent { node: 1, oldParent: 0, newParent: 2 }),
        1,
    );
    assert!(!isMove(&start, &into_own_subtree, 1));
    let other_handles = SolutionStep::new(
        Strand::new(3, &[(0, 2), (0, 1)], &[]),
        Some(Action::ChangeParent { node: 2, oldParent: 1, newParent: 0 }),
        1,
    );
    assert!(!isMove(&start, &other_handles, 1));
    let no_swap = SolutionStep::new(moved.clone(), Some(Action::SwapChildren { parent: 1 }), 1);
    assert!(!isMove(&start, &no_swap, 1));
    let no_mutation = SolutionStep::new(
        Strand::new(3, &[(0, 1), (1, 2)], &[]),
        Some(Action::Mutate { nodes: vec![] }),
        0,
    );
    assert!(!isMove(&start, &no_mutation, 1));
    let no_action = SolutionStep::new(moved, None, 1);
    assert!(!isMove(&start, &no_action, 1));
}

#[test]
fn steps_are_equal_when_shape_action_and_count_are() {
    let left = SolutionStep::new(
        Strand::new(3, &[(0, 1), (0, 2)], &[]),
        Some(Action::SwapChildren { parent: 0 }),
        1,
    );
    let right = SolutionStep::new(
        Strand::new(3, &[(0, 2), (0, 1)], &[]),
        Some(Action::SwapChildren { parent: 0 }),
        1,
    );
    assert!(left == right);
    assert!(left == left.clone());
    let other_count = SolutionStep::new(
        Strand::new(3, &[(0, 1), (0, 2)], &[]),
        Some(Action::SwapChildren { parent: 0 }),
        2,
    );
    assert!(left != other_count);
    let other_action = SolutionStep::new(Strand::new(3, &[(0, 1), (0, 2)], &[]), None, 1);
    assert!(left != other_action);
}

#[test]
fn new_parents_are_found_in_ascending_order() {
    let strand = Strand::new(
        7,
        &[(0, 6), (6, 1), (6, 2), (0, 5), (5, 4), (1, 3)],
        &[(4, CellKind::Doubler)],
    );
    assert_eq!(findChildrenRecursively(6, &strand), vec![1, 3, 2]);
    assert_eq!(findChildrenRecursively(3, &strand), vec![]);
    // 6 may not move under its parent 0, into its own subtree, or beside the doubler 4
    assert_eq!(findPotentialNewParents(6, 0, &strand), vec![4]);
    assert_eq!(findPotentialNewParents(3, 1, &strand), vec![2, 4]);
    assert_eq!(findPotentialNewParents(4, 5, &strand), vec![2, 3]);
    assert_eq!(findPotentialNewParents(2, 6, &strand), vec![1, 3, 4]);
    for candidate in 0..=7u8 {
        assert_eq!(
            isPotentialNewParent(2, candidate, &strand),
            [1, 3, 4].contains(&candidate)
        );
    }
}

#[test]
fn successors_by_splicing_and_by_mutation_are_made() {
    let strand = Strand::new(4, &[(0, 1), (0, 2), (2, 3)], &[(3, CellKind::Eraser)]);
    let moved = makeStrandWithNewParent(1, 3, &strand);
    assert_eq!(moved.collectEdges(), vec![(0, 2), (2, 3), (3, 1)]);
    let swapped = makeStrandWithSwappedChildren(0, &strand);
    assert_eq!(swapped.collectEdges(), vec![(0, 2), (2, 3), (0, 1)]);
    assert_eq!(strand.collectEdges(), vec![(0, 1), (0, 2), (2, 3)]);

    let step = SolutionStep::new(strand, None, 3);
    assert!(makeSolutionStepsBySplicing(0, &step, 9).is_empty());
    assert!(makeSolutionStepsBySplicing(1, &step, 3).is_empty());
    let splices = makeSolutionStepsBySplicing(1, &step, 4);
    let actions: Vec<Option<Action>> = splices.iter().map(|s| s.lastAction.clone()).collect();
    assert_eq!(
        actions,
        vec![
            Some(Action::ChangeParent { node: 1, oldParent: 0, newParent: 2 }),
            Some(Action::ChangeParent { node: 1, oldParent: 0, newParent: 3 }),
            Some(Action::SwapChildren { parent: 0 }),
        ]
    );
    assert!(splices.iter().all(|s| s.spliceCount == 4));
    assert!(splices[1].strand.hasSameCells(&moved));
    assert!(splices[2].strand.hasSameCells(&swapped));

    let mutated = makeSolutionStepByMutation(&step).expect("a mutation");
    assert_eq!(mutated.lastAction, Some(Action::Mutate { nodes: vec![3] }));
    assert_eq!(mutated.spliceCount, 3);
    assert_eq!(mutated.strand.collectEdges(), vec![(0, 1), (0, 2)]);
    assert!(makeSolutionStepByMutation(&mutated).is_none());

    let target = Strand::new(3, &[(0, 2), (0, 1)], &[]);
    assert!(isGoalReached(&mutated, &target));
    assert!(!isGoalReached(&step, &target));
    assert!(endsSearch(&mutated, &target));
    assert!(!endsSearch(&step, &target));
    let stuck = SolutionStep::new(
        Strand::new(3, &[(0, 1), (0, 2)], &[(1, CellKind::Doubler)]),
        None,
        0,
    );
    assert!(endsSearch(&stuck, &target));
}

#[test]
fn a_search_that_meets_a_stuck_strand_finds_nothing() {
    let puzzle = Level {
        start: Strand::new(3, &[(0, 1), (0, 2)], &[(1, CellKind::Doubler)]),
        target: Strand::new(4, &[(0, 1), (0, 2), (1, 3)], &[]),
        maxSplices: 2,
    };
    assert!(solveLevel(puzzle).is_none());
}

#[test]
fn a_path_that_solves_nothing_is_told_apart() {
    let puzzle = level((3, &[(0, 1), (1, 2)], &[]), (3, &[(0, 1), (0, 2)]), 1);
    let start = SolutionStep::new(puzzle.start.clone(), None, 0);
    let end = SolutionStep::new(
        Strand::new(3, &[(0, 1), (0, 2)], &[]),
        Some(Action::ChangeParent { node: 2, oldParent: 1, newParent: 0 }),
        1,
    );
    assert!(isSolution(&puzzle, &vec![start.clone(), end.clone()]));
    assert!(!isSolution(&puzzle, &vec![]));
    assert!(!isSolution(&puzzle, &vec![start.clone()]));
    assert!(!isSolution(&puzzle, &vec![end.clone()]));
    assert!(!isSolution(&puzzle, &vec![start.clone(), start.clone()]));
    assert!(!isSolution(&puzzle, &vec![start.clone(), end.clone(), end.clone()]));
    let counted = SolutionStep::new(puzzle.start.clone(), None, 1);
    assert!(!isSolution(&puzzle, &vec![counted, end]));
}
