use splice_solver::forest::CellKind;
use splice_solver::level_maker::{
    describesStrand, makeLevel, makeLevelFrom, makeStrand, Level, LevelError, LevelInfo,
    SequenceNumber, StrandInfo, StrandNumber,
};
use splice_solver::level_solver::{isSolution, solveLevel, Action};
use splice_solver::strand::Strand;

fn cp(node: u8, old_parent: u8, new_parent: u8) -> Option<Action> {
    Some(Action::ChangeParent { node, oldParent: old_parent, newParent: new_parent })
}

fn swap(parent: u8) -> Option<Action> {
    Some(Action::SwapChildren { parent })
}

fn mutate(nodes: &[u8]) -> Option<Action> {
    Some(Action::Mutate { nodes: nodes.to_vec() })
}

fn actions_of(sequence: u8, strand: u8) -> Vec<Option<Action>> {
    let level = makeLevel(SequenceNumber(sequence), StrandNumber(strand)).expect("a level");
    let copy = Level {
        start: level.start.clone(),
        target: level.target.clone(),
        maxSplices: level.maxSplices,
    };
    let solution = solveLevel(copy).expect("a solution");
    assert!(isSolution(&level, &solution));
    assert!(solution[0].strand.hasSameCells(&level.start));
    assert!(solution.last().unwrap().strand == level.target);
    assert!(solution.iter().all(|step| step.spliceCount <= level.maxSplices));
    solution.into_iter().map(|step| step.lastAction).collect()
}

#[test]
fn sequence_1_strand_1_is_solved() {
    let actions = actions_of(1, 1);
    assert_eq!(actions.len(), 2);
    assert_eq!(actions, vec![None, cp(2, 1, 0)]);
}

#[test]
fn sequence_1_strand_2_is_solved() {
    let actions = actions_of(1, 2);
    assert_eq!(actions.len(), 2);
    assert_eq!(actions, vec![None, cp(2, 1, 0)]);
}

#[test]
fn sequence_1_strand_3_is_solved() {
    let actions = actions_of(1, 3);
    assert_eq!(actions.len(), 3);
    assert_eq!(actions, vec![None, cp(8, 6, 2), cp(3, 1, 7)]);
}

#[test]
fn sequence_1_strand_4_is_solved() {
    let actions = actions_of(1, 4);
    assert_eq!(actions.len(), 2);
    assert_eq!(actions, vec![None, cp(2, 1, 10)]);
}

#[test]
fn sequence_1_strand_5_is_solved() {
    let actions = actions_of(1, 5);
    assert_eq!(actions.len(), 2);
    assert_eq!(actions, vec![None, cp(1, 0, 5)]);
}

#[test]
fn sequence_1_strand_6_is_solved() {
    let actions = actions_of(1, 6);
    assert_eq!(actions.len(), 2);
    assert_eq!(actions, vec![None, swap(0)]);
}

#[test]
fn sequence_1_strand_7_is_solved() {
    let actions = actions_of(1, 7);
    assert_eq!(actions.len(), 3);
    assert_eq!(actions, vec![None, cp(3, 2, 1), cp(2, 1, 0)]);
}

#[test]
fn sequence_2_strand_1_is_solved() {
    let actions = actions_of(2, 1);
    assert_eq!(actions.len(), 2);
    assert_eq!(actions, vec![None, mutate(&[1])]);
}

#[test]
fn sequence_2_strand_2_is_solved() {
    let actions = actions_of(2, 2);
    assert_eq!(actions.len(), 3);
    assert_eq!(actions, vec![None, cp(1, 0, 3), mutate(&[3])]);
}

#[test]
fn sequence_2_strand_3_is_solved() {
    let actions = actions_of(2, 3);
    assert_eq!(actions.len(), 5);
    assert_eq!(actions, vec![None, cp(2, 1, 4), mutate(&[4]), cp(4, 3, 0), cp(6, 5, 2)]);
}

#[test]
fn sequence_2_strand_4_is_solved() {
    let actions = actions_of(2, 4);
    assert_eq!(actions.len(), 3);
    assert_eq!(actions, vec![None, cp(5, 4, 6), mutate(&[1])]);
}

#[test]
fn sequence_2_strand_5_is_solved() {
    let actions = actions_of(2, 5);
    assert_eq!(actions.len(), 4);
    assert_eq!(actions, vec![None, cp(2, 1, 0), cp(1, 0, 3), mutate(&[3])]);
}

#[test]
fn sequence_2_strand_6_is_solved() {
    let actions = actions_of(2, 6);
    assert_eq!(actions.len(), 5);
    assert_eq!(actions, vec![None, cp(7, 6, 5), mutate(&[3]), cp(3, 2, 6), cp(11, 10, 9)]);
}

#[test]
fn sequence_2_strand_7_is_solved() {
    let actions = actions_of(2, 7);
    assert_eq!(actions.len(), 6);
    assert_eq!(actions, vec![None, mutate(&[1]), cp(4, 3, 2), mutate(&[2]), mutate(&[4, 6]), cp(5, 1, 3)]);
}

#[test]
fn sequence_3_strand_1_is_solved() {
    let actions = actions_of(3, 1);
    assert_eq!(actions.len(), 4);
    assert_eq!(actions, vec![None, mutate(&[1]), mutate(&[3, 6]), cp(8, 6, 5)]);
}

#[test]
fn sequence_3_strand_2_is_solved() {
    let actions = actions_of(3, 2);
    assert_eq!(actions.len(), 5);
    assert_eq!(actions, vec![None, cp(4, 3, 0), mutate(&[1, 4]), mutate(&[5]), cp(8, 5, 7)]);
}

#[test]
fn sequence_3_strand_3_is_solved() {
    let actions = actions_of(3, 3);
    assert_eq!(actions.len(), 4);
    assert_eq!(actions, vec![None, cp(4, 3, 1), mutate(&[1]), mutate(&[4, 8])]);
}

#[test]
fn sequence_3_strand_4_is_solved() {
    let actions = actions_of(3, 4);
    assert_eq!(actions.len(), 5);
    assert_eq!(actions, vec![None, cp(1, 0, 5), cp(3, 1, 6), mutate(&[4]), mutate(&[5])]);
}

#[test]
fn sequence_3_strand_5_is_solved() {
    let actions = actions_of(3, 5);
    assert_eq!(actions.len(), 5);
    assert_eq!(actions, vec![None, mutate(&[1]), mutate(&[4, 6]), cp(1, 0, 8), cp(7, 1, 6)]);
}

#[test]
fn sequence_3_strand_6_is_solved() {
    let actions = actions_of(3, 6);
    assert_eq!(actions.len(), 5);
    assert_eq!(actions, vec![None, cp(3, 1, 0), cp(5, 4, 2), mutate(&[3]), mutate(&[4, 5])]);
}

#[test]
fn sequence_3_strand_7_is_solved() {
    let actions = actions_of(3, 7);
    assert_eq!(actions.len(), 6);
    assert_eq!(actions, vec![None, mutate(&[3]), cp(8, 7, 1), cp(5, 4, 1), mutate(&[5, 8]), mutate(&[4, 7])]);
}

#[test]
fn sequence_4_strand_1_is_solved() {
    let actions = actions_of(4, 1);
    assert_eq!(actions.len(), 3);
    assert_eq!(actions, vec![None, mutate(&[4]), mutate(&[2])]);
}

#[test]
fn sequence_4_strand_2_is_solved() {
    let actions = actions_of(4, 2);
    assert_eq!(actions.len(), 3);
    assert_eq!(actions, vec![None, cp(4, 0, 2), mutate(&[2])]);
}

#[test]
fn sequence_4_strand_3_is_solved() {
    let actions = actions_of(4, 3);
    assert_eq!(actions.len(), 4);
    assert_eq!(actions, vec![None, cp(10, 6, 5), mutate(&[5]), cp(2, 1, 3)]);
}

#[test]
fn sequence_4_strand_4_is_solved() {
    let actions = actions_of(4, 4);
    assert_eq!(actions.len(), 5);
    assert_eq!(actions, vec![None, cp(2, 1, 6), cp(8, 7, 1), cp(10, 7, 3), mutate(&[4])]);
}

#[test]
fn levels_hold_the_strands_of_the_catalogue() {
    let first = makeLevel(SequenceNumber(1), StrandNumber(1)).expect("a level");
    assert!(first.start.hasSameCells(&Strand::new(3, &[(0, 1), (1, 2)], &[])));
    assert!(first.target.hasSameCells(&Strand::new(3, &[(0, 1), (0, 2)], &[])));
    assert_eq!(first.maxSplices, 1);
    let doubled = makeLevel(SequenceNumber(2), StrandNumber(7)).expect("a level");
    assert!(doubled.start.hasSameCells(&Strand::new(
        3,
        &[(0, 1), (1, 2)],
        &[(1, CellKind::Doubler), (2, CellKind::Doubler)]
    )));
    assert!(doubled.target.hasSameCells(&Strand::new(
        9,
        &[(0, 1), (1, 2), (2, 3), (2, 4), (0, 5), (5, 6), (6, 7), (6, 8)],
        &[]
    )));
    assert_eq!(doubled.maxSplices, 2);
    let extended = makeLevel(SequenceNumber(3), StrandNumber(2)).expect("a level");
    assert_eq!(extended.start.cellKind(1), CellKind::Extender);
    assert_eq!(extended.start.cellKind(4), CellKind::Extender);
    assert_eq!(extended.start.cellKind(5), CellKind::Extender);
    assert_eq!(extended.start.cellKind(2), CellKind::Normal);
    let erased = makeLevel(SequenceNumber(4), StrandNumber(1)).expect("a level");
    assert_eq!(erased.start.cellKind(2), CellKind::Eraser);
    assert_eq!(erased.start.cellKind(4), CellKind::Eraser);
    assert_eq!(erased.maxSplices, 0);
    assert_eq!(erased.target.nodeCount(), 3);
    let last = makeLevel(SequenceNumber(4), StrandNumber(4)).expect("a level");
    assert_eq!(last.maxSplices, 3);
    assert_eq!(last.start.nodeCount(), 11);
    assert_eq!(last.target.collectEdges(), vec![(0, 1), (1, 2), (2, 3), (1, 4), (4, 5)]);
}

#[test]
fn numbers_outside_the_catalogue_give_errors() {
    assert_eq!(makeLevel(SequenceNumber(0), StrandNumber(1)).err(), Some(LevelError::SequenceZero));
    assert_eq!(makeLevel(SequenceNumber(0), StrandNumber(0)).err(), Some(LevelError::SequenceZero));
    assert_eq!(makeLevel(SequenceNumber(1), StrandNumber(0)).err(), Some(LevelError::StrandZero));
    assert_eq!(makeLevel(SequenceNumber(9), StrandNumber(0)).err(), Some(LevelError::StrandZero));
    assert_eq!(
        makeLevel(SequenceNumber(5), StrandNumber(1)).err(),
        Some(LevelError::UnsupportedSequence(5))
    );
    assert_eq!(
        makeLevel(SequenceNumber(255), StrandNumber(3)).err(),
        Some(LevelError::UnsupportedSequence(255))
    );
    assert_eq!(
        makeLevel(SequenceNumber(1), StrandNumber(8)).err(),
        Some(LevelError::UnsupportedStrand(8))
    );
    assert_eq!(
        makeLevel(SequenceNumber(4), StrandNumber(5)).err(),
        Some(LevelError::UnsupportedStrand(5))
    );
    for sequence in 1..=4u8 {
        let strands = if sequence == 4 { 4 } else { 7 };
        for strand in 1..=strands {
            assert!(makeLevel(SequenceNumber(sequence), StrandNumber(strand)).is_ok());
        }
    }
}

#[test]
fn errors_have_their_texts() {
    assert_eq!(LevelError::SequenceZero.message(), "Sequence number must start at 1, got 0.");
    assert_eq!(LevelError::StrandZero.message(), "Strand number must start at 1, got 0.");
    assert_eq!(LevelError::UnsupportedSequence(5).message(), "Unsupported sequence number: 5");
    assert_eq!(LevelError::UnsupportedStrand(13).message(), "Unsupported strand number: 13");
    assert_eq!(
        LevelError::Malformed.message(),
        "The description of the level gives no strand."
    );
}

#[test]
fn descriptions_are_checked_before_a_level_is_made() {
    let good = StrandInfo { nodeCount: 3, edges: &[(0, 1), (1, 2)], mutables: &[] };
    let bad = StrandInfo { nodeCount: 3, edges: &[(0, 1), (1, 2), (2, 0)], mutables: &[] };
    assert!(describesStrand(&good));
    assert!(!describesStrand(&bad));
    assert!(makeStrand(&good).hasSameCells(&Strand::new(3, &[(0, 1), (1, 2)], &[])));
    let level = makeLevelFrom(LevelInfo {
        start: good,
        target: StrandInfo {
            nodeCount: 3,
            edges: &[(0, 1), (0, 2)],
            mutables: &[(2, CellKind::Eraser)],
        },
        maxSplices: 4,
    });
    assert_eq!(level.maxSplices, 4);
    assert_eq!(level.start.collectEdges(), vec![(0, 1), (1, 2)]);
    assert_eq!(level.target.collectEdges(), vec![(0, 1), (0, 2)]);
    assert_eq!(level.target.cellKind(2), CellKind::Eraser);
}
