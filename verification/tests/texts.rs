use splice_solver::captions::{
    appendNumber, formatNodesIntoList, makeMutateStepDescription, makeSolutionStepDescription,
};
use splice_solver::forest::CellKind;
use splice_solver::graph_utils::{formatDotGraph, formatNode};
use splice_solver::level_solver::{Action, SolutionStep};
use splice_solver::selection::LevelSelection;
use splice_solver::strand::Strand;
use splice_solver::visuals::{makeSolutionVisuals, makeValidSolutionVisuals, VisualsError};

#[test]
fn numbers_are_written_in_decimal() {
    for value in [0u8, 1, 9, 10, 11, 19, 20, 99, 100, 101, 110, 199, 200, 209, 255] {
        let mut text = String::from("n");
        appendNumber(&mut text, value);
        assert_eq!(text, format!("n{}", value));
    }
    for value in 0..=255u8 {
        let mut text = String::new();
        appendNumber(&mut text, value);
        assert_eq!(text, value.to_string());
    }
}

#[test]
fn lists_of_nodes_are_joined() {
    assert_eq!(formatNodesIntoList(&[]), "");
    assert_eq!(formatNodesIntoList(&[7]), "7");
    assert_eq!(formatNodesIntoList(&[7, 12]), "7 and 12");
    assert_eq!(formatNodesIntoList(&[1, 2, 3]), "1, 2 and 3");
    assert_eq!(formatNodesIntoList(&[4, 6, 100, 255]), "4, 6, 100 and 255");
}

#[test]
fn mutations_are_described() {
    assert_eq!(makeMutateStepDescription(&[5]), "Mutate node 5");
    assert_eq!(makeMutateStepDescription(&[4, 6]), "Mutate nodes 4 and 6");
    assert_eq!(makeMutateStepDescription(&[1, 2, 30]), "Mutate nodes 1, 2 and 30");
}

#[test]
fn steps_are_described() {
    assert_eq!(makeSolutionStepDescription(&None), "Start");
    assert_eq!(
        makeSolutionStepDescription(&Some(Action::ChangeParent {
            node: 2,
            oldParent: 1,
            newParent: 0
        })),
        "Change parent of node 2 from 1 to 0"
    );
    assert_eq!(
        makeSolutionStepDescription(&Some(Action::ChangeParent {
            node: 120,
            oldParent: 34,
            newParent: 255
        })),
        "Change parent of node 120 from 34 to 255"
    );
    assert_eq!(
        makeSolutionStepDescription(&Some(Action::SwapChildren { parent: 10 })),
        "Swap children of parent node 10"
    );
    assert_eq!(
        makeSolutionStepDescription(&Some(Action::Mutate { nodes: vec![3] })),
        "Mutate node 3"
    );
    assert_eq!(
        makeSolutionStepDescription(&Some(Action::Mutate { nodes: vec![3, 6] })),
        "Mutate nodes 3 and 6"
    );
}

#[test]
fn nodes_are_labelled_by_kind() {
    let strand = Strand::new(
        4,
        &[(0, 1), (1, 2), (1, 3)],
        &[(1, CellKind::Doubler), (2, CellKind::Extender), (3, CellKind::Eraser)],
    );
    assert_eq!(formatNode(0, &strand), "0");
    assert_eq!(formatNode(1, &strand), "\"1 (doubler)\"");
    assert_eq!(formatNode(2, &strand), "\"2 (extender)\"");
    assert_eq!(formatNode(3, &strand), "\"3 (eraser)\"");
}

#[test]
fn strands_are_written_as_dot_graphs() {
    let plain = Strand::new(3, &[(0, 1), (1, 2)], &[]);
    assert_eq!(formatDotGraph(&plain), "digraph {\n    0 -> 1\n    1 -> 2\n}");
    let single = Strand::new(1, &[], &[]);
    assert_eq!(formatDotGraph(&single), "digraph {\n}");
    let special = Strand::new(4, &[(0, 2), (0, 1), (2, 3)], &[(2, CellKind::Doubler)]);
    assert_eq!(
        formatDotGraph(&special),
        "digraph {\n    0 -> \"2 (doubler)\"\n    \"2 (doubler)\" -> 3\n    0 -> 1\n}"
    );
}

#[test]
fn erased_cells_are_not_drawn() {
    let mut strand = Strand::new(4, &[(0, 1), (0, 2), (1, 3)], &[(1, CellKind::Eraser)]);
    strand.mutate();
    assert_eq!(formatDotGraph(&strand), "digraph {\n    0 -> 2\n}");
}

fn two_steps() -> Vec<SolutionStep> {
    vec![
        SolutionStep::new(Strand::new(3, &[(0, 1), (1, 2)], &[]), None, 0),
        SolutionStep::new(
            Strand::new(3, &[(0, 1), (0, 2)], &[]),
            Some(Action::ChangeParent { node: 2, oldParent: 1, newParent: 0 }),
            1,
        ),
    ]
}

#[test]
fn solutions_are_shown_step_by_step() {
    let shown = makeSolutionVisuals(Some(two_steps())).ok().expect("visuals");
    assert_eq!(shown.len(), 2);
    assert_eq!(shown[0].description, "Start");
    assert_eq!(shown[0].dotGraph, "digraph {\n    0 -> 1\n    1 -> 2\n}");
    assert_eq!(shown[1].description, "Change parent of node 2 from 1 to 0");
    assert_eq!(shown[1].dotGraph, "digraph {\n    0 -> 1\n    0 -> 2\n}");
    let again = makeValidSolutionVisuals(&two_steps());
    assert_eq!(again.len(), 2);
    assert_eq!(again[1].description, shown[1].description);
    assert!(makeValidSolutionVisuals(&[]).is_empty());
}

#[test]
fn short_solutions_are_not_shown() {
    assert_eq!(makeSolutionVisuals(None).err(), Some(VisualsError::NoSolution));
    assert_eq!(makeSolutionVisuals(Some(vec![])).err(), Some(VisualsError::NoSteps));
    let mut one = two_steps();
    one.truncate(1);
    assert_eq!(makeSolutionVisuals(Some(one)).err(), Some(VisualsError::OnlyStart));
    assert_eq!(VisualsError::NoSolution.message(), "No solution was found.");
    assert_eq!(VisualsError::NoSteps.message(), "Solution was found, but has no steps.");
    assert_eq!(
        VisualsError::OnlyStart.message(),
        "Solution was found, but contains only 1 entry instead of at least 2 - start and end.\
         As if the starting state was already solved."
    );
}

#[test]
fn selection_follows_the_choice() {
    let mut selection = LevelSelection::new();
    assert_eq!(selection.sequenceNumber.0, 1);
    assert_eq!(selection.strandNumber.0, 1);
    assert_eq!(selection.maxStrandNumber.0, 7);
    assert!(selection.onStrandNumberChanged(4));
    assert_eq!(selection.strandNumber.0, 4);
    assert!(!selection.onStrandNumberChanged(4));
    selection.onSequenceNumberChanged(5);
    assert_eq!(selection.sequenceNumber.0, 5);
    assert_eq!(selection.strandNumber.0, 1);
    assert_eq!(selection.maxStrandNumber.0, 2);
    selection.onSequenceNumberChanged(3);
    assert_eq!(selection.maxStrandNumber.0, 7);
}
