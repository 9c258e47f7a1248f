//! What is shown of a solution: for every step a caption and the strand as a
//! graph in the DOT language.
use crate::captions::{makeSolutionStepDescription, step_caption};
use crate::graph_utils::{dot_graph, formatDotGraph};
use crate::level_solver::{ActionView, SolutionStep, StepView};
use vstd::prelude::*;

verus! {

/// What is shown of one step.
pub struct SolutionStepVisual {
    pub description: String,
    pub dotGraph: String,
}

/// What is shown of one step, as the contracts see it.
pub struct VisualView {
    pub description: Seq<char>,
    pub dotGraph: Seq<char>,
}

impl View for SolutionStepVisual {
    type V = VisualView;

    open spec fn view(&self) -> VisualView {
        VisualView { description: self.description@, dotGraph: self.dotGraph@ }
    }
}

/// Why nothing is shown.
#[derive(Clone, Copy, Debug, PartialEq, Eq, Structural)]
pub enum VisualsError {
    /// There is a solution, and it has no step.
    NoSteps,
    /// There is a solution, and it has the start as its only step.
    OnlyStart,
    /// There is no solution.
    NoSolution,
}

/// The text of an error.
pub open spec fn error_text(error: VisualsError) -> Seq<char> {
    match error {
        VisualsError::NoSteps => "Solution was found, but has no steps."@,
        VisualsError::OnlyStart => "Solution was found, but contains only 1 entry instead of at least 2 - start and end.As if the starting state was already solved."@,
        VisualsError::NoSolution => "No solution was found."@,
    }
}

impl VisualsError {
    /// The text of the error.
    pub fn message(&self) -> (text: String)
        ensures
            text@ == error_text(*self),
    {
        match self {
            VisualsError::NoSteps => String::from_str("Solution was found, but has no steps."),
            VisualsError::OnlyStart => String::from_str(
                "Solution was found, but contains only 1 entry instead of at least 2 - start and end.As if the starting state was already solved.",
            ),
            VisualsError::NoSolution => String::from_str("No solution was found."),
        }
    }
}

/// What is shown of a step: the caption of its move and its strand as a
/// graph.
pub open spec fn visual_of(step: StepView) -> VisualView {
    VisualView { description: step_caption(step.lastAction), dotGraph: dot_graph(step.strand) }
}

/// The step has a caption: its move is no mutation of no cell.
pub open spec fn has_caption(step: StepView) -> bool {
    step.lastAction matches Some(ActionView::Mutate { nodes }) ==> nodes.len() > 0
}

/// What is shown of the steps of a list, as the contracts see it.
pub open spec fn visuals_view(visuals: Seq<SolutionStepVisual>) -> Seq<VisualView> {
    visuals.map_values(|visual: SolutionStepVisual| visual@)
}

/// What is shown of a solution, or why nothing is.
pub open spec fn visuals_of(solution: Option<Seq<StepView>>) -> Result<Seq<VisualView>, VisualsError> {
    match solution {
        Some(steps) => if steps.len() == 0 {
            Err(VisualsError::NoSteps)
        } else if steps.len() == 1 {
            Err(VisualsError::OnlyStart)
        } else {
            Ok(steps.map_values(|step: StepView| visual_of(step)))
        },
        None => Err(VisualsError::NoSolution),
    }
}

/// What is shown, or why nothing is, as the contracts see it.
pub open spec fn shown_view(shown: Result<Vec<SolutionStepVisual>, VisualsError>) -> Result<
    Seq<VisualView>,
    VisualsError,
> {
    match shown {
        Ok(visuals) => Ok(visuals_view(visuals@)),
        Err(error) => Err(error),
    }
}

/// What is shown of a solution of two steps at least; the reason why nothing
/// is shown of a shorter one or of none.
pub fn makeSolutionVisuals(solutionOpt: Option<Vec<SolutionStep>>) -> (shown: Result<
    Vec<SolutionStepVisual>,
    VisualsError,
>)
    requires
        solutionOpt matches Some(steps) ==> forall|i: int|
            0 <= i < steps.len() ==> has_caption(#[trigger] steps[i]@),
    ensures
        shown_view(shown) == visuals_of(crate::level_solver::path_view(solutionOpt)),
{
    match solutionOpt {
        Some(solution) => {
            if solution.len() == 0 {
                Err(VisualsError::NoSteps)
            } else if solution.len() == 1 {
                Err(VisualsError::OnlyStart)
            } else {
                Ok(makeValidSolutionVisuals(solution.as_slice()))
            }
        },
        None => Err(VisualsError::NoSolution),
    }
}

/// What is shown of every step of the list.
pub fn makeValidSolutionVisuals(solution: &[SolutionStep]) -> (output: Vec<SolutionStepVisual>)
    requires
        forall|i: int| 0 <= i < solution@.len() ==> has_caption(#[trigger] solution@[i]@),
    ensures
        visuals_view(output@) == crate::level_solver::steps_view(solution@).map_values(
            |step: StepView| visual_of(step),
        ),
{
    let mut output: Vec<SolutionStepVisual> = Vec::new();
    let mut index: usize = 0;
    while index < solution.len()
        invariant
            index <= solution.len(),
            forall|i: int| 0 <= i < solution@.len() ==> has_caption(#[trigger] solution@[i]@),
            output.len() == index,
            forall|i: int| 0 <= i < index ==> (#[trigger] output[i])@ == visual_of(solution@[i]@),
        decreases solution.len() - index,
    {
        let solutionStep = &solution[index];
        assert(has_caption(solution@[index as int]@));
        let description = makeSolutionStepDescription(&solutionStep.lastAction);
        let dotGraph = formatDotGraph(&solutionStep.strand);
        output.push(SolutionStepVisual { description, dotGraph });
        index += 1;
    }
    assert(visuals_view(output@) =~= crate::level_solver::steps_view(solution@).map_values(
        |step: StepView| visual_of(step),
    ));
    output
}

} // verus!
