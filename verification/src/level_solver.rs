//! The search for a shortest solution of a level.
use crate::children::positionOf;
use crate::edits::{reparented, swapped};
use crate::equality::shape;
use crate::forest::{
    children_of, kind_of, live, parent_of, preorder, tree, within, CellKind, NodeId, Slots,
};
use crate::level_maker::{Level, LevelView, SpliceCount};
use crate::mutation::{
    handles, lemma_filter_push, lemma_subtree_cells, mutated, mutating_cells, mutation_ready,
};
use crate::strand::{sameHandles, Strand};
use pathfinding::directed::dijkstra::dijkstra;
use vstd::prelude::*;
use vstd::std_specs::cmp::PartialEqSpecImpl;

verus! {

/// The first step of a solution was led to by no move.
pub const NO_LAST_ACTION: Option<Action> = None;

/// The first step of a solution has made no splice.
pub const START_SPLICE_COUNT: SpliceCount = 0;

/// One move: what led from a step of a solution to the next.
#[derive(Debug, Hash)]
pub enum Action {
    ChangeParent { node: NodeId, oldParent: NodeId, newParent: NodeId },
    SwapChildren { parent: NodeId },
    Mutate { nodes: Vec<NodeId> },
}

/// A move as the contracts see it.
pub enum ActionView {
    ChangeParent { node: NodeId, oldParent: NodeId, newParent: NodeId },
    SwapChildren { parent: NodeId },
    Mutate { nodes: Seq<NodeId> },
}

impl View for Action {
    type V = ActionView;

    open spec fn view(&self) -> ActionView {
        match *self {
            Action::ChangeParent { node, oldParent, newParent } => ActionView::ChangeParent {
                node,
                oldParent,
                newParent,
            },
            Action::SwapChildren { parent } => ActionView::SwapChildren { parent },
            Action::Mutate { nodes } => ActionView::Mutate { nodes: nodes@ },
        }
    }
}

impl Clone for Action {
    fn clone(&self) -> (copy: Self)
        ensures
            copy@ == self@,
    {
        match self {
            Action::ChangeParent { node, oldParent, newParent } => Action::ChangeParent {
                node: *node,
                oldParent: *oldParent,
                newParent: *newParent,
            },
            Action::SwapChildren { parent } => Action::SwapChildren { parent: *parent },
            Action::Mutate { nodes } => {
                let copied = nodes.clone();
                assert(copied@ =~= nodes@);
                Action::Mutate { nodes: copied }
            },
        }
    }
}

impl PartialEq for Action {
    fn eq(&self, other: &Self) -> (same: bool) {
        match (self, other) {
            (
                Action::ChangeParent { node, oldParent, newParent },
                Action::ChangeParent { node: otherNode, oldParent: otherOld, newParent: otherNew },
            ) => *node == *otherNode && *oldParent == *otherOld && *newParent == *otherNew,
            (Action::SwapChildren { parent }, Action::SwapChildren { parent: otherParent }) => *parent
                == *otherParent,
            (Action::Mutate { nodes }, Action::Mutate { nodes: otherNodes }) => sameHandles(
                nodes.as_slice(),
                otherNodes.as_slice(),
            ),
            _ => false,
        }
    }
}

impl PartialEqSpecImpl for Action {
    open spec fn obeys_eq_spec() -> bool {
        true
    }

    open spec fn eq_spec(&self, other: &Self) -> bool {
        self@ == other@
    }
}

impl Eq for Action {

}

/// One state of the search: a strand, the move that led to it and the
/// number of splices made on the way.
#[derive(Debug, Hash)]
pub struct SolutionStep {
    pub strand: Strand,
    pub lastAction: Option<Action>,
    pub spliceCount: SpliceCount,
}

/// A step as the contracts see it.
pub struct StepView {
    pub strand: Slots,
    pub lastAction: Option<ActionView>,
    pub spliceCount: SpliceCount,
}

/// A move, or none, as the contracts see it.
pub open spec fn action_view(action: Option<Action>) -> Option<ActionView> {
    match action {
        Some(action) => Some(action@),
        None => None,
    }
}

impl View for SolutionStep {
    type V = StepView;

    open spec fn view(&self) -> StepView {
        StepView {
            strand: self.strand@,
            lastAction: action_view(self.lastAction),
            spliceCount: self.spliceCount,
        }
    }
}

/// The steps of a list as the contracts see them.
pub open spec fn steps_view(steps: Seq<SolutionStep>) -> Seq<StepView> {
    steps.map_values(|step: SolutionStep| step@)
}

/// The view of a list with one more step.
pub proof fn lemma_steps_view_push(steps: Seq<SolutionStep>, step: SolutionStep)
    ensures
        steps_view(steps.push(step)) == steps_view(steps).push(step@),
{
    assert(steps_view(steps.push(step)) =~= steps_view(steps).push(step@));
}

impl SolutionStep {
/// A step with the given parts.
    pub fn new(strand: Strand, lastAction: Option<Action>, spliceCount: SpliceCount) -> (step: Self)
        ensures
            step.strand == strand,
            step.lastAction == lastAction,
            step.spliceCount == spliceCount,
    {
        Self { strand, lastAction, spliceCount }
    }
}

impl Clone for SolutionStep {
    fn clone(&self) -> (copy: Self)
        ensures
            copy@ == self@,
    {
        let lastAction: Option<Action> = match &self.lastAction {
            Some(action) => Some(action.clone()),
            None => None,
        };
        SolutionStep { strand: self.strand.clone(), lastAction, spliceCount: self.spliceCount }
    }
}

impl PartialEq for SolutionStep {
    fn eq(&self, other: &Self) -> (same: bool) {
        let sameAction: bool = match (&self.lastAction, &other.lastAction) {
            (Some(left), Some(right)) => left == right,
            (None, None) => true,
            _ => false,
        };
        self.strand == other.strand && sameAction && self.spliceCount == other.spliceCount
    }
}

impl PartialEqSpecImpl for SolutionStep {
    open spec fn obeys_eq_spec() -> bool {
        true
    }

    open spec fn eq_spec(&self, other: &Self) -> bool {
        &&& shape(self.strand@) == shape(other.strand@)
        &&& action_view(self.lastAction) == action_view(other.lastAction)
        &&& self.spliceCount == other.spliceCount
    }
}

impl Eq for SolutionStep {

}

/// A step together with the cost of the move that led to it.
pub type StepAndCost = (SolutionStep, Cost);

/// The cost of a path.
pub type Cost = usize;

/// Cell `q` has room for `n` as one more child: it has no child, or one
/// child, and then neither that child nor `n` is a Doubler.
pub open spec fn admits(s: Slots, q: NodeId, n: NodeId) -> bool {
    let children = children_of(s, q as int);
    if children.len() == 0 {
        true
    } else if children.len() == 1 {
        kind_of(s, children[0] as int) != CellKind::Doubler && kind_of(s, n as int)
            != CellKind::Doubler
    } else {
        false
    }
}

/// Cell `n` can move under cell `q`: `q` is a cell other than `n` and its
/// parent, outside the subtree under `n`, and it has room for `n`.
pub open spec fn can_take(s: Slots, n: NodeId, q: NodeId) -> bool {
    &&& live(s, q as int)
    &&& q != n
    &&& parent_of(s, n as int) != Some(q)
    &&& !within(s, n, q)
    &&& admits(s, q, n)
}

/// The cells under which cell `n` can move, in ascending order of their
/// handles.
pub open spec fn candidates(s: Slots, n: NodeId) -> Seq<NodeId> {
    handles(s.len()).filter(|q: NodeId| can_take(s, n, q))
}

/// The step after cell `n` of `step` moved under `q`.
pub open spec fn moved_step(step: StepView, n: NodeId, q: NodeId) -> StepView {
    StepView {
        strand: reparented(step.strand, n, q),
        lastAction: Some(
            ActionView::ChangeParent {
                node: n,
                oldParent: parent_of(step.strand, n as int)->0,
                newParent: q,
            },
        ),
        spliceCount: (step.spliceCount + 1) as SpliceCount,
    }
}

/// The step after the children of cell `p` of `step` changed places.
pub open spec fn swapped_step(step: StepView, p: NodeId) -> StepView {
    StepView {
        strand: swapped(step.strand, p),
        lastAction: Some(ActionView::SwapChildren { parent: p }),
        spliceCount: (step.spliceCount + 1) as SpliceCount,
    }
}

/// The step after the mutation pass of `step`.
pub open spec fn mutated_step(step: StepView) -> StepView {
    StepView {
        strand: mutated(step.strand),
        lastAction: Some(ActionView::Mutate { nodes: mutating_cells(step.strand) }),
        spliceCount: step.spliceCount,
    }
}

/// The splices that the visit of cell `n` adds to the successors of `step`:
/// none where `n` has no parent or no splice is left; else a move of `n`
/// under every candidate, in ascending order, and then, where the parent of
/// `n` has two children, the exchange of those.
pub open spec fn splices_at(step: StepView, n: NodeId, max: SpliceCount) -> Seq<StepView> {
    let s = step.strand;
    match parent_of(s, n as int) {
        None => Seq::empty(),
        Some(p) => if step.spliceCount < max {
            candidates(s, n).map_values(|q: NodeId| moved_step(step, n, q)) + (if children_of(
                s,
                p as int,
            ).len() == 2 {
                seq![swapped_step(step, p)]
            } else {
                Seq::empty()
            })
        } else {
            Seq::empty()
        },
    }
}

/// The splices that the visits of the cells of `order` add, one cell after
/// the other.
pub open spec fn splices(step: StepView, order: Seq<NodeId>, max: SpliceCount) -> Seq<StepView>
    decreases order.len(),
{
    if order.len() == 0 {
        Seq::empty()
    } else {
        splices(step, order.drop_last(), max) + splices_at(step, order.last(), max)
    }
}

/// The successor by mutation, where a cell mutates.
pub open spec fn mutations(step: StepView) -> Seq<StepView> {
    if mutating_cells(step.strand).len() > 0 {
        seq![mutated_step(step)]
    } else {
        Seq::empty()
    }
}

/// The successors of a step: the splices that the visits of its cells add,
/// the cells taken in left-to-right depth-first order from the root, and
/// then the successor by mutation.
pub open spec fn successors(step: StepView, max: SpliceCount) -> Seq<StepView> {
    splices(step, preorder(step.strand, 0), max) + mutations(step)
}

/// The cells of the subtree under `nodeId`, but for `nodeId` itself.
pub fn findChildrenRecursively(nodeId: NodeId, strand: &Strand) -> (result: Vec<NodeId>)
    requires
        live(strand@, nodeId as int),
    ensures
        result@ == preorder(strand@, nodeId).skip(1),
{
    let below = strand.collectNodeIdsFrom(nodeId);
    proof {
        lemma_subtree_cells(strand@, nodeId);
    }
    let mut result: Vec<NodeId> = Vec::new();
    let mut index: usize = 1;
    assert(below@.subrange(1, 1) =~= Seq::<NodeId>::empty());
    while index < below.len()
        invariant
            1 <= index <= below.len(),
            below@ == preorder(strand@, nodeId),
            result@ == below@.subrange(1, index as int),
        decreases below.len() - index,
    {
        result.push(below[index]);
        assert(below@.subrange(1, index + 1) =~= below@.subrange(1, index as int).push(
            below[index as int],
        ));
        index += 1;
    }
    assert(below@.subrange(1, below.len() as int) =~= below@.skip(1));
    result
}

/// The cells under which cell `nodeId`, a child of `parentId`, can move, in
/// ascending order of their handles.
pub fn findPotentialNewParents(nodeId: NodeId, parentId: NodeId, strand: &Strand) -> (outputNodeIds:
    Vec<NodeId>)
    requires
        live(strand@, nodeId as int),
        parent_of(strand@, nodeId as int) == Some(parentId),
    ensures
        outputNodeIds@ == candidates(strand@, nodeId),
{
    let ghost s = strand@;
    let nodeCount: usize = strand.nodeCount();
    let mut excludedIndices: Vec<NodeId> = Vec::new();
    excludedIndices.push(nodeId);
    excludedIndices.push(parentId);
    let mut children = findChildrenRecursively(nodeId, strand);
    excludedIndices.append(&mut children);
    proof {
        lemma_subtree_cells(s, nodeId);
        let below = preorder(s, nodeId);
        assert forall|q: NodeId| #[trigger] excludedIndices@.contains(q) <==> (q == nodeId || q
            == parentId || below.contains(q)) by {
            if below.contains(q) {
                let i = choose|i: int| 0 <= i < below.len() && below[i] == q;
                if i >= 1 {
                    assert(excludedIndices@[i + 1] == q);
                }
            }
            if excludedIndices@.contains(q) {
                let i = choose|i: int| 0 <= i < excludedIndices@.len() && excludedIndices@[i] == q;
                if i >= 2 {
                    assert(below[i - 1] == q);
                } else if i == 0 {
                    assert(excludedIndices@[0] == nodeId);
                } else {
                    assert(excludedIndices@[1] == parentId);
                }
            }
            if q == nodeId {
                assert(excludedIndices@[0] == nodeId);
            }
            if q == parentId {
                assert(excludedIndices@[1] == parentId);
            }
        }
    }
    let mut outputNodeIds: Vec<NodeId> = Vec::new();
    let mut index: usize = 0;
    assert(handles(0) =~= Seq::<NodeId>::empty());
    while index < nodeCount
        invariant
            index <= nodeCount,
            nodeCount == s.len(),
            nodeCount <= 256,
            s == strand@,
            tree(s),
            live(s, nodeId as int),
            parent_of(s, nodeId as int) == Some(parentId),
            forall|q: NodeId| #[trigger]
                excludedIndices@.contains(q) <==> (q == nodeId || q == parentId || within(
                    s,
                    nodeId,
                    q,
                )),
            outputNodeIds@ == handles(index as nat).filter(|q: NodeId| can_take(s, nodeId, q)),
        decreases nodeCount - index,
    {
        let id: NodeId = index as NodeId;
        proof {
            assert(handles((index + 1) as nat) =~= handles(index as nat).push(id));
            lemma_filter_push(handles(index as nat), id, |q: NodeId| can_take(s, nodeId, q));
            lemma_subtree_cells(s, nodeId);
        }
        if strand.holdsCell(id) && positionOf(excludedIndices.as_slice(), id).is_none() {
            assert(!excludedIndices@.contains(id));
            let childIds = strand.childIds(id);
            let fits: bool = if childIds.len() == 0 {
                true
            } else if childIds.len() == 1 {
                assert(crate::forest::node_linked(s, id as int));
                assert(live(s, childIds@[0] as int));
                strand.cellKind(childIds[0]) != CellKind::Doubler && strand.cellKind(nodeId)
                    != CellKind::Doubler
            } else {
                false
            };
            assert(fits == admits(s, id, nodeId));
            assert(fits == can_take(s, nodeId, id));
            if fits {
                outputNodeIds.push(id);
            }
        } else {
            proof {
                if live(s, id as int) {
                    assert(excludedIndices@.contains(id));
                }
                assert(!can_take(s, nodeId, id));
            }
        }
        index += 1;
    }
    outputNodeIds
}

/// A copy of the strand in which `nodeId` moved under `newParentId`.
pub fn makeStrandWithNewParent(nodeId: NodeId, newParentId: NodeId, strand: &Strand) -> (newStrand:
    Strand)
    requires
        live(strand@, nodeId as int),
        parent_of(strand@, nodeId as int) is Some,
        can_take(strand@, nodeId, newParentId),
    ensures
        newStrand@ == reparented(strand@, nodeId, newParentId),
{
    let mut newStrand = strand.clone();
    newStrand.changeParent(nodeId, newParentId);
    newStrand
}

/// A copy of the strand in which the children of `parentId` changed places.
pub fn makeStrandWithSwappedChildren(parentId: NodeId, strand: &Strand) -> (newStrand: Strand)
    requires
        live(strand@, parentId as int),
        children_of(strand@, parentId as int).len() == 2,
    ensures
        newStrand@ == swapped(strand@, parentId),
{
    let mut newStrand = strand.clone();
    newStrand.swapChildren(parentId);
    newStrand
}

/// The splices that the visit of cell `nodeId` adds to the successors of
/// `solutionStep`.
pub fn makeSolutionStepsBySplicing(
    nodeId: NodeId,
    solutionStep: &SolutionStep,
    maxSplices: SpliceCount,
) -> (result: Vec<SolutionStep>)
    requires
        live(solutionStep.strand@, nodeId as int),
    ensures
        steps_view(result@) == splices_at(solutionStep@, nodeId, maxSplices),
{
    let strand = &solutionStep.strand;
    let ghost s = strand@;
    let ghost step = solutionStep@;
    let parent: NodeId = match strand.parentId(nodeId) {
        Some(parent) => parent,
        None => {
            let nothing: Vec<SolutionStep> = Vec::new();
            assert(steps_view(nothing@) =~= splices_at(step, nodeId, maxSplices));
            return nothing;
        },
    };
    let mut result: Vec<SolutionStep> = Vec::new();
    if solutionStep.spliceCount < maxSplices {
        let newSpliceCount: SpliceCount = solutionStep.spliceCount + 1;
        let newParents = findPotentialNewParents(nodeId, parent, strand);
        let ghost moves = candidates(s, nodeId).map_values(|q: NodeId| moved_step(step, nodeId, q));
        let mut index: usize = 0;
        while index < newParents.len()
            invariant
                index <= newParents.len(),
                s == solutionStep.strand@,
                s == strand@,
                step == solutionStep@,
                newParents@ == candidates(s, nodeId),
                moves == candidates(s, nodeId).map_values(|q: NodeId| moved_step(step, nodeId, q)),
                live(s, nodeId as int),
                parent_of(s, nodeId as int) == Some(parent),
                newSpliceCount == solutionStep.spliceCount + 1,
                steps_view(result@) == moves.take(index as int),
            decreases newParents.len() - index,
        {
            let newParent: NodeId = newParents[index];
            proof {
                let all = handles(s.len());
                let accepts = |q: NodeId| can_take(s, nodeId, q);
                assert(all.filter(accepts).contains(newParent));
                all.lemma_filter_contains_rev(accepts, newParent);
            }
            let next = SolutionStep::new(
                makeStrandWithNewParent(nodeId, newParent, strand),
                Some(Action::ChangeParent { node: nodeId, oldParent: parent, newParent }),
                newSpliceCount,
            );
            assert(next@ == moves[index as int]);
            proof {
                lemma_steps_view_push(result@, next);
            }
            result.push(next);
            assert(moves.take(index + 1) =~= moves.take(index as int).push(moves[index as int]));
            index += 1;
        }
        assert(moves.take(newParents.len() as int) =~= moves);
        assert(live(s, parent as int)) by {
            assert(crate::forest::node_linked(s, nodeId as int));
        }
        if strand.childCount(parent) == 2 {
            let next = SolutionStep::new(
                makeStrandWithSwappedChildren(parent, strand),
                Some(Action::SwapChildren { parent }),
                newSpliceCount,
            );
            proof {
                lemma_steps_view_push(result@, next);
            }
            result.push(next);
            assert(steps_view(result@) =~= moves + seq![swapped_step(step, parent)]);
        } else {
            assert(steps_view(result@) =~= moves + Seq::<StepView>::empty());
        }
    } else {
        assert(steps_view(result@) =~= splices_at(step, nodeId, maxSplices));
    }
    result
}

/// The successor of `solutionStep` by mutation, where a cell mutates.
pub fn makeSolutionStepByMutation(solutionStep: &SolutionStep) -> (next: Option<SolutionStep>)
    requires
        mutation_ready(solutionStep.strand@),
    ensures
        match next {
            Some(next) => mutations(solutionStep@) == seq![next@],
            None => mutations(solutionStep@) == Seq::<StepView>::empty(),
        },
{
    let mut newStrand = solutionStep.strand.clone();
    let mutatedNodeIds = newStrand.mutate();
    if mutatedNodeIds.len() != 0 {
        Some(
            SolutionStep::new(
                newStrand,
                Some(Action::Mutate { nodes: mutatedNodeIds }),
                solutionStep.spliceCount,
            ),
        )
    } else {
        None
    }
}

/// Whether the strand of the step has the shape of the target.
pub fn isGoalReached(node: &SolutionStep, target: &Strand) -> (reached: bool)
    ensures
        reached == (shape(node.strand@) == shape(target@)),
{
    node.strand.isEqualOnSurface(target)
}

/// The steps of a list of steps with their costs, as the contracts see them.
pub open spec fn targets(pairs: Seq<StepAndCost>) -> Seq<StepView> {
    pairs.map_values(|pair: StepAndCost| pair.0@)
}

/// Every step of the list together with the cost 1.
fn withUnitCost(steps: Vec<SolutionStep>) -> (pairs: Vec<StepAndCost>)
    ensures
        targets(pairs@) == steps_view(steps@),
        forall|i: int| 0 <= i < pairs.len() ==> (#[trigger] pairs[i]).1 == 1,
{
    let ghost all = steps@;
    let mut pairs: Vec<StepAndCost> = Vec::new();
    for step in each: steps
        invariant
            each.seq() == all,
            pairs.len() == each.index(),
            forall|i: int|
                0 <= i < pairs.len() ==> (#[trigger] pairs[i]).0 == all[i] && pairs[i].1 == 1,
    {
        pairs.push((step, 1));
    }
    assert(targets(pairs@) =~= steps_view(all));
    pairs
}

/// The splices of a longer list of cells.
pub proof fn lemma_splices_push(step: StepView, order: Seq<NodeId>, n: NodeId, max: SpliceCount)
    ensures
        splices(step, order.push(n), max) == splices(step, order, max) + splices_at(step, n, max),
{
    assert(order.push(n).drop_last() =~= order);
}

/// The view of two lists of steps put together.
pub proof fn lemma_steps_view_add(left: Seq<SolutionStep>, right: Seq<SolutionStep>)
    ensures
        steps_view(left + right) == steps_view(left) + steps_view(right),
{
    assert(steps_view(left + right) =~= steps_view(left) + steps_view(right));
}

/// The successors of a step, each with the cost 1: for every cell, in
/// left-to-right depth-first order from the root, the splices that move it or
/// exchange the children of its parent, as far as a splice is left, and then
/// the successor by mutation, where a cell mutates.
pub fn makeSuccessors(solutionStep: &SolutionStep, maxSplices: SpliceCount) -> (result: Vec<
    StepAndCost,
>)
    requires
        mutation_ready(solutionStep.strand@),
    ensures
        targets(result@) == successors(solutionStep@, maxSplices),
        forall|i: int| 0 <= i < result.len() ==> (#[trigger] result[i]).1 == 1,
{
    let mut successors: Vec<SolutionStep> = Vec::new();
    let strand = &solutionStep.strand;
    let ghost s = strand@;
    let ghost step = solutionStep@;
    let order = strand.collectNodeIds();
    proof {
        lemma_subtree_cells(s, 0);
    }
    let mut index: usize = 0;
    assert(steps_view(successors@) =~= splices(step, order@.take(0), maxSplices));
    while index < order.len()
        invariant
            index <= order.len(),
            s == solutionStep.strand@,
            s == strand@,
            step == solutionStep@,
            order@ == preorder(s, 0),
            forall|i: int| 0 <= i < order.len() ==> live(s, #[trigger] order[i] as int),
            steps_view(successors@) == splices(step, order@.take(index as int), maxSplices),
        decreases order.len() - index,
    {
        let strandNodeId: NodeId = order[index];
        assert(live(s, order[index as int] as int));
        let mut steps = makeSolutionStepsBySplicing(strandNodeId, solutionStep, maxSplices);
        proof {
            lemma_steps_view_add(successors@, steps@);
            lemma_splices_push(step, order@.take(index as int), strandNodeId, maxSplices);
            assert(order@.take(index + 1) =~= order@.take(index as int).push(strandNodeId));
        }
        successors.append(&mut steps);
        index += 1;
    }
    assert(order@.take(order.len() as int) =~= order@);
    if let Some(newSolutionStep) = makeSolutionStepByMutation(solutionStep) {
        proof {
            lemma_steps_view_push(successors@, newSolutionStep);
        }
        successors.push(newSolutionStep);
        assert(steps_view(successors@) =~= splices(step, order@, maxSplices) + seq![
            newSolutionStep@,
        ]);
    } else {
        assert(steps_view(successors@) =~= splices(step, order@, maxSplices) + Seq::<
            StepView,
        >::empty());
    }
    withUnitCost(successors)
}

/// The search ends at the step: its strand has the shape of the target, or
/// its mutation pass cannot be carried out.
pub open spec fn ends_search(step: StepView, target: Slots) -> bool {
    shape(step.strand) == shape(target) || !mutation_ready(step.strand)
}

/// Whether the search ends at the step.
pub fn endsSearch(step: &SolutionStep, target: &Strand) -> (ends: bool)
    ensures
        ends == ends_search(step@, target@),
{
    isGoalReached(step, target) || !step.strand.canMutate()
}

/// What a path, or none, is as the contracts see it.
pub open spec fn path_view(path: Option<Vec<SolutionStep>>) -> Option<Seq<StepView>> {
    match path {
        Some(steps) => Some(steps_view(steps@)),
        None => None,
    }
}

/// The path that `pathfinding`'s `dijkstra` returns for a start step, a
/// target and a number of splices, where it is asked for the successors of a
/// step with `makeSuccessors` and whether to end at a step with
/// `endsSearch`.
pub uninterp spec fn dijkstra_path(start: StepView, target: Slots, maxSplices: SpliceCount) -> Option<
    Seq<StepView>,
>;

/// `pathfinding::directed::dijkstra::dijkstra` from `startStep`, with the
/// successors that `makeSuccessors` gives, each at cost 1, and ending where
/// `endsSearch` says so. The cost that comes with the path is dropped.
///
/// Two things are claimed of the path. The same start, target and number of
/// splices give the same path: the search keeps its states in an `IndexMap`
/// with a hasher that is not seeded and in a `BinaryHeap`, and reads of a
/// step what its equality, its hash and the two functions read. And where
/// the search ends at the start step, the path is that step alone: the
/// start step is the first that `dijkstra` asks about.
///
/// `dijkstra` asks for the successors of a step only after it asked whether
/// to end there and was told not to, so `makeSuccessors` is called on steps
/// whose mutation pass can be carried out.
#[verifier::external_body]
fn findShortestPath(startStep: &SolutionStep, target: &Strand, maxSplices: SpliceCount) -> (found:
    Option<Vec<SolutionStep>>)
    ensures
        path_view(found) == dijkstra_path(startStep@, target@, maxSplices),
        ends_search(startStep@, target@) ==> path_view(found) == Some(seq![startStep@]),
{
    dijkstra(
        startStep,
        |step| makeSuccessors(step, maxSplices),
        |step| endsSearch(step, target),
    ).map(|(nodes, _cost)| nodes)
}

/// `next` follows from `prev` by one move: a legal change of parent or a
/// legal exchange of children, each of which takes one of the splices that
/// are left, or a mutation pass, which takes none.
pub open spec fn is_move(prev: StepView, next: StepView, max: SpliceCount) -> bool {
    match next.lastAction {
        Some(ActionView::ChangeParent { node, oldParent, newParent }) => {
            &&& prev.spliceCount < max
            &&& next.spliceCount == prev.spliceCount + 1
            &&& live(prev.strand, node as int)
            &&& parent_of(prev.strand, node as int) == Some(oldParent)
            &&& can_take(prev.strand, node, newParent)
            &&& next.strand == reparented(prev.strand, node, newParent)
        },
        Some(ActionView::SwapChildren { parent }) => {
            &&& prev.spliceCount < max
            &&& next.spliceCount == prev.spliceCount + 1
            &&& live(prev.strand, parent as int)
            &&& children_of(prev.strand, parent as int).len() == 2
            &&& next.strand == swapped(prev.strand, parent)
        },
        Some(ActionView::Mutate { nodes }) => {
            &&& next.spliceCount == prev.spliceCount
            &&& nodes.len() > 0
            &&& nodes == mutating_cells(prev.strand)
            &&& mutation_ready(prev.strand)
            &&& next.strand == mutated(prev.strand)
        },
        None => false,
    }
}

/// The step that a solution of the level starts with.
pub open spec fn first_step(level: LevelView) -> StepView {
    StepView { strand: level.start, lastAction: None, spliceCount: 0 }
}

/// The steps solve the level: they start with the start strand, no move and
/// no splice made; each follows from the one before by one move; and the
/// strand of the last has the shape of the target.
pub open spec fn is_solution(level: LevelView, steps: Seq<StepView>) -> bool {
    &&& steps.len() >= 1
    &&& steps[0] == first_step(level)
    &&& forall|i: int|
        0 <= i < steps.len() - 1 ==> is_move(#[trigger] steps[i], steps[i + 1], level.maxSplices)
    &&& shape(steps.last().strand) == shape(level.target)
}

/// The path where it solves the level, and nothing where it does not or
/// there is none.
pub open spec fn confirmed(level: LevelView, found: Option<Seq<StepView>>) -> Option<Seq<StepView>> {
    match found {
        Some(steps) => if is_solution(level, steps) {
            Some(steps)
        } else {
            None
        },
        None => None,
    }
}

/// The solution that `solveLevel` returns for a level.
pub open spec fn solved(level: LevelView) -> Option<Seq<StepView>> {
    confirmed(level, dijkstra_path(first_step(level), level.target, level.maxSplices))
}

/// Whether cell `nodeId` can move under cell `candidateId`.
pub fn isPotentialNewParent(nodeId: NodeId, candidateId: NodeId, strand: &Strand) -> (fits: bool)
    requires
        live(strand@, nodeId as int),
    ensures
        fits == can_take(strand@, nodeId, candidateId),
{
    if !strand.holdsCell(candidateId) || candidateId == nodeId {
        return false;
    }
    match strand.parentId(nodeId) {
        Some(parentId) => {
            if parentId == candidateId {
                return false;
            }
        },
        None => {},
    }
    let below = strand.collectNodeIdsFrom(nodeId);
    if positionOf(below.as_slice(), candidateId).is_some() {
        return false;
    }
    let childIds = strand.childIds(candidateId);
    if childIds.len() == 0 {
        true
    } else if childIds.len() == 1 {
        assert(crate::forest::node_linked(strand@, candidateId as int));
        assert(live(strand@, childIds@[0] as int));
        strand.cellKind(childIds[0]) != CellKind::Doubler && strand.cellKind(nodeId)
            != CellKind::Doubler
    } else {
        false
    }
}

/// Whether `next` follows from `prev` by one move.
pub fn isMove(prev: &SolutionStep, next: &SolutionStep, maxSplices: SpliceCount) -> (follows: bool)
    ensures
        follows == is_move(prev@, next@, maxSplices),
{
    match &next.lastAction {
        Some(Action::ChangeParent { node, oldParent, newParent }) => {
            if prev.spliceCount >= maxSplices || next.spliceCount != prev.spliceCount + 1 {
                return false;
            }
            if !prev.strand.holdsCell(*node) {
                return false;
            }
            match prev.strand.parentId(*node) {
                Some(parentId) => {
                    if parentId != *oldParent {
                        return false;
                    }
                },
                None => {
                    return false;
                },
            }
            if !isPotentialNewParent(*node, *newParent, &prev.strand) {
                return false;
            }
            makeStrandWithNewParent(*node, *newParent, &prev.strand).hasSameCells(&next.strand)
        },
        Some(Action::SwapChildren { parent }) => {
            if prev.spliceCount >= maxSplices || next.spliceCount != prev.spliceCount + 1 {
                return false;
            }
            if !prev.strand.holdsCell(*parent) || prev.strand.childCount(*parent) != 2 {
                return false;
            }
            makeStrandWithSwappedChildren(*parent, &prev.strand).hasSameCells(&next.strand)
        },
        Some(Action::Mutate { nodes }) => {
            if next.spliceCount != prev.spliceCount || nodes.len() == 0 {
                return false;
            }
            if !prev.strand.canMutate() {
                return false;
            }
            let mut newStrand = prev.strand.clone();
            let mutatedNodeIds = newStrand.mutate();
            sameHandles(mutatedNodeIds.as_slice(), nodes.as_slice()) && newStrand.hasSameCells(
                &next.strand,
            )
        },
        None => false,
    }
}

/// Whether the steps solve the level.
pub fn isSolution(level: &Level, steps: &Vec<SolutionStep>) -> (solves: bool)
    ensures
        solves == is_solution(level@, steps_view(steps@)),
{
    let ghost views = steps_view(steps@);
    if steps.len() == 0 {
        return false;
    }
    let first = &steps[0];
    assert(views[0] == first@);
    if first.lastAction.is_some() || first.spliceCount != 0 || !first.strand.hasSameCells(
        &level.start,
    ) {
        return false;
    }
    let mut index: usize = 0;
    while index + 1 < steps.len()
        invariant
            index < steps.len(),
            views == steps_view(steps@),
            forall|i: int| 0 <= i < index ==> is_move(#[trigger] views[i], views[i + 1], level.maxSplices),
        decreases steps.len() - index,
    {
        assert(views[index as int] == steps[index as int]@);
        assert(views[index + 1] == steps[index + 1]@);
        if !isMove(&steps[index], &steps[index + 1], level.maxSplices) {
            return false;
        }
        index += 1;
    }
    let last = &steps[steps.len() - 1];
    assert(views.last() == last@);
    last.strand.isEqualOnSurface(&level.target)
}

/// A shortest sequence of steps from the start strand of the level to a
/// strand with the shape of its target, found by `pathfinding`'s `dijkstra`
/// and returned once every step of it has been checked; or nothing.
pub fn solveLevel(level: Level) -> (solution: Option<Vec<SolutionStep>>)
    ensures
        path_view(solution) == solved(level@),
        solution matches Some(steps) ==> is_solution(level@, steps_view(steps@)),
        shape(level.start@) == shape(level.target@) ==> path_view(solution) == Some(
            seq![first_step(level@)],
        ),
{
    let startStep = SolutionStep::new(level.start.clone(), NO_LAST_ACTION, START_SPLICE_COUNT);
    let result = findShortestPath(&startStep, &level.target, level.maxSplices);
    match result {
        Some(steps) => if isSolution(&level, &steps) {
            Some(steps)
        } else {
            None
        },
        None => None,
    }
}

} // verus!
