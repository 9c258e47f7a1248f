//! When a mutation pass can be carried out: in a strand in which every
//! Doubler is the only child of its parent and the root is neither a Doubler
//! nor an Eraser, nothing but a lack of handles stands in its way.
use crate::edits::lemma_child_within;
use crate::forest::{
    children_of, enough_fuel, kind_of, lemma_common_member, lemma_member_child,
    lemma_member_live, lemma_member_parent, lemma_preorder_unfolds, lemma_walk_is_preorder,
    lemma_walk_same, live, node_linked, parent_of, preorder, ranked, tree, within, CellKind,
    NodeId, Slots,
};
use crate::laws::{
    doublers_alone, law_depth_reaches_root, law_move_keeps_tree, law_moves_keep_doublers_alone,
    lemma_effect_keeps_doublers_alone, lemma_hops_settled,
};
use crate::level_maker::LevelView;
use crate::level_solver::{is_move, is_solution, ActionView, StepView};
use crate::mutation::{
    apply_effect, apply_effects, depth, effect_ready, effects_ready, handles, is_mutating,
    is_special, lemma_doubled_tree, lemma_erased_tree, lemma_extended_tree, mutating_cells,
    mutation_ready,
};
use vstd::prelude::*;

verus! {

/// The number of new slots that cell `c` takes when it mutates.
pub open spec fn slots_taken(s: Slots, c: NodeId) -> nat {
    match kind_of(s, c as int) {
        CellKind::Doubler => preorder(s, c).len(),
        CellKind::Extender => 1,
        _ => 0,
    }
}

/// The number of new slots that the cells of `cells` take when they mutate.
pub open spec fn slots_needed(s: Slots, cells: Seq<NodeId>) -> nat
    decreases cells.len(),
{
    if cells.len() == 0 {
        0
    } else {
        slots_taken(s, cells[0]) + slots_needed(s, cells.drop_first())
    }
}

/// The handles suffice for the next mutation pass.
pub open spec fn has_room(s: Slots) -> bool {
    s.len() + slots_needed(s, mutating_cells(s)) <= 256
}

/// The root is neither a Doubler nor an Eraser.
pub open spec fn root_stays(s: Slots) -> bool {
    kind_of(s, 0) == CellKind::Normal || kind_of(s, 0) == CellKind::Extender
}

/// The cells of `cells` are special cells of which none is in the subtree
/// under another, and the Doublers and Erasers among them have parents.
pub open spec fn apart(s: Slots, cells: Seq<NodeId>) -> bool {
    &&& forall|i: int|
        0 <= i < cells.len() ==> is_special(s, #[trigger] cells[i] as int) && (kind_of(
            s,
            cells[i] as int,
        ) != CellKind::Extender ==> parent_of(s, cells[i] as int) is Some)
    &&& forall|i: int, j: int|
        0 <= i < cells.len() && 0 <= j < cells.len() && i != j ==> !within(
            s,
            #[trigger] cells[i],
            #[trigger] cells[j],
        )
}

/// The depth of a cell is one more than the depth of its parent.
pub proof fn lemma_depth_step(s: Slots, n: NodeId)
    requires
        tree(s),
        live(s, n as int),
        parent_of(s, n as int) is Some,
    ensures
        depth(s, n) == depth(s, parent_of(s, n as int)->0) + 1,
{
    let p = parent_of(s, n as int)->0;
    law_depth_reaches_root(s, n, s.len());
    assert(node_linked(s, n as int));
    lemma_hops_settled(s, p, (s.len() - 1) as nat, s.len());
}

/// A cell of the subtree under another cell is deeper than that cell.
pub proof fn lemma_member_deeper(s: Slots, rank: Seq<nat>, bound: nat, c: NodeId, x: NodeId)
    requires
        tree(s),
        ranked(s, rank, bound),
        live(s, c as int),
        within(s, c, x),
        x != c,
    ensures
        depth(s, x) > depth(s, c),
    decreases rank[x as int],
{
    lemma_preorder_unfolds(s, c);
    let fuel = enough_fuel(s, c);
    lemma_member_live(s, c, fuel, x);
    lemma_member_parent(s, c, fuel, x);
    let p = parent_of(s, x as int)->0;
    lemma_depth_step(s, x);
    if p != c {
        lemma_member_deeper(s, rank, bound, c, p);
    }
}

/// The handles below `count` that a predicate accepts are in ascending
/// order: none occurs twice.
pub proof fn lemma_filtered_handles(count: nat, accepts: spec_fn(NodeId) -> bool)
    requires
        count <= 256,
    ensures
        handles(count).filter(accepts).no_duplicates(),
        forall|i: int|
            0 <= i < handles(count).filter(accepts).len() ==> (#[trigger] handles(count).filter(
                accepts,
            )[i] as int) < count && accepts(handles(count).filter(accepts)[i]),
    decreases count,
{
    reveal_with_fuel(Seq::filter, 2);
    if count > 0 {
        let less = (count - 1) as nat;
        lemma_filtered_handles(less, accepts);
        assert(handles(count).drop_last() =~= handles(less));
    }
}

/// The cells that mutate in the next pass stand apart: they are equally
/// deep.
pub proof fn lemma_mutating_apart(s: Slots)
    requires
        tree(s),
        doublers_alone(s),
        root_stays(s),
    ensures
        apart(s, mutating_cells(s)),
        mutating_cells(s).no_duplicates(),
{
    let cells = mutating_cells(s);
    let accepts = |n: NodeId| is_mutating(s, n as int);
    let (rank, bound) = choose|rank: Seq<nat>, bound: nat| ranked(s, rank, bound);
    lemma_filtered_handles(s.len(), accepts);
    assert forall|i: int| 0 <= i < cells.len() implies is_special(s, #[trigger] cells[i] as int) && (
    kind_of(s, cells[i] as int) != CellKind::Extender ==> parent_of(s, cells[i] as int) is Some) by {
        assert(accepts(cells[i]));
    }
    assert forall|i: int, j: int|
        0 <= i < cells.len() && 0 <= j < cells.len() && i != j implies !within(
        s,
        #[trigger] cells[i],
        #[trigger] cells[j],
    ) by {
        assert(accepts(cells[i]));
        assert(accepts(cells[j]));
        if within(s, cells[i], cells[j]) {
            lemma_member_deeper(s, rank, bound, cells[i], cells[j]);
        }
    }
}

/// A cell that mutates leaves a cell apart from it as it was: a cell of the
/// same kind, with a parent if it had one, and with the same subtree.
pub proof fn lemma_effect_spares(s: Slots, c: NodeId, o: NodeId)
    requires
        tree(s),
        effect_ready(s, c),
        live(s, o as int),
        !within(s, c, o),
        !within(s, o, c),
    ensures
        live(apply_effect(s, c), o as int),
        kind_of(apply_effect(s, c), o as int) == kind_of(s, o as int),
        parent_of(s, o as int) is Some ==> parent_of(apply_effect(s, c), o as int) is Some,
        preorder(apply_effect(s, c), o) == preorder(s, o),
{
    let t = apply_effect(s, c);
    let (rank, bound) = choose|rank: Seq<nat>, bound: nat| ranked(s, rank, bound);
    lemma_preorder_unfolds(s, o);
    lemma_preorder_unfolds(s, c);
    let fuel = enough_fuel(s, o);
    let below = preorder(s, o);
    assert(node_linked(s, c as int));
    assert(o != c);
    assert forall|x: NodeId| #[trigger] below.contains(x) implies live(t, x as int) && children_of(
        t,
        x as int,
    ) == children_of(s, x as int) && (x == o ==> kind_of(t, x as int) == kind_of(s, x as int) && (
    parent_of(s, x as int) is Some ==> parent_of(t, x as int) is Some)) by {
        lemma_member_live(s, o, fuel, x);
        assert(node_linked(s, x as int));
        // the cell that mutates has no parent under `o`, and is not under `o` itself
        if parent_of(s, c as int) == Some(x) {
            let k = choose|k: int|
                0 <= k < children_of(s, x as int).len() && children_of(s, x as int)[k] == c;
            lemma_member_child(s, o, fuel, x, k);
        }
        match kind_of(s, c as int) {
            CellKind::Normal => {},
            CellKind::Doubler => {},
            CellKind::Extender => {
                if children_of(s, c as int).contains(x) {
                    let k = choose|k: int|
                        0 <= k < children_of(s, c as int).len() && children_of(s, c as int)[k]
                            == x;
                    assert(live(s, children_of(s, c as int)[k] as int));
                    if x == o {
                        lemma_child_within(s, c, k);
                    } else {
                        lemma_member_parent(s, o, fuel, x);
                    }
                }
            },
            CellKind::Eraser => {
                if preorder(s, c).contains(x) {
                    lemma_common_member(s, rank, bound, c, enough_fuel(s, c), o, fuel, x);
                }
            },
        }
    }
    lemma_walk_same(s, t, o, fuel);
    lemma_walk_is_preorder(t, o, fuel);
    assert(below.contains(o));
}

/// The slots that cells take when they mutate are those that they take
/// after a cell apart from them mutated.
pub proof fn lemma_need_spared(s: Slots, c: NodeId, cells: Seq<NodeId>)
    requires
        tree(s),
        effect_ready(s, c),
        forall|i: int|
            0 <= i < cells.len() ==> live(s, #[trigger] cells[i] as int) && !within(s, c, cells[i])
                && !within(s, cells[i], c),
    ensures
        slots_needed(apply_effect(s, c), cells) == slots_needed(s, cells),
    decreases cells.len(),
{
    if cells.len() > 0 {
        assert(live(s, cells[0] as int));
        lemma_effect_spares(s, c, cells[0]);
        assert forall|i: int| 0 <= i < cells.drop_first().len() implies live(
            s,
            #[trigger] cells.drop_first()[i] as int,
        ) && !within(s, c, cells.drop_first()[i]) && !within(s, cells.drop_first()[i], c) by {
            assert(cells.drop_first()[i] == cells[i + 1]);
        }
        lemma_need_spared(s, c, cells.drop_first());
    }
}

/// Cells that stand apart, in a strand with room for what they need, can
/// mutate one after the other.
pub proof fn lemma_apart_cells_ready(s: Slots, cells: Seq<NodeId>)
    requires
        tree(s),
        doublers_alone(s),
        apart(s, cells),
        s.len() + slots_needed(s, cells) <= 256,
    ensures
        effects_ready(s, cells),
    decreases cells.len(),
{
    if cells.len() > 0 {
        let c = cells[0];
        let rest = cells.drop_first();
        let t = apply_effect(s, c);
        assert(is_special(s, cells[0] as int));
        assert(effect_ready(s, c));
        match kind_of(s, c as int) {
            CellKind::Normal => {},
            CellKind::Doubler => lemma_doubled_tree(s, c),
            CellKind::Extender => lemma_extended_tree(s, c),
            CellKind::Eraser => lemma_erased_tree(s, c),
        }
        lemma_effect_keeps_doublers_alone(s, c);
        assert forall|i: int| 0 <= i < rest.len() implies live(s, #[trigger] rest[i] as int)
            && !within(s, c, rest[i]) && !within(s, rest[i], c) by {
            assert(rest[i] == cells[i + 1]);
            assert(is_special(s, cells[i + 1] as int));
            assert(!within(s, cells[0], cells[i + 1]));
            assert(!within(s, cells[i + 1], cells[0]));
        }
        lemma_need_spared(s, c, rest);
        assert forall|i: int| 0 <= i < rest.len() implies is_special(t, #[trigger] rest[i] as int)
            && (kind_of(t, rest[i] as int) != CellKind::Extender ==> parent_of(t, rest[i] as int)
            is Some) by {
            assert(rest[i] == cells[i + 1]);
            assert(is_special(s, cells[i + 1] as int));
            lemma_effect_spares(s, c, rest[i]);
        }
        assert forall|i: int, j: int|
            0 <= i < rest.len() && 0 <= j < rest.len() && i != j implies !within(
            t,
            #[trigger] rest[i],
            #[trigger] rest[j],
        ) by {
            assert(rest[i] == cells[i + 1]);
            assert(rest[j] == cells[j + 1]);
            assert(!within(s, cells[i + 1], cells[j + 1]));
            lemma_effect_spares(s, c, rest[i]);
        }
        assert(t.len() == s.len() + slots_taken(s, c));
        lemma_apart_cells_ready(t, rest);
    }
}

/// In a strand in which every Doubler is the only child of its parent and
/// the root is neither a Doubler nor an Eraser, the next mutation pass can
/// be carried out if the handles suffice for it.
pub proof fn law_ready_with_room(s: Slots)
    requires
        tree(s),
        doublers_alone(s),
        root_stays(s),
        has_room(s),
    ensures
        mutation_ready(s),
{
    lemma_mutating_apart(s);
    lemma_apart_cells_ready(s, mutating_cells(s));
}

/// A strand that the game can be played on: a tree in which every Doubler
/// is the only child of its parent and the root is neither a Doubler nor an
/// Eraser.
pub open spec fn playable(s: Slots) -> bool {
    tree(s) && doublers_alone(s) && root_stays(s)
}

/// Cells that mutate one after the other leave the root neither a Doubler
/// nor an Eraser.
pub proof fn lemma_effects_keep_root(s: Slots, cells: Seq<NodeId>)
    requires
        tree(s),
        root_stays(s),
        effects_ready(s, cells),
    ensures
        root_stays(apply_effects(s, cells)),
    decreases cells.len(),
{
    if cells.len() > 0 {
        let c = cells[0];
        let t = apply_effect(s, c);
        assert(node_linked(s, c as int));
        assert(node_linked(s, 0));
        match kind_of(s, c as int) {
            CellKind::Normal => {},
            CellKind::Doubler => {
                lemma_doubled_tree(s, c);
            },
            CellKind::Extender => {
                lemma_extended_tree(s, c);
                if children_of(s, c as int).contains(0) {
                    let k = choose|k: int|
                        0 <= k < children_of(s, c as int).len() && children_of(s, c as int)[k]
                            == 0;
                    assert(live(s, children_of(s, c as int)[k] as int));
                }
            },
            CellKind::Eraser => {
                lemma_erased_tree(s, c);
            },
        }
        assert(root_stays(t));
        lemma_effects_keep_root(t, cells.drop_first());
    }
}

/// A move leaves a playable strand playable.
pub proof fn law_moves_keep_playable(prev: StepView, next: StepView, max: u8)
    requires
        playable(prev.strand),
        prev.spliceCount <= max,
        is_move(prev, next, max),
    ensures
        playable(next.strand),
{
    law_move_keeps_tree(prev, next, max);
    law_moves_keep_doublers_alone(prev, next, max);
    match next.lastAction {
        Some(ActionView::ChangeParent { node, oldParent, newParent }) => {
            assert(node_linked(prev.strand, node as int));
            crate::edits::lemma_no_self_link(prev.strand, node);
            crate::laws::lemma_reparented_cells(prev.strand, node, oldParent, newParent);
        },
        Some(ActionView::SwapChildren { parent }) => {},
        Some(ActionView::Mutate { nodes }) => {
            lemma_effects_keep_root(prev.strand, mutating_cells(prev.strand));
        },
        None => {},
    }
}

/// Every step of a solution of a level with a playable start holds a
/// playable strand.
pub proof fn law_solution_stays_playable(level: LevelView, steps: Seq<StepView>, i: int)
    requires
        playable(level.start),
        is_solution(level, steps),
        0 <= i < steps.len(),
    ensures
        playable(steps[i].strand),
    decreases i,
{
    if i > 0 {
        law_solution_stays_playable(level, steps, i - 1);
        crate::laws::law_solution_steps(level, steps, i - 1);
        assert(is_move(steps[i - 1], steps[i], level.maxSplices));
        law_moves_keep_playable(steps[i - 1], steps[i], level.maxSplices);
    }
}

} // verus!
