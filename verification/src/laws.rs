//! What holds of strands, their edits and their solutions, whatever the
//! strand.
use crate::edits::{
    child_position, connected, disconnected, lemma_child_position, lemma_disconnect_forest,
    lemma_no_self_link, lemma_only_child, lemma_reparent_tree, reparented, swapped,
};
use crate::equality::{cell_shape, shape, shape_code};
use crate::forest::{
    children_of, enough_fuel, forest, kind_of, lemma_member_live, lemma_member_rank,
    lemma_preorder_unfolds, lemma_walk_is_preorder, lemma_walk_join, lemma_walk_same, live,
    node_linked, parent_of, preorder, ranked, tree, walk, within, CellKind, NodeId, Slots,
};
use crate::level_maker::LevelView;
use crate::level_solver::{
    can_take, candidates, is_move, is_solution, moved_step, mutated_step, mutations, solved,
    splices, splices_at, successors, swapped_step, ActionView, StepView,
};
use crate::mutation::{
    apply_effect, apply_effects, copy_of, depth, effect_ready, effects_ready, hops,
    lemma_doubled_tree, lemma_erased_tree, lemma_extended_tree, lemma_hops_bounded,
    lemma_subtree_cells, mutated, mutating_cells, mutation_ready,
};
use crate::strand::Strand;
use vstd::prelude::*;
use vstd::std_specs::cmp::PartialEqSpec;

verus! {

/// Equality of strands is reflexive.
pub proof fn law_equality_reflexive(a: Strand)
    ensures
        a.eq_spec(&a),
{
}

/// Equality of strands is symmetric.
pub proof fn law_equality_symmetric(a: Strand, b: Strand)
    requires
        a.eq_spec(&b),
    ensures
        b.eq_spec(&a),
{
}

/// Equality of strands is transitive.
pub proof fn law_equality_transitive(a: Strand, b: Strand, c: Strand)
    requires
        a.eq_spec(&b),
        b.eq_spec(&c),
    ensures
        a.eq_spec(&c),
{
}

/// Strands that are equal hand the same bytes to a hasher.
pub proof fn law_equal_strands_hash_alike(a: Strand, b: Strand)
    requires
        a.eq_spec(&b),
    ensures
        shape_code(shape(a@)) == shape_code(shape(b@)),
{
}

/// A strand with the same cells in the same slots is an equal strand: a
/// clone equals what it was cloned from.
pub proof fn law_same_cells_equal(a: Strand, b: Strand)
    requires
        a@ == b@,
    ensures
        a.eq_spec(&b),
{
}

/// Exchanging the children of a cell twice gives back the strand.
pub proof fn law_swap_twice(s: Slots, n: NodeId)
    requires
        live(s, n as int),
        children_of(s, n as int).len() == 2,
    ensures
        swapped(swapped(s, n), n) == s,
{
    let once = swapped(s, n);
    let twice = swapped(once, n);
    assert(children_of(twice, n as int) =~= children_of(s, n as int));
    assert(twice =~= s);
}

/// Connecting a cell under a cell outside its subtree leaves that subtree as
/// it was.
pub proof fn lemma_connect_keeps_subtree(s: Slots, parent: NodeId, child: NodeId)
    requires
        forest(s),
        live(s, parent as int),
        live(s, child as int),
        !within(s, child, parent),
    ensures
        preorder(connected(s, parent, child), child) == preorder(s, child),
{
    let t = connected(s, parent, child);
    lemma_preorder_unfolds(s, child);
    let fuel = enough_fuel(s, child);
    assert forall|x: NodeId| #[trigger] walk(s, child, fuel)->0.contains(x) implies live(
        t,
        x as int,
    ) && children_of(t, x as int) == children_of(s, x as int) by {
        lemma_member_live(s, child, fuel, x);
    }
    lemma_walk_same(s, t, child, fuel);
    lemma_walk_is_preorder(t, child, fuel);
}

/// The strand after cell `n` moved from `p` to `q`, written slot by slot.
pub open spec fn moved(s: Slots, n: NodeId, p: NodeId, q: NodeId) -> Slots {
    let left = children_of(s, p as int).remove(child_position(children_of(s, p as int), n));
    Seq::new(
        s.len(),
        |i: int|
            if i == n {
                Some(crate::forest::NodeView { parent: Some(q), ..s[i]->0 })
            } else if i == p {
                Some(crate::forest::NodeView { children: left, ..s[i]->0 })
            } else if i == q {
                Some(
                    crate::forest::NodeView { children: children_of(s, q as int).push(n), ..s[i]->0 },
                )
            } else {
                s[i]
            },
    )
}

/// A change of parent, slot by slot.
pub proof fn lemma_reparented_cells(s: Slots, n: NodeId, p: NodeId, q: NodeId)
    requires
        live(s, n as int),
        live(s, p as int),
        live(s, q as int),
        parent_of(s, n as int) == Some(p),
        n != p,
        n != q,
        p != q,
    ensures
        reparented(s, n, q) == moved(s, n, p, q),
{
    assert(reparented(s, n, q) =~= moved(s, n, p, q));
}

/// What a change of parent leaves for the way back: the cell has its new
/// parent, its old parent has room and is outside the subtree under the
/// cell.
pub proof fn lemma_way_back(s: Slots, n: NodeId, q: NodeId)
    requires
        tree(s),
        live(s, n as int),
        live(s, q as int),
        parent_of(s, n as int) is Some,
        parent_of(s, n as int) != Some(q),
        children_of(s, q as int).len() < 2,
        !within(s, n, q),
    ensures
        ({
            let p = parent_of(s, n as int)->0;
            let there = reparented(s, n, q);
            &&& tree(there)
            &&& live(s, p as int)
            &&& n != p
            &&& n != q
            &&& children_of(s, p as int).len() <= 2
            &&& children_of(s, p as int).no_duplicates()
            &&& children_of(s, p as int).contains(n)
            &&& !children_of(s, q as int).contains(n)
            &&& !within(there, n, p)
        }),
{
    let p = parent_of(s, n as int)->0;
    let loose = disconnected(s, n);
    let there = reparented(s, n, q);
    let (rank, bound) = choose|rank: Seq<nat>, bound: nat| ranked(s, rank, bound);
    lemma_reparent_tree(s, n, q);
    lemma_disconnect_forest(s, n);
    lemma_connect_keeps_subtree(loose, q, n);
    assert(node_linked(s, n as int));
    assert(node_linked(s, p as int));
    assert(node_linked(s, q as int));
    lemma_no_self_link(s, n);
    lemma_preorder_unfolds(s, n);
    assert(!within(s, n, p)) by {
        if within(s, n, p) {
            lemma_member_rank(s, rank, bound, n, enough_fuel(s, n), p);
        }
    }
    let hosts = children_of(s, q as int);
    assert(!hosts.contains(n)) by {
        if hosts.contains(n) {
            let k = choose|k: int| 0 <= k < hosts.len() && hosts[k] == n;
            assert(live(s, hosts[k] as int));
        }
    }
}

/// Moving a cell under another cell and back under its old parent gives back
/// the strand where the cell was the last child of that parent, and
/// otherwise the strand with the two children of that parent exchanged: the
/// cell comes back as the last child.
pub proof fn law_change_parent_and_back(s: Slots, n: NodeId, q: NodeId)
    requires
        tree(s),
        live(s, n as int),
        live(s, q as int),
        parent_of(s, n as int) is Some,
        parent_of(s, n as int) != Some(q),
        children_of(s, q as int).len() < 2,
        !within(s, n, q),
    ensures
        ({
            let p = parent_of(s, n as int)->0;
            let there = reparented(s, n, q);
            &&& tree(there)
            &&& live(there, n as int)
            &&& live(there, p as int)
            &&& parent_of(there, n as int) == Some(q)
            &&& children_of(there, p as int).len() < 2
            &&& !within(there, n, p)
            &&& reparented(there, n, p) == if children_of(s, p as int).last() == n {
                s
            } else {
                swapped(s, p)
            }
        }),
{
    let p = parent_of(s, n as int)->0;
    let there = reparented(s, n, q);
    lemma_way_back(s, n, q);
    lemma_reparented_cells(s, n, p, q);
    lemma_reparented_cells(there, n, q, p);
    let back = reparented(there, n, p);
    let siblings = children_of(s, p as int);
    let hosts = children_of(s, q as int);
    let at = child_position(siblings, n);
    lemma_child_position(siblings, n);
    let left = siblings.remove(at);
    assert(child_position(hosts.push(n), n) == hosts.len()) by {
        if hosts.len() == 1 {
            assert(hosts.contains(hosts[0]));
        }
    }
    assert(hosts.push(n).remove(hosts.len() as int) =~= hosts);
    assert(children_of(back, q as int) == hosts);
    assert(children_of(back, p as int) == left.push(n));
    if siblings.last() == n {
        assert(left.push(n) =~= siblings);
        assert(back =~= s);
    } else {
        assert(left.push(n) =~= seq![siblings[1], siblings[0]]);
        assert(back =~= swapped(s, p));
    }
}

/// The cells of `b` are the cells of `a` under other handles: `relabel`
/// keeps the root, and takes every cell of `a` to a cell of `b` of the same
/// kind whose children are the children of the cell of `a`, relabelled, in
/// the same order.
pub open spec fn relabeled(a: Slots, b: Slots, relabel: spec_fn(NodeId) -> NodeId) -> bool {
    &&& relabel(0) == 0
    &&& forall|n: int| #[trigger]
        live(a, n) ==> {
            &&& live(b, relabel(n as NodeId) as int)
            &&& kind_of(b, relabel(n as NodeId) as int) == kind_of(a, n)
            &&& children_of(b, relabel(n as NodeId) as int) == children_of(a, n).map_values(
                relabel,
            )
        }
}

/// The walk through relabelled cells is the relabelled walk.
pub proof fn lemma_walk_relabeled(
    a: Slots,
    b: Slots,
    relabel: spec_fn(NodeId) -> NodeId,
    n: NodeId,
    fuel: nat,
)
    requires
        relabeled(a, b, relabel),
        walk(a, n, fuel) is Some,
    ensures
        walk(b, relabel(n), fuel) == Some(walk(a, n, fuel)->0.map_values(relabel)),
    decreases fuel,
{
    let c = children_of(a, n as int);
    let below = (fuel - 1) as nat;
    assert(live(a, n as int));
    lemma_walk_join(a, n, fuel);
    if c.len() == 0 {
        assert(seq![n].map_values(relabel) =~= seq![relabel(n)]);
    } else if c.len() == 1 {
        lemma_walk_relabeled(a, b, relabel, c[0], below);
        let first = walk(a, c[0], below)->0;
        assert((seq![n] + first).map_values(relabel) =~= seq![relabel(n)] + first.map_values(
            relabel,
        ));
    } else {
        lemma_walk_relabeled(a, b, relabel, c[0], below);
        lemma_walk_relabeled(a, b, relabel, c[1], below);
        let first = walk(a, c[0], below)->0;
        let second = walk(a, c[1], below)->0;
        assert((seq![n] + first + second).map_values(relabel) =~= seq![relabel(n)]
            + first.map_values(relabel) + second.map_values(relabel));
    }
}

/// Equality of strands does not read the handles: a strand whose cells are
/// the cells of another under other handles equals it.
pub proof fn law_equality_ignores_handles(a: Strand, b: Strand, relabel: spec_fn(NodeId) -> NodeId)
    requires
        a.wf(),
        b.wf(),
        relabeled(a@, b@, relabel),
    ensures
        a.eq_spec(&b),
{
    lemma_preorder_unfolds(a@, 0);
    let fuel = enough_fuel(a@, 0);
    lemma_walk_relabeled(a@, b@, relabel, 0, fuel);
    lemma_walk_is_preorder(b@, 0, fuel);
    let order = preorder(a@, 0);
    assert forall|i: int| 0 <= i < order.len() implies cell_shape(a@, #[trigger] order[i])
        == cell_shape(b@, relabel(order[i])) by {
        assert(order.contains(order[i]));
        lemma_member_live(a@, 0, fuel, order[i]);
    }
    assert(shape(a@) =~= shape(b@));
}

/// Cells that mutate one after the other, each being ready when its turn
/// comes, leave a tree a tree.
pub proof fn lemma_effects_tree(s: Slots, cells: Seq<NodeId>)
    requires
        tree(s),
        effects_ready(s, cells),
    ensures
        tree(apply_effects(s, cells)),
    decreases cells.len(),
{
    if cells.len() > 0 {
        let c = cells[0];
        match kind_of(s, c as int) {
            CellKind::Normal => {},
            CellKind::Doubler => lemma_doubled_tree(s, c),
            CellKind::Extender => lemma_extended_tree(s, c),
            CellKind::Eraser => lemma_erased_tree(s, c),
        }
        lemma_effects_tree(apply_effect(s, c), cells.drop_first());
    }
}

/// A mutation pass that can be carried out leaves a tree a tree.
pub proof fn law_mutation_keeps_tree(s: Slots)
    requires
        tree(s),
        mutation_ready(s),
    ensures
        tree(mutated(s)),
{
    lemma_effects_tree(s, mutating_cells(s));
}

/// A move leaves a tree a tree, and a number of splices within what the
/// level allows within it.
pub proof fn law_move_keeps_tree(prev: StepView, next: StepView, max: u8)
    requires
        tree(prev.strand),
        prev.spliceCount <= max,
        is_move(prev, next, max),
    ensures
        tree(next.strand),
        next.spliceCount <= max,
        prev.spliceCount <= next.spliceCount <= prev.spliceCount + 1,
{
    match next.lastAction {
        Some(ActionView::ChangeParent { node, oldParent, newParent }) => {
            lemma_reparent_tree(prev.strand, node, newParent);
        },
        Some(ActionView::SwapChildren { parent }) => {
            crate::edits::lemma_swap_forest(prev.strand, parent);
        },
        Some(ActionView::Mutate { nodes }) => {
            law_mutation_keeps_tree(prev.strand);
        },
        None => {},
    }
}

/// Every step of a solution holds a tree and has made no more splices than
/// the level allows.
pub proof fn law_solution_steps(level: LevelView, steps: Seq<StepView>, i: int)
    requires
        tree(level.start),
        is_solution(level, steps),
        0 <= i < steps.len(),
    ensures
        tree(steps[i].strand),
        steps[i].spliceCount <= level.maxSplices,
        steps[i].spliceCount <= i,
    decreases i,
{
    if i > 0 {
        law_solution_steps(level, steps, i - 1);
        assert(is_move(steps[i - 1], steps[i], level.maxSplices));
        law_move_keeps_tree(steps[i - 1], steps[i], level.maxSplices);
    }
}

/// A solution of a level whose start has not yet the shape of the target has
/// two steps at least.
pub proof fn law_solution_length(level: LevelView, steps: Seq<StepView>)
    requires
        is_solution(level, steps),
        shape(level.start) != shape(level.target),
    ensures
        steps.len() >= 2,
{
}

/// Levels that are the same have the same solution: what `solveLevel`
/// returns depends on nothing but the level.
pub proof fn law_same_level_same_solution(a: LevelView, b: LevelView)
    requires
        a == b,
    ensures
        solved(a) == solved(b),
{
}

/// Every step of a solution has a caption: no step of it is a mutation of
/// no cell.
pub proof fn law_solution_has_captions(level: LevelView, steps: Seq<StepView>, i: int)
    requires
        is_solution(level, steps),
        0 <= i < steps.len(),
    ensures
        crate::visuals::has_caption(steps[i]),
{
    if i > 0 {
        assert(is_move(steps[i - 1], steps[i], level.maxSplices));
    }
}

/// The cell that `k` parent links lead to from cell `n`.
pub open spec fn climbed(s: Slots, n: NodeId, k: nat) -> NodeId
    decreases k,
{
    if k == 0 {
        n
    } else {
        parent_of(s, climbed(s, n, (k - 1) as nat) as int)->0
    }
}

/// Where counting links stopped at the fuel only, every link counted leads
/// to a cell, and each of these cells ranks below the one before.
pub proof fn lemma_climb(s: Slots, rank: Seq<nat>, bound: nat, n: NodeId, fuel: nat, k: nat)
    requires
        crate::forest::linked(s),
        ranked(s, rank, bound),
        live(s, n as int),
        hops(s, n, fuel) == fuel,
        k <= fuel,
    ensures
        live(s, climbed(s, n, k) as int),
        hops(s, climbed(s, n, k), (fuel - k) as nat) == fuel - k,
        rank[climbed(s, n, k) as int] + k <= rank[n as int],
    decreases k,
{
    if k > 0 {
        lemma_climb(s, rank, bound, n, fuel, (k - 1) as nat);
        let below = climbed(s, n, (k - 1) as nat);
        assert(node_linked(s, below as int));
        match parent_of(s, below as int) {
            Some(p) => {
                lemma_hops_bounded(s, p, (fuel - k) as nat);
            },
            None => {},
        }
    }
}

/// The depth of a cell of a tree is the number of links between it and the
/// root: it is less than the number of slots, and counting more links than
/// there are slots finds no more.
pub proof fn law_depth_reaches_root(s: Slots, n: NodeId, fuel: nat)
    requires
        tree(s),
        live(s, n as int),
        fuel >= s.len(),
    ensures
        depth(s, n) < s.len(),
        hops(s, n, fuel) == depth(s, n),
        climbed(s, n, depth(s, n)) == 0,
{
    let (rank, bound) = choose|rank: Seq<nat>, bound: nat| ranked(s, rank, bound);
    let size = s.len();
    lemma_hops_bounded(s, n, size);
    if hops(s, n, size) == size {
        let chain = Seq::new(size + 1, |k: int| climbed(s, n, k as nat));
        assert forall|i: int, j: int| 0 <= i < chain.len() && 0 <= j < chain.len() && i != j implies chain[i]
            != chain[j] by {
            lemma_climb(s, rank, bound, n, size, i as nat);
            lemma_climb(s, rank, bound, n, size, j as nat);
            if i < j {
                lemma_rank_falls(s, rank, bound, n, size, i as nat, j as nat);
            } else {
                lemma_rank_falls(s, rank, bound, n, size, j as nat, i as nat);
            }
        }
        assert(chain.no_duplicates());
        chain.unique_seq_to_set();
        let ids = chain.to_set().map(|id: NodeId| id as int);
        vstd::set_lib::lemma_int_range(0, size as int);
        assert(ids.subset_of(vstd::set_lib::set_int_range(0, size as int))) by {
            assert forall|x: int| ids.contains(x) implies 0 <= x < size by {
                let id = choose|id: NodeId| chain.to_set().contains(id) && id as int == x;
                let k = choose|k: int| 0 <= k < chain.len() && chain[k] == id;
                lemma_climb(s, rank, bound, n, size, k as nat);
            }
        }
        vstd::set_lib::lemma_len_subset(ids, vstd::set_lib::set_int_range(0, size as int));
        vstd::set_lib::lemma_map_size(chain.to_set(), ids, |id: NodeId| id as int);
    }
    lemma_hops_settled(s, n, size, fuel);
    lemma_hops_end(s, n, size);
}

/// Along the links counted, a cell further up ranks lower.
pub proof fn lemma_rank_falls(
    s: Slots,
    rank: Seq<nat>,
    bound: nat,
    n: NodeId,
    fuel: nat,
    i: nat,
    j: nat,
)
    requires
        crate::forest::linked(s),
        ranked(s, rank, bound),
        live(s, n as int),
        hops(s, n, fuel) == fuel,
        i < j <= fuel,
    ensures
        rank[climbed(s, n, j) as int] < rank[climbed(s, n, i) as int],
    decreases j,
{
    lemma_climb(s, rank, bound, n, fuel, (j - 1) as nat);
    lemma_climb(s, rank, bound, n, fuel, j);
    let below = climbed(s, n, (j - 1) as nat);
    assert(hops(s, below, (fuel - (j - 1)) as nat) == fuel - (j - 1));
    assert(parent_of(s, below as int) is Some);
    if i < j - 1 {
        lemma_rank_falls(s, rank, bound, n, fuel, i, (j - 1) as nat);
    }
}

/// Where counting links stopped before the fuel was spent, more fuel counts
/// no more links.
pub proof fn lemma_hops_settled(s: Slots, n: NodeId, fuel: nat, more: nat)
    requires
        hops(s, n, fuel) < fuel,
        fuel <= more,
    ensures
        hops(s, n, more) == hops(s, n, fuel),
    decreases fuel,
{
    match parent_of(s, n as int) {
        Some(p) => {
            lemma_hops_settled(s, p, (fuel - 1) as nat, (more - 1) as nat);
        },
        None => {},
    }
}

/// Where counting links stopped before the fuel was spent, the links
/// counted lead to a cell without a parent: in a tree, to the root.
pub proof fn lemma_hops_end(s: Slots, n: NodeId, fuel: nat)
    requires
        tree(s),
        live(s, n as int),
        hops(s, n, fuel) < fuel,
    ensures
        climbed(s, n, hops(s, n, fuel)) == 0,
    decreases fuel,
{
    assert(node_linked(s, n as int));
    match parent_of(s, n as int) {
        Some(p) => {
            lemma_hops_end(s, p, (fuel - 1) as nat);
            lemma_climbed_shift(s, n, hops(s, p, (fuel - 1) as nat));
        },
        None => {},
    }
}

/// Climbing from the parent of a cell is climbing one link more from the
/// cell.
pub proof fn lemma_climbed_shift(s: Slots, n: NodeId, k: nat)
    requires
        parent_of(s, n as int) is Some,
    ensures
        climbed(s, n, k + 1) == climbed(s, parent_of(s, n as int)->0, k),
    decreases k,
{
    let p = parent_of(s, n as int)->0;
    if k > 0 {
        lemma_climbed_shift(s, n, (k - 1) as nat);
        assert(climbed(s, n, k) == climbed(s, p, (k - 1) as nat));
        assert(climbed(s, n, k + 1) == parent_of(s, climbed(s, n, k) as int)->0);
        assert(climbed(s, p, k) == parent_of(s, climbed(s, p, (k - 1) as nat) as int)->0);
    } else {
        assert(climbed(s, n, 0) == n);
        assert(climbed(s, n, 1) == parent_of(s, climbed(s, n, 0) as int)->0);
    }
}

/// A mutation pass removes no slot and fills no vacant slot: the cells it
/// makes stand in new slots behind the others.
pub proof fn law_mutation_reuses_no_slot(s: Slots, i: int)
    requires
        tree(s),
        mutation_ready(s),
        0 <= i < s.len(),
    ensures
        mutated(s).len() >= s.len(),
        !live(s, i) ==> !live(mutated(s), i),
{
    lemma_effects_reuse_no_slot(s, mutating_cells(s), i);
}

/// Cells that mutate one after the other remove no slot and fill no vacant
/// slot.
pub proof fn lemma_effects_reuse_no_slot(s: Slots, cells: Seq<NodeId>, i: int)
    requires
        tree(s),
        effects_ready(s, cells),
        0 <= i < s.len(),
    ensures
        apply_effects(s, cells).len() >= s.len(),
        !live(s, i) ==> !live(apply_effects(s, cells), i),
    decreases cells.len(),
{
    if cells.len() > 0 {
        let c = cells[0];
        let t = apply_effect(s, c);
        match kind_of(s, c as int) {
            CellKind::Normal => {},
            CellKind::Doubler => {
                lemma_doubled_tree(s, c);
                assert(node_linked(s, c as int));
            },
            CellKind::Extender => {
                lemma_extended_tree(s, c);
            },
            CellKind::Eraser => {
                lemma_erased_tree(s, c);
                assert(node_linked(s, c as int));
            },
        }
        lemma_effects_reuse_no_slot(t, cells.drop_first(), i);
    }
}

/// Every cell of a tree belongs to the subtree under the root.
pub proof fn lemma_all_cells_under_root(s: Slots, rank: Seq<nat>, bound: nat, n: NodeId)
    requires
        tree(s),
        ranked(s, rank, bound),
        live(s, n as int),
    ensures
        within(s, 0, n),
    decreases rank[n as int],
{
    lemma_preorder_unfolds(s, 0);
    let fuel = enough_fuel(s, 0);
    if n != 0 {
        let p = parent_of(s, n as int)->0;
        assert(node_linked(s, n as int));
        lemma_all_cells_under_root(s, rank, bound, p);
        let k = choose|k: int|
            0 <= k < children_of(s, p as int).len() && children_of(s, p as int)[k] == n;
        crate::forest::lemma_member_child(s, 0, fuel, p, k);
    }
}

/// What the visit of one of the cells adds is among what the visits of all
/// of them add.
pub proof fn lemma_splices_hold(step: StepView, order: Seq<NodeId>, max: u8, i: int, next: StepView)
    requires
        0 <= i < order.len(),
        splices_at(step, order[i], max).contains(next),
    ensures
        splices(step, order, max).contains(next),
    decreases order.len(),
{
    broadcast use vstd::seq_lib::lemma_seq_concat_contains_all_elements;

    if i < order.len() - 1 {
        lemma_splices_hold(step, order.drop_last(), max, i, next);
    }
}

/// What the visits of the cells add was added by the visit of one of them.
pub proof fn lemma_splices_come_from(step: StepView, order: Seq<NodeId>, max: u8, next: StepView) -> (i:
    int)
    requires
        splices(step, order, max).contains(next),
    ensures
        0 <= i < order.len(),
        splices_at(step, order[i], max).contains(next),
    decreases order.len(),
{
    broadcast use vstd::seq_lib::lemma_seq_concat_contains_all_elements;

    assert(order.len() > 0) by {
        if order.len() == 0 {
            assert(splices(step, order, max) =~= Seq::<StepView>::empty());
        }
    }
    if splices_at(step, order.last(), max).contains(next) {
        order.len() - 1
    } else {
        lemma_splices_come_from(step, order.drop_last(), max, next)
    }
}

/// Every successor of a step follows from it by one move.
pub proof fn law_successors_are_moves(step: StepView, max: u8, next: StepView)
    requires
        tree(step.strand),
        mutation_ready(step.strand),
        successors(step, max).contains(next),
    ensures
        is_move(step, next, max),
{
    broadcast use vstd::seq_lib::lemma_seq_concat_contains_all_elements;

    let s = step.strand;
    let order = preorder(s, 0);
    if splices(step, order, max).contains(next) {
        let i = lemma_splices_come_from(step, order, max, next);
        let n = order[i];
        lemma_preorder_unfolds(s, 0);
        assert(order.contains(n));
        lemma_member_live(s, 0, enough_fuel(s, 0), n);
        let p = parent_of(s, n as int)->0;
        assert(node_linked(s, n as int));
        let moves = candidates(s, n).map_values(|q: NodeId| moved_step(step, n, q));
        if moves.contains(next) {
            let k = choose|k: int| 0 <= k < moves.len() && moves[k] == next;
            let q = candidates(s, n)[k];
            let all = crate::mutation::handles(s.len());
            let accepts = |q: NodeId| can_take(s, n, q);
            assert(all.filter(accepts).contains(q));
            all.lemma_filter_contains_rev(accepts, q);
        } else {
            assert(seq![swapped_step(step, p)].contains(next));
            assert(seq![swapped_step(step, p)][0] == next);
        }
    } else {
        assert(mutations(step).contains(next));
        assert(seq![mutated_step(step)][0] == next);
    }
}

/// Every step that follows from a step by one move is among its successors.
pub proof fn law_moves_are_successors(step: StepView, max: u8, next: StepView)
    requires
        tree(step.strand),
        is_move(step, next, max),
    ensures
        successors(step, max).contains(next),
{
    broadcast use vstd::seq_lib::lemma_seq_concat_contains_all_elements;

    let s = step.strand;
    let order = preorder(s, 0);
    let (rank, bound) = choose|rank: Seq<nat>, bound: nat| ranked(s, rank, bound);
    match next.lastAction {
        Some(ActionView::ChangeParent { node, oldParent, newParent }) => {
            lemma_all_cells_under_root(s, rank, bound, node);
            let i = choose|i: int| 0 <= i < order.len() && order[i] == node;
            let all = crate::mutation::handles(s.len());
            let accepts = |q: NodeId| can_take(s, node, q);
            assert(all[newParent as int] == newParent);
            all.lemma_filter_contains(accepts, newParent as int);
            let found = candidates(s, node);
            let k = choose|k: int| 0 <= k < found.len() && found[k] == newParent;
            let moves = found.map_values(|q: NodeId| moved_step(step, node, q));
            assert(moves[k] == next);
            assert(splices_at(step, node, max).contains(next));
            lemma_splices_hold(step, order, max, i, next);
        },
        Some(ActionView::SwapChildren { parent }) => {
            let child = children_of(s, parent as int)[0];
            assert(node_linked(s, parent as int));
            assert(live(s, child as int));
            lemma_all_cells_under_root(s, rank, bound, child);
            let i = choose|i: int| 0 <= i < order.len() && order[i] == child;
            assert(seq![swapped_step(step, parent)][0] == next);
            assert(splices_at(step, child, max).contains(next));
            lemma_splices_hold(step, order, max, i, next);
        },
        Some(ActionView::Mutate { nodes }) => {
            assert(seq![mutated_step(step)][0] == next);
        },
        None => {},
    }
}

/// Every Doubler is the only child of its parent.
pub open spec fn doublers_alone(s: Slots) -> bool {
    forall|n: int| #[trigger]
        live(s, n) && kind_of(s, n) == CellKind::Doubler ==> parent_of(s, n) is Some && children_of(
            s,
            parent_of(s, n)->0 as int,
        ).len() == 1
}

/// A legal change of parent leaves every Doubler the only child of its
/// parent.
pub proof fn law_change_parent_keeps_doublers_alone(s: Slots, n: NodeId, q: NodeId)
    requires
        tree(s),
        doublers_alone(s),
        live(s, n as int),
        parent_of(s, n as int) is Some,
        can_take(s, n, q),
    ensures
        doublers_alone(reparented(s, n, q)),
{
    let p = parent_of(s, n as int)->0;
    let t = reparented(s, n, q);
    assert(node_linked(s, n as int));
    lemma_no_self_link(s, n);
    lemma_reparented_cells(s, n, p, q);
    let siblings = children_of(s, p as int);
    let hosts = children_of(s, q as int);
    assert forall|d: int| #[trigger] live(t, d) && kind_of(t, d) == CellKind::Doubler implies parent_of(
        t,
        d,
    ) is Some && children_of(t, parent_of(t, d)->0 as int).len() == 1 by {
        assert(live(s, d));
        assert(node_linked(s, d));
        assert(kind_of(t, d) == kind_of(s, d));
        if d == n {
            assert(children_of(t, q as int) == hosts.push(n));
            assert(hosts.len() == 0);
        } else {
            let pd = parent_of(s, d)->0;
            assert(parent_of(t, d) == Some(pd));
            assert(live(s, pd as int));
            assert(children_of(s, pd as int).len() == 1);
            lemma_only_child(children_of(s, pd as int), d as NodeId);
            assert(pd != q) by {
                if pd == q {
                    assert(hosts[0] == d as NodeId);
                }
            }
            assert(pd != p) by {
                if pd == p {
                    lemma_only_child(siblings, n);
                }
            }
            assert(children_of(t, pd as int) == children_of(s, pd as int));
        }
    }
}

/// An exchange of children leaves every Doubler the only child of its
/// parent.
pub proof fn law_swap_keeps_doublers_alone(s: Slots, p: NodeId)
    requires
        tree(s),
        doublers_alone(s),
        live(s, p as int),
        children_of(s, p as int).len() == 2,
    ensures
        doublers_alone(swapped(s, p)),
{
    let t = swapped(s, p);
    assert forall|d: int| #[trigger] live(t, d) && kind_of(t, d) == CellKind::Doubler implies parent_of(
        t,
        d,
    ) is Some && children_of(t, parent_of(t, d)->0 as int).len() == 1 by {
        assert(live(s, d));
        assert(kind_of(t, d) == kind_of(s, d));
        assert(parent_of(t, d) == parent_of(s, d));
        let pd = parent_of(s, d)->0;
        if pd != p {
            assert(children_of(t, pd as int) == children_of(s, pd as int));
        }
    }
}

/// A cell that mutates leaves every Doubler the only child of its parent.
pub proof fn lemma_effect_keeps_doublers_alone(s: Slots, c: NodeId)
    requires
        tree(s),
        doublers_alone(s),
        effect_ready(s, c),
    ensures
        doublers_alone(apply_effect(s, c)),
{
    let t = apply_effect(s, c);
    assert(node_linked(s, c as int));
    lemma_no_self_link(s, c);
    match kind_of(s, c as int) {
        CellKind::Normal => {},
        CellKind::Extender => {
            let moved = children_of(s, c as int);
            assert forall|d: int| #[trigger]
                live(t, d) && kind_of(t, d) == CellKind::Doubler implies parent_of(t, d) is Some
                && children_of(t, parent_of(t, d)->0 as int).len() == 1 by {
                assert(live(s, d));
                assert(node_linked(s, d));
                let pd = parent_of(s, d)->0;
                if moved.contains(d as NodeId) {
                    let k = choose|k: int| 0 <= k < moved.len() && moved[k] == d as NodeId;
                    assert(live(s, moved[k] as int));
                } else {
                    assert(live(s, pd as int));
                    if pd == c {
                        assert(children_of(s, pd as int).contains(d as NodeId));
                    }
                    if moved.contains(pd) {
                        let k = choose|k: int| 0 <= k < moved.len() && moved[k] == pd;
                        assert(live(s, moved[k] as int));
                    }
                }
            }
        },
        CellKind::Eraser => {
            let gone = preorder(s, c);
            let parent = parent_of(s, c as int)->0;
            let siblings = children_of(s, parent as int);
            assert forall|d: int| #[trigger]
                live(t, d) && kind_of(t, d) == CellKind::Doubler implies parent_of(t, d) is Some
                && children_of(t, parent_of(t, d)->0 as int).len() == 1 by {
                assert(live(s, d));
                assert(node_linked(s, d));
                let pd = parent_of(s, d)->0;
                assert(live(s, pd as int));
                if gone.contains(pd) {
                    lemma_preorder_unfolds(s, c);
                    let k = choose|k: int|
                        0 <= k < children_of(s, pd as int).len() && children_of(s, pd as int)[k]
                            == d as NodeId;
                    crate::forest::lemma_member_child(s, c, enough_fuel(s, c), pd, k);
                }
                if pd == parent {
                    assert(siblings.contains(c));
                    assert(siblings.contains(d as NodeId));
                    assert(siblings[0] == c);
                    assert(siblings[0] == d as NodeId);
                }
            }
        },
        CellKind::Doubler => {
            let copied = preorder(s, c);
            let base = s.len();
            let parent = parent_of(s, c as int)->0;
            lemma_subtree_cells(s, c);
            assert forall|d: int| #[trigger]
                live(t, d) && kind_of(t, d) == CellKind::Doubler implies parent_of(t, d) is Some
                && children_of(t, parent_of(t, d)->0 as int).len() == 1 by {
                if d >= base {
                    let i = d - base;
                    let twin = copied[i];
                    assert(live(s, twin as int));
                    assert(node_linked(s, twin as int));
                    let up = parent_of(s, twin as int)->0;
                    assert(copied.contains(up));
                    let j = copied.index_of(up);
                    assert(copy_of(copied, base, up) == base + j);
                } else {
                    assert(live(s, d));
                    assert(node_linked(s, d));
                    let pd = parent_of(s, d)->0;
                    assert(live(s, pd as int));
                    if pd == parent {
                        assert(children_of(s, pd as int).contains(d as NodeId));
                        assert(children_of(s, pd as int).contains(c));
                        assert(children_of(s, pd as int)[0] == c);
                    }
                }
            }
        },
    }
}

/// A mutation pass that can be carried out leaves every Doubler the only
/// child of its parent.
pub proof fn law_mutation_keeps_doublers_alone(s: Slots)
    requires
        tree(s),
        doublers_alone(s),
        mutation_ready(s),
    ensures
        doublers_alone(mutated(s)),
{
    lemma_effects_keep_doublers_alone(s, mutating_cells(s));
}

/// Cells that mutate one after the other leave every Doubler the only child
/// of its parent.
pub proof fn lemma_effects_keep_doublers_alone(s: Slots, cells: Seq<NodeId>)
    requires
        tree(s),
        doublers_alone(s),
        effects_ready(s, cells),
    ensures
        doublers_alone(apply_effects(s, cells)),
    decreases cells.len(),
{
    if cells.len() > 0 {
        let c = cells[0];
        lemma_effect_keeps_doublers_alone(s, c);
        match kind_of(s, c as int) {
            CellKind::Normal => {},
            CellKind::Doubler => lemma_doubled_tree(s, c),
            CellKind::Extender => lemma_extended_tree(s, c),
            CellKind::Eraser => lemma_erased_tree(s, c),
        }
        lemma_effects_keep_doublers_alone(apply_effect(s, c), cells.drop_first());
    }
}

/// The rule that the moves uphold: where every Doubler is the only child of
/// its parent before a move, it is so after the move.
pub proof fn law_moves_keep_doublers_alone(prev: StepView, next: StepView, max: u8)
    requires
        tree(prev.strand),
        doublers_alone(prev.strand),
        is_move(prev, next, max),
    ensures
        doublers_alone(next.strand),
{
    match next.lastAction {
        Some(ActionView::ChangeParent { node, oldParent, newParent }) => {
            law_change_parent_keeps_doublers_alone(prev.strand, node, newParent);
        },
        Some(ActionView::SwapChildren { parent }) => {
            law_swap_keeps_doublers_alone(prev.strand, parent);
        },
        Some(ActionView::Mutate { nodes }) => {
            law_mutation_keeps_doublers_alone(prev.strand);
        },
        None => {},
    }
}

} // verus!
