//! The mutation pass: which cells mutate, what each kind of cell does to the
//! strand, and the proofs that a tree stays a tree.
use crate::children::positionOf;
use crate::convert::toNodeId;
use crate::edits::{child_position, lemma_child_position, lemma_no_self_link};
use crate::forest::{
    children_of, enough_fuel, forest, kind_of, lemma_member_child, lemma_member_live,
    lemma_member_parent, lemma_member_rank, lemma_preorder_unfolds, lemma_walk_no_duplicates,
    linked, live, node_linked, parent_of, preorder, ranked, tree, CellKind, NodeId, NodeView,
    Slots,
};
use crate::strand::{
    cellAt, disconnectParentFromChild, growCell, isLive, lemma_slots_len, putCell, slots,
    vacateCell, Node, Strand,
};
use crate::traversal::{neighborRows, walkRows};
use vstd::prelude::*;

verus! {

/// The number of parent links between cell `n` and a cell without a parent,
/// counting `fuel` links at most.
pub open spec fn hops(s: Slots, n: NodeId, fuel: nat) -> nat
    decreases fuel,
{
    if fuel == 0 {
        0
    } else {
        match parent_of(s, n as int) {
            Some(p) => 1 + hops(s, p, (fuel - 1) as nat),
            None => 0,
        }
    }
}

/// The depth of cell `n`: the number of links between it and the root.
pub open spec fn depth(s: Slots, n: NodeId) -> nat {
    hops(s, n, s.len())
}

/// Slot `n` holds a cell that is not Normal.
pub open spec fn is_special(s: Slots, n: int) -> bool {
    live(s, n) && kind_of(s, n) != CellKind::Normal
}

/// Cell `n` is special and no special cell is less deep.
pub open spec fn is_mutating(s: Slots, n: int) -> bool {
    is_special(s, n) && forall|m: int| #[trigger] is_special(s, m) ==> depth(s, n as NodeId) <= depth(s, m as NodeId)
}

/// The first `count` handles in ascending order.
pub open spec fn handles(count: nat) -> Seq<NodeId> {
    Seq::new(count, |i: int| i as NodeId)
}

/// The cells that mutate in the next pass, in ascending order of their
/// handles: the special cells of the least depth at which there is one.
pub open spec fn mutating_cells(s: Slots) -> Seq<NodeId> {
    handles(s.len()).filter(|n: NodeId| is_mutating(s, n as int))
}

/// The strand after the Extender `e` mutated: a new Normal cell, in a new
/// slot behind the others, stands between `e` and its children, which keep
/// their order, and `e` is Normal.
pub open spec fn extended(s: Slots, e: NodeId) -> Slots {
    let fresh = s.len() as NodeId;
    let moved = children_of(s, e as int);
    Seq::new(
        s.len() + 1,
        |i: int|
            if i == s.len() {
                Some(NodeView { kind: CellKind::Normal, parent: Some(e), children: moved })
            } else if i == e {
                Some(
                    NodeView {
                        kind: CellKind::Normal,
                        parent: parent_of(s, e as int),
                        children: seq![fresh],
                    },
                )
            } else if live(s, i) && moved.contains(i as NodeId) {
                Some(NodeView { parent: Some(fresh), ..s[i]->0 })
            } else {
                s[i]
            },
    )
}

/// The handle of the copy of cell `x`, where the cells `copied` are copied
/// into new slots from `base` on.
pub open spec fn copy_of(copied: Seq<NodeId>, base: nat, x: NodeId) -> NodeId {
    (base + copied.index_of(x)) as NodeId
}

/// The strand after the Doubler `d` mutated: the subtree under `d` is copied
/// into new slots behind the others, cell by cell in left-to-right
/// depth-first order; the copies are linked as the cells they copy and have
/// their kinds, but for the copy of `d`, which is Normal; that copy is the
/// second child of the parent of `d`; and `d` is Normal.
pub open spec fn doubled(s: Slots, d: NodeId) -> Slots {
    let copied = preorder(s, d);
    let base = s.len();
    let parent = parent_of(s, d as int)->0;
    Seq::new(
        base + copied.len(),
        |i: int|
            if i >= base {
                let twin = copied[i - base];
                Some(
                    NodeView {
                        kind: if i == base {
                            CellKind::Normal
                        } else {
                            kind_of(s, twin as int)
                        },
                        parent: if i == base {
                            Some(parent)
                        } else {
                            Some(copy_of(copied, base, parent_of(s, twin as int)->0))
                        },
                        children: children_of(s, twin as int).map_values(
                            |c: NodeId| copy_of(copied, base, c),
                        ),
                    },
                )
            } else if i == parent {
                Some(
                    NodeView {
                        children: children_of(s, parent as int).push(base as NodeId),
                        ..s[i]->0
                    },
                )
            } else if i == d {
                Some(NodeView { kind: CellKind::Normal, ..s[i]->0 })
            } else {
                s[i]
            },
    )
}

/// The strand after the Eraser `r` mutated: `r` left the child list of its
/// parent, and the slots of the subtree under `r` are vacant.
pub open spec fn erased(s: Slots, r: NodeId) -> Slots {
    let gone = preorder(s, r);
    let parent = parent_of(s, r as int)->0;
    let siblings = children_of(s, parent as int);
    Seq::new(
        s.len(),
        |i: int|
            if gone.contains(i as NodeId) {
                None
            } else if i == parent {
                Some(
                    NodeView {
                        children: siblings.remove(child_position(siblings, r)),
                        ..s[i]->0
                    },
                )
            } else {
                s[i]
            },
    )
}

/// Cell `c` can mutate: it is a Doubler that is the only child of its parent
/// and whose copy fits the handles, or an Extender for which one handle is
/// left, or an Eraser that has a parent.
pub open spec fn effect_ready(s: Slots, c: NodeId) -> bool {
    live(s, c as int) && match kind_of(s, c as int) {
        CellKind::Normal => false,
        CellKind::Doubler => parent_of(s, c as int) is Some && children_of(
            s,
            parent_of(s, c as int)->0 as int,
        ).len() == 1 && s.len() + preorder(s, c).len() <= 256,
        CellKind::Extender => s.len() < 256,
        CellKind::Eraser => parent_of(s, c as int) is Some,
    }
}

/// The strand after cell `c` mutated.
pub open spec fn apply_effect(s: Slots, c: NodeId) -> Slots {
    match kind_of(s, c as int) {
        CellKind::Normal => s,
        CellKind::Doubler => doubled(s, c),
        CellKind::Extender => extended(s, c),
        CellKind::Eraser => erased(s, c),
    }
}

/// The cells of `cells` can mutate one after the other, each on the strand
/// that the ones before it left.
pub open spec fn effects_ready(s: Slots, cells: Seq<NodeId>) -> bool
    decreases cells.len(),
{
    cells.len() == 0 || (effect_ready(s, cells[0]) && effects_ready(
        apply_effect(s, cells[0]),
        cells.drop_first(),
    ))
}

/// The strand after the cells of `cells` mutated one after the other.
pub open spec fn apply_effects(s: Slots, cells: Seq<NodeId>) -> Slots
    decreases cells.len(),
{
    if cells.len() == 0 {
        s
    } else {
        apply_effects(apply_effect(s, cells[0]), cells.drop_first())
    }
}

/// The next mutation pass can be carried out.
pub open spec fn mutation_ready(s: Slots) -> bool {
    effects_ready(s, mutating_cells(s))
}

/// The strand after its next mutation pass.
pub open spec fn mutated(s: Slots) -> Slots {
    apply_effects(s, mutating_cells(s))
}

/// An Extender that mutates leaves a tree a tree.
pub proof fn lemma_extended_tree(s: Slots, e: NodeId)
    requires
        tree(s),
        live(s, e as int),
        s.len() < 256,
    ensures
        tree(extended(s, e)),
{
    let t = extended(s, e);
    let fresh = s.len() as NodeId;
    let moved = children_of(s, e as int);
    let (rank, bound) = choose|rank: Seq<nat>, bound: nat| ranked(s, rank, bound);
    assert(node_linked(s, e as int));
    lemma_no_self_link(s, e);
    assert forall|k: int| 0 <= k < moved.len() implies live(s, #[trigger] moved[k] as int)
        && moved[k] != e && moved[k] != fresh && parent_of(t, moved[k] as int) == Some(fresh)
        && live(t, moved[k] as int) && children_of(t, moved[k] as int) == children_of(
        s,
        moved[k] as int,
    ) by {
        assert(moved.contains(moved[k]));
    }
    assert forall|n: int| #[trigger] live(t, n) implies node_linked(t, n) by {
        let node = t[n]->0;
        if n == fresh as int {
            assert(live(t, e as int));
            assert(children_of(t, e as int)[0] == fresh);
            assert(node_linked(t, n));
        } else if n == e as int {
            assert(node.children[0] == fresh);
            assert(live(t, fresh as int));
            match node.parent {
                Some(p) => {
                    assert(live(s, p as int));
                    if moved.contains(p) {
                        let k = choose|k: int| 0 <= k < moved.len() && moved[k] == p;
                        assert(live(s, moved[k] as int));
                    }
                    assert(children_of(t, p as int) == children_of(s, p as int));
                },
                None => {},
            }
            assert(node_linked(t, n));
        } else {
            assert(live(s, n));
            assert(node_linked(s, n));
            assert(node.children == children_of(s, n));
            assert forall|k: int| 0 <= k < node.children.len() implies live(
                t,
                #[trigger] node.children[k] as int,
            ) && parent_of(t, node.children[k] as int) == Some(n as NodeId) by {
                let c = children_of(s, n)[k];
                assert(live(s, c as int));
                if moved.contains(c) {
                    let j = choose|j: int| 0 <= j < moved.len() && moved[j] == c;
                    assert(live(s, moved[j] as int));
                }
            }
            if moved.contains(n as NodeId) {
                assert(live(t, fresh as int));
                assert(node_linked(t, n));
            } else {
                match node.parent {
                    Some(p) => {
                        assert(live(s, p as int));
                        if p == e {
                            assert(children_of(s, p as int).contains(n as NodeId));
                        }
                        if moved.contains(p) {
                            let j = choose|j: int| 0 <= j < moved.len() && moved[j] == p;
                            assert(live(s, moved[j] as int));
                        }
                    },
                    None => {},
                }
            }
        }
    }
    let spread = Seq::new(
        t.len(),
        |i: int|
            if i == fresh as int {
                (2 * rank[e as int] + 1) as nat
            } else {
                (2 * rank[i]) as nat
            },
    );
    let top = (2 * bound + 1) as nat;
    assert forall|n: int| #[trigger] live(t, n) implies spread[n] <= top && (parent_of(t, n) matches Some(
        p,
    ) ==> spread[p as int] < spread[n]) by {
        if n == fresh as int {
        } else {
            assert(live(s, n));
            assert(node_linked(s, n));
            if n != e as int && moved.contains(n as NodeId) {
                let j = choose|j: int| 0 <= j < moved.len() && moved[j] == n;
                assert(live(s, moved[j] as int));
            } else {
                match parent_of(s, n) {
                    Some(p) => {
                        assert(live(s, p as int));
                    },
                    None => {},
                }
            }
        }
    }
    assert(ranked(t, spread, top));
    assert forall|n: int| #[trigger] live(t, n) implies (parent_of(t, n) is None <==> n == 0) by {
        if n != fresh as int {
            assert(live(s, n));
            if moved.contains(n as NodeId) {
                let j = choose|j: int| 0 <= j < moved.len() && moved[j] == n;
                assert(live(s, moved[j] as int));
            }
        }
    }
}

/// An Eraser with a parent that mutates leaves a tree a tree.
pub proof fn lemma_erased_tree(s: Slots, r: NodeId)
    requires
        tree(s),
        live(s, r as int),
        parent_of(s, r as int) is Some,
    ensures
        tree(erased(s, r)),
{
    let t = erased(s, r);
    let gone = preorder(s, r);
    let parent = parent_of(s, r as int)->0;
    let siblings = children_of(s, parent as int);
    let (rank, bound) = choose|rank: Seq<nat>, bound: nat| ranked(s, rank, bound);
    lemma_preorder_unfolds(s, r);
    let fuel = enough_fuel(s, r);
    assert(node_linked(s, r as int));
    assert(live(s, parent as int));
    assert(node_linked(s, parent as int));
    let at = child_position(siblings, r);
    lemma_child_position(siblings, r);
    let kept = siblings.remove(at);
    assert(!gone.contains(parent)) by {
        if gone.contains(parent) {
            lemma_member_rank(s, rank, bound, r, fuel, parent);
        }
    }
    assert(children_of(t, parent as int) == kept);
    // a cell that stays has a parent that stays, and children that stay
    assert forall|n: int| #[trigger] live(t, n) implies live(s, n) && !gone.contains(n as NodeId) by {}
    assert forall|n: int| #[trigger] live(t, n) implies node_linked(t, n) by {
        assert(live(s, n));
        assert(node_linked(s, n));
        let node = t[n]->0;
        assert forall|k: int| 0 <= k < node.children.len() implies live(
            t,
            #[trigger] node.children[k] as int,
        ) && parent_of(t, node.children[k] as int) == Some(n as NodeId) by {
            let c = node.children[k];
            if n == parent as int {
                let j = if k < at { k } else { k + 1 };
                assert(kept[k] == siblings[j]);
                assert(live(s, siblings[j] as int));
                assert(c != r);
            } else {
                assert(c == children_of(s, n)[k]);
                assert(live(s, c as int));
            }
            if gone.contains(c) {
                lemma_member_parent(s, r, fuel, c);
            }
        }
        if n == parent as int {
            assert(kept.no_duplicates());
        }
        match node.parent {
            Some(p) => {
                assert(live(s, p as int));
                if gone.contains(p) {
                    let k = choose|k: int|
                        0 <= k < children_of(s, p as int).len() && children_of(s, p as int)[k]
                            == n;
                    lemma_member_child(s, r, fuel, p, k);
                }
                if p == parent {
                    let j = choose|j: int| 0 <= j < siblings.len() && siblings[j] == n;
                    let i = if j < at { j } else { j - 1 };
                    assert(kept[i] == n);
                }
            },
            None => {},
        }
    }
    assert forall|n: int| #[trigger] live(t, n) implies rank[n] <= bound && (parent_of(t, n) matches Some(
        p,
    ) ==> rank[p as int] < rank[n]) by {
        assert(live(s, n));
    }
    assert(ranked(t, rank, bound));
    assert(!gone.contains(0)) by {
        if gone.contains(0) {
            lemma_member_parent(s, r, fuel, 0);
        }
    }
    assert forall|n: int| #[trigger] live(t, n) implies (parent_of(t, n) is None <==> n == 0) by {
        assert(live(s, n));
    }
}

/// In a list without duplicates, an element is found where it stands.
pub proof fn lemma_index_of<A>(list: Seq<A>, i: int)
    requires
        list.no_duplicates(),
        0 <= i < list.len(),
    ensures
        list.index_of(list[i]) == i,
{
    let found = list.index_of(list[i]);
    assert(0 <= found < list.len() && list[found] == list[i]);
}

/// What holds of the cells of the subtree under a cell of a forest: each is a
/// cell, none occurs twice, each but the first has its parent in the subtree,
/// and the children of each are in the subtree behind the first position.
pub proof fn lemma_subtree_cells(s: Slots, d: NodeId)
    requires
        forest(s),
        live(s, d as int),
    ensures
        preorder(s, d).len() >= 1,
        preorder(s, d)[0] == d,
        preorder(s, d).no_duplicates(),
        forall|i: int|
            0 <= i < preorder(s, d).len() ==> live(s, #[trigger] preorder(s, d)[i] as int),
        forall|i: int|
            1 <= i < preorder(s, d).len() ==> parent_of(s, #[trigger] preorder(s, d)[i] as int)
                is Some && preorder(s, d).contains(parent_of(s, preorder(s, d)[i] as int)->0),
        forall|i: int, k: int|
            0 <= i < preorder(s, d).len() && 0 <= k < children_of(s, preorder(s, d)[i] as int).len()
                ==> preorder(s, d).contains(
                #[trigger] children_of(s, preorder(s, d)[i] as int)[k],
            ) && children_of(s, preorder(s, d)[i] as int)[k] != d,
{
    let copied = preorder(s, d);
    let (rank, bound) = choose|rank: Seq<nat>, bound: nat| ranked(s, rank, bound);
    lemma_preorder_unfolds(s, d);
    let fuel = enough_fuel(s, d);
    lemma_walk_no_duplicates(s, rank, bound, d, fuel);
    assert forall|i: int| 0 <= i < copied.len() implies live(s, #[trigger] copied[i] as int) by {
        assert(copied.contains(copied[i]));
        lemma_member_live(s, d, fuel, copied[i]);
    }
    assert forall|i: int| 1 <= i < copied.len() implies parent_of(s, #[trigger] copied[i] as int)
        is Some && copied.contains(parent_of(s, copied[i] as int)->0) by {
        assert(copied.contains(copied[i]));
        lemma_member_parent(s, d, fuel, copied[i]);
    }
    assert forall|i: int, k: int|
        0 <= i < copied.len() && 0 <= k < children_of(s, copied[i] as int).len() implies copied.contains(
        #[trigger] children_of(s, copied[i] as int)[k],
    ) && children_of(s, copied[i] as int)[k] != d by {
        assert(copied.contains(copied[i]));
        lemma_member_child(s, d, fuel, copied[i], k);
        lemma_member_live(s, d, fuel, copied[i]);
        lemma_member_rank(s, rank, bound, d, fuel, copied[i]);
        assert(node_linked(s, copied[i] as int));
        let c = children_of(s, copied[i] as int)[k];
        assert(live(s, c as int));
    }
}

/// A Doubler that mutates, being the only child of its parent and with room
/// for its copy, leaves a tree a tree.
pub proof fn lemma_doubled_tree(s: Slots, d: NodeId)
    requires
        tree(s),
        live(s, d as int),
        parent_of(s, d as int) is Some,
        children_of(s, parent_of(s, d as int)->0 as int).len() == 1,
        s.len() + preorder(s, d).len() <= 256,
    ensures
        tree(doubled(s, d)),
{
    let t = doubled(s, d);
    let copied = preorder(s, d);
    let base = s.len();
    let parent = parent_of(s, d as int)->0;
    let (rank, bound) = choose|rank: Seq<nat>, bound: nat| ranked(s, rank, bound);
    lemma_subtree_cells(s, d);
    assert(node_linked(s, d as int));
    assert(live(s, parent as int));
    assert(node_linked(s, parent as int));
    lemma_no_self_link(s, d);
    lemma_no_self_link(s, parent);
    let copy = |c: NodeId| copy_of(copied, base, c);
    assert forall|i: int| 0 <= i < copied.len() implies copy_of(copied, base, #[trigger] copied[i])
        == base + i by {
        lemma_index_of(copied, i);
    }
    assert forall|x: NodeId| #[trigger] copied.contains(x) implies 0 <= copied.index_of(x)
        < copied.len() && copied[copied.index_of(x)] == x && copy_of(copied, base, x) == base
        + copied.index_of(x) by {}
    assert forall|n: int| #[trigger] live(t, n) implies node_linked(t, n) by {
        let node = t[n]->0;
        if n >= base {
            let i = n - base;
            let twin = copied[i];
            let from = children_of(s, twin as int);
            assert(live(s, twin as int));
            assert(node_linked(s, twin as int));
            assert(node.children == from.map_values(copy));
            assert forall|k: int| 0 <= k < node.children.len() implies live(
                t,
                #[trigger] node.children[k] as int,
            ) && parent_of(t, node.children[k] as int) == Some(n as NodeId) by {
                let c = from[k];
                assert(copied.contains(c) && c != d);
                let j = copied.index_of(c);
                assert(node.children[k] == base + j);
                assert(live(s, c as int));
                assert(parent_of(s, c as int) == Some(twin));
                assert(copied.contains(twin));
                lemma_index_of(copied, i);
            }
            assert forall|k: int, m: int|
                0 <= k < node.children.len() && 0 <= m < node.children.len() && k != m implies node.children[k]
                != node.children[m] by {
                assert(copied.contains(from[k]) && copied.contains(from[m]));
            }
            if i == 0 {
                assert(children_of(t, parent as int)[1] == base as NodeId);
            } else {
                let q = parent_of(s, twin as int)->0;
                assert(copied.contains(q));
                let j = copied.index_of(q);
                assert(live(s, q as int));
                assert(node_linked(s, q as int));
                let m = choose|m: int|
                    0 <= m < children_of(s, q as int).len() && children_of(s, q as int)[m]
                        == twin;
                assert(children_of(t, base + j)[m] == copy_of(copied, base, twin));
                lemma_index_of(copied, i);
            }
            assert(node_linked(t, n));
        } else {
            assert(live(s, n));
            assert(node_linked(s, n));
            if n == parent as int {
                assert(node.children == children_of(s, n).push(base as NodeId));
                assert(children_of(s, n)[0] == d) by {
                    let k = choose|k: int|
                        0 <= k < children_of(s, n).len() && children_of(s, n)[k] == d;
                }
                assert(live(t, base as int));
                assert(copied[0] == d);
                match node.parent {
                    Some(pp) => {
                        assert(live(s, pp as int));
                    },
                    None => {},
                }
                assert(node_linked(t, n));
            } else {
                assert(node.children == children_of(s, n));
                assert forall|k: int| 0 <= k < node.children.len() implies live(
                    t,
                    #[trigger] node.children[k] as int,
                ) && parent_of(t, node.children[k] as int) == Some(n as NodeId) by {
                    assert(live(s, children_of(s, n)[k] as int));
                }
                match node.parent {
                    Some(pp) => {
                        assert(live(s, pp as int));
                        if pp == parent {
                            let k = choose|k: int|
                                0 <= k < children_of(s, pp as int).len() && children_of(
                                    s,
                                    pp as int,
                                )[k] == n;
                            assert(children_of(t, pp as int)[k] == n);
                        }
                    },
                    None => {},
                }
                assert(node_linked(t, n));
            }
        }
    }
    let copied_rank = Seq::new(
        t.len(),
        |i: int|
            if i >= base {
                rank[copied[i - base] as int]
            } else {
                rank[i]
            },
    );
    assert forall|n: int| #[trigger] live(t, n) implies copied_rank[n] <= bound && (parent_of(t, n) matches Some(
        q,
    ) ==> copied_rank[q as int] < copied_rank[n]) by {
        if n >= base {
            let i = n - base;
            let twin = copied[i];
            assert(live(s, twin as int));
            if i > 0 {
                let q = parent_of(s, twin as int)->0;
                assert(copied.contains(q));
            }
        } else {
            assert(live(s, n));
            match parent_of(s, n) {
                Some(q) => {
                    assert(node_linked(s, n));
                },
                None => {},
            }
        }
    }
    assert(ranked(t, copied_rank, bound));
    assert forall|n: int| #[trigger] live(t, n) implies (parent_of(t, n) is None <==> n == 0) by {
        if n < base {
            assert(live(s, n));
        }
    }
}

/// Counting links stops at the fuel.
pub proof fn lemma_hops_bounded(s: Slots, n: NodeId, fuel: nat)
    ensures
        hops(s, n, fuel) <= fuel,
    decreases fuel,
{
    if fuel > 0 {
        match parent_of(s, n as int) {
            Some(p) => lemma_hops_bounded(s, p, (fuel - 1) as nat),
            None => {},
        }
    }
}

/// The depth of a cell.
pub(crate) fn calculateDepth(cells: &Vec<Option<Node>>, nodeId: NodeId) -> (depth: usize)
    requires
        linked(slots(cells@)),
        live(slots(cells@), nodeId as int),
    ensures
        depth == crate::mutation::depth(slots(cells@), nodeId),
        depth <= slots(cells@).len(),
{
    let ghost s = slots(cells@);
    proof {
        lemma_slots_len(cells@);
    }
    let mut depth: usize = 0;
    let mut currentId: NodeId = nodeId;
    while depth < cells.len()
        invariant
            s == slots(cells@),
            s.len() == cells.len(),
            linked(s),
            live(s, currentId as int),
            depth <= cells.len(),
            depth + hops(s, currentId, (s.len() - depth) as nat) == hops(s, nodeId, s.len()),
        ensures
            depth == hops(s, nodeId, s.len()),
            depth <= cells.len(),
        decreases cells.len() - depth,
    {
        match cellAt(cells, currentId).parent() {
            Some(parentId) => {
                assert(node_linked(s, currentId as int));
                depth += 1;
                currentId = parentId;
            },
            None => {
                break ;
            },
        }
    }
    depth
}

/// Predicates that agree on the elements of a list filter it alike.
pub proof fn lemma_filter_agrees<A>(list: Seq<A>, p: spec_fn(A) -> bool, q: spec_fn(A) -> bool)
    requires
        forall|i: int| 0 <= i < list.len() ==> p(#[trigger] list[i]) == q(list[i]),
    ensures
        list.filter(p) == list.filter(q),
    decreases list.len(),
{
    reveal_with_fuel(Seq::filter, 2);
    if list.len() > 0 {
        lemma_filter_agrees(list.drop_last(), p, q);
    }
}

/// A predicate that no element meets filters everything out.
pub proof fn lemma_filter_none<A>(list: Seq<A>, p: spec_fn(A) -> bool)
    requires
        forall|i: int| 0 <= i < list.len() ==> !p(#[trigger] list[i]),
    ensures
        list.filter(p) == Seq::<A>::empty(),
    decreases list.len(),
{
    reveal_with_fuel(Seq::filter, 2);
    if list.len() > 0 {
        lemma_filter_none(list.drop_last(), p);
    }
}

/// Filtering a list with one more element.
pub proof fn lemma_filter_push<A>(list: Seq<A>, last: A, p: spec_fn(A) -> bool)
    ensures
        list.push(last).filter(p) == if p(last) {
            list.filter(p).push(last)
        } else {
            list.filter(p)
        },
{
    reveal_with_fuel(Seq::filter, 2);
    assert(list.push(last).drop_last() =~= list);
}

/// The cells that mutate in the next pass, in ascending order of their
/// handles.
pub(crate) fn findMutableSpecialCellsIds(cells: &Vec<Option<Node>>) -> (ids: Vec<NodeId>)
    requires
        linked(slots(cells@)),
    ensures
        ids@ == mutating_cells(slots(cells@)),
{
    let ghost s = slots(cells@);
    proof {
        lemma_slots_len(cells@);
    }
    let mut shallowestDepth: usize = usize::MAX;
    let mut output: Vec<NodeId> = Vec::new();
    let mut index: usize = 0;
    let ghost mut witness: int = 0;
    assert(handles(0) =~= Seq::<NodeId>::empty());
    while index < cells.len()
        invariant
            s == slots(cells@),
            s.len() == cells.len(),
            s.len() <= 256,
            linked(s),
            index <= cells.len(),
            output@ == handles(index as nat).filter(
                |n: NodeId| is_special(s, n as int) && depth(s, n) == shallowestDepth,
            ),
            forall|m: int| 0 <= m < index && is_special(s, m) ==> depth(s, m as NodeId) >= shallowestDepth,
            shallowestDepth == usize::MAX ==> forall|m: int| 0 <= m < index ==> !is_special(s, m),
            shallowestDepth != usize::MAX ==> 0 <= witness < index && is_special(s, witness) && depth(
                s,
                witness as NodeId,
            ) == shallowestDepth,
        decreases cells.len() - index,
    {
        let cellId: NodeId = index as NodeId;
        let ghost before = handles(index as nat);
        let ghost old_shallowest = shallowestDepth;
        let ghost old_pred = |n: NodeId| is_special(s, n as int) && depth(s, n) == old_shallowest;
        proof {
            assert(handles((index + 1) as nat) =~= before.push(cellId));
            lemma_filter_push(before, cellId, old_pred);
        }
        if isLive(cells, cellId) && cellAt(cells, cellId).kind() != CellKind::Normal {
            let depth: usize = calculateDepth(cells, cellId);
            if depth < shallowestDepth {
                shallowestDepth = depth;
                output = Vec::new();
                output.push(cellId);
                proof {
                    let new_pred = |n: NodeId|
                        is_special(s, n as int) && crate::mutation::depth(s, n) == shallowestDepth;
                    assert forall|i: int| 0 <= i < before.len() implies !new_pred(
                        #[trigger] before[i],
                    ) by {
                        if is_special(s, before[i] as int) {
                            assert(crate::mutation::depth(s, i as NodeId) >= old_shallowest);
                        }
                    }
                    lemma_filter_none(before, new_pred);
                    lemma_filter_push(before, cellId, new_pred);
                    assert(output@ =~= Seq::<NodeId>::empty().push(cellId));
                    witness = index as int;
                }
            } else if depth == shallowestDepth {
                output.push(cellId);
            }
        }
        index += 1;
    }
    proof {
        let last_pred = |n: NodeId| is_special(s, n as int) && depth(s, n) == shallowestDepth;
        let all = handles(s.len());
        assert forall|i: int| 0 <= i < all.len() implies last_pred(#[trigger] all[i]) == is_mutating(
            s,
            all[i] as int,
        ) by {
            if shallowestDepth != usize::MAX {
                assert(is_special(s, witness));
                if is_mutating(s, i) {
                    assert(depth(s, i as NodeId) <= depth(s, witness as NodeId));
                }
                if last_pred(all[i]) {
                    assert forall|m: int| #[trigger] is_special(s, m) implies depth(s, i as NodeId)
                        <= depth(s, m as NodeId) by {}
                }
            }
        }
        lemma_filter_agrees(all, last_pred, |n: NodeId| is_mutating(s, n as int));
    }
    output
}

/// The slots with the first `count` handles of `gone` vacant.
pub open spec fn vacated(s: Slots, gone: Seq<NodeId>, count: int) -> Slots {
    Seq::new(
        s.len(),
        |i: int|
            if gone.take(count).contains(i as NodeId) {
                None
            } else {
                s[i]
            },
    )
}

/// The Extender `extenderNodeId` mutates.
pub(crate) fn mutateExtender(cells: &mut Vec<Option<Node>>, extenderNodeId: NodeId)
    requires
        tree(slots(old(cells)@)),
        live(slots(old(cells)@), extenderNodeId as int),
        slots(old(cells)@).len() < 256,
    ensures
        slots(final(cells)@) == extended(slots(old(cells)@), extenderNodeId),
{
    let ghost s = slots(cells@);
    proof {
        lemma_slots_len(cells@);
        assert(node_linked(s, extenderNodeId as int));
        lemma_no_self_link(s, extenderNodeId);
    }
    let newNodeId: NodeId = toNodeId(cells.len()).unwrap();
    let extender = cellAt(cells, extenderNodeId);
    let inserted = extender.withKind(CellKind::Normal).withParent(Some(extenderNodeId));
    let shortened = extender.withKind(CellKind::Normal).withoutChildren().withChild(newNodeId);
    let childCount: usize = extender.children().len();
    if childCount == 0 {
        growCell(cells, inserted);
        putCell(cells, extenderNodeId, shortened);
    } else if childCount == 1 {
        let childId: NodeId = extender.children()[0];
        assert(live(s, childId as int)) by {
            assert(children_of(s, extenderNodeId as int)[0] == childId);
        }
        let child = cellAt(cells, childId).withParent(Some(newNodeId));
        growCell(cells, inserted);
        putCell(cells, extenderNodeId, shortened);
        putCell(cells, childId, child);
    } else {
        let childId1: NodeId = extender.children()[0];
        let childId2: NodeId = extender.children()[1];
        assert(live(s, childId1 as int) && live(s, childId2 as int)) by {
            assert(children_of(s, extenderNodeId as int)[0] == childId1);
            assert(children_of(s, extenderNodeId as int)[1] == childId2);
        }
        let child1 = cellAt(cells, childId1).withParent(Some(newNodeId));
        let child2 = cellAt(cells, childId2).withParent(Some(newNodeId));
        growCell(cells, inserted);
        putCell(cells, extenderNodeId, shortened);
        putCell(cells, childId1, child1);
        putCell(cells, childId2, child2);
    }
    proof {
        let moved = children_of(s, extenderNodeId as int);
        assert forall|i: int| 0 <= i < s.len() + 1 implies slots(cells@)[i] == extended(
            s,
            extenderNodeId,
        )[i] by {
            if live(s, i) && moved.contains(i as NodeId) {
                let k = choose|k: int| 0 <= k < moved.len() && moved[k] == i as NodeId;
            }
            if moved.len() >= 1 {
                assert(moved.contains(moved[0]));
            }
            if moved.len() >= 2 {
                assert(moved.contains(moved[1]));
            }
        }
        assert(slots(cells@) =~= extended(s, extenderNodeId));
    }
}

/// The Eraser `eraserNodeId` mutates.
pub(crate) fn mutateEraser(cells: &mut Vec<Option<Node>>, eraserNodeId: NodeId)
    requires
        tree(slots(old(cells)@)),
        live(slots(old(cells)@), eraserNodeId as int),
        parent_of(slots(old(cells)@), eraserNodeId as int) is Some,
    ensures
        slots(final(cells)@) == erased(slots(old(cells)@), eraserNodeId),
{
    let ghost s = slots(cells@);
    proof {
        lemma_slots_len(cells@);
        assert(node_linked(s, eraserNodeId as int));
        assert(node_linked(s, parent_of(s, eraserNodeId as int)->0 as int));
        lemma_subtree_cells(s, eraserNodeId);
    }
    let rows = neighborRows(cells);
    let nodeIdsToErase = walkRows(&rows, eraserNodeId, Ghost(s));
    disconnectParentFromChild(cells, eraserNodeId);
    let ghost loose = slots(cells@);
    let mut index: usize = 0;
    assert(slots(cells@) =~= vacated(loose, nodeIdsToErase@, 0));
    while index < nodeIdsToErase.len()
        invariant
            index <= nodeIdsToErase.len(),
            nodeIdsToErase@ == preorder(s, eraserNodeId),
            loose.len() == s.len(),
            s.len() <= 256,
            forall|i: int|
                0 <= i < nodeIdsToErase.len() ==> (#[trigger] nodeIdsToErase[i] as int) < s.len(),
            slots(cells@) == vacated(loose, nodeIdsToErase@, index as int),
        decreases nodeIdsToErase.len() - index,
    {
        let nodeId: NodeId = nodeIdsToErase[index];
        assert((nodeIdsToErase[index as int] as int) < s.len());
        vacateCell(cells, nodeId);
        proof {
            let gone = nodeIdsToErase@;
            assert(gone.take(index + 1) =~= gone.take(index as int).push(nodeId));
            assert forall|i: int| 0 <= i < loose.len() implies slots(cells@)[i] == vacated(
                loose,
                gone,
                index + 1,
            )[i] by {
                vstd::seq_lib::lemma_seq_contains_after_push(
                    gone.take(index as int),
                    nodeId,
                    i as NodeId,
                );
            }
            assert(slots(cells@) =~= vacated(loose, gone, index + 1));
        }
        index += 1;
    }
    proof {
        let gone = nodeIdsToErase@;
        assert(gone.take(gone.len() as int) =~= gone);
        assert(gone.contains(eraserNodeId));
        assert(slots(cells@) =~= erased(s, eraserNodeId));
    }
}

/// The handle of the copy of `oldId`, one of the cells `copied`, which are
/// copied into new slots from `base` on.
fn copyIdOf(copied: &Vec<NodeId>, base: usize, oldId: NodeId) -> (newId: NodeId)
    requires
        copied@.contains(oldId),
        copied@.no_duplicates(),
        base + copied.len() <= 256,
    ensures
        newId == copy_of(copied@, base as nat, oldId),
        newId == base + copied@.index_of(oldId),
{
    let position: usize = positionOf(copied.as_slice(), oldId).unwrap();
    proof {
        lemma_index_of(copied@, position as int);
    }
    toNodeId(base + position).unwrap()
}

/// The Doubler `doublerNodeId` mutates.
pub(crate) fn mutateDoubler(cells: &mut Vec<Option<Node>>, doublerNodeId: NodeId)
    requires
        tree(slots(old(cells)@)),
        live(slots(old(cells)@), doublerNodeId as int),
        parent_of(slots(old(cells)@), doublerNodeId as int) is Some,
        children_of(
            slots(old(cells)@),
            parent_of(slots(old(cells)@), doublerNodeId as int)->0 as int,
        ).len() == 1,
        slots(old(cells)@).len() + preorder(slots(old(cells)@), doublerNodeId).len() <= 256,
    ensures
        slots(final(cells)@) == doubled(slots(old(cells)@), doublerNodeId),
{
    let ghost s = slots(cells@);
    let ghost goal = doubled(s, doublerNodeId);
    proof {
        lemma_slots_len(cells@);
        assert(node_linked(s, doublerNodeId as int));
        lemma_subtree_cells(s, doublerNodeId);
        lemma_no_self_link(s, doublerNodeId);
    }
    let parentId: NodeId = cellAt(cells, doublerNodeId).parent().unwrap();
    let rows = neighborRows(cells);
    let oldNodeIdsList = walkRows(&rows, doublerNodeId, Ghost(s));
    let slotCount: usize = cells.len();
    let mut index: usize = 0;
    while index < oldNodeIdsList.len()
        invariant
            index <= oldNodeIdsList.len(),
            oldNodeIdsList@ == preorder(s, doublerNodeId),
            slotCount == s.len(),
            s.len() + oldNodeIdsList.len() <= 256,
            tree(s),
            live(s, doublerNodeId as int),
            parent_of(s, doublerNodeId as int) == Some(parentId),
            goal == doubled(s, doublerNodeId),
            slots(cells@).len() == slotCount + index,
            forall|i: int| 0 <= i < slotCount ==> #[trigger] slots(cells@)[i] == s[i],
            forall|i: int|
                slotCount <= i < slotCount + index ==> #[trigger] slots(cells@)[i]
                    == goal[i],
        decreases oldNodeIdsList.len() - index,
    {
        let ghost before = slots(cells@);
        proof {
            lemma_subtree_cells(s, doublerNodeId);
        }
        let oldNodeId: NodeId = oldNodeIdsList[index];
        assert(live(s, oldNodeId as int));
        assert(live(before, oldNodeId as int));
        assert(node_linked(s, oldNodeId as int));
        let twin = cellAt(cells, oldNodeId);
        let mut copy = Node::default();
        if index == 0 {
            copy = copy.withParent(Some(parentId));
        } else {
            let oldParentId: NodeId = twin.parent().unwrap();
            copy = copy.withKind(twin.kind()).withParent(
                Some(copyIdOf(&oldNodeIdsList, slotCount, oldParentId)),
            );
        }
        let childCount: usize = twin.children().len();
        if childCount >= 1 {
            let childId: NodeId = twin.children()[0];
            assert(children_of(s, oldNodeId as int)[0] == childId);
            copy = copy.withChild(copyIdOf(&oldNodeIdsList, slotCount, childId));
        }
        if childCount >= 2 {
            let childId: NodeId = twin.children()[1];
            assert(children_of(s, oldNodeId as int)[1] == childId);
            copy = copy.withChild(copyIdOf(&oldNodeIdsList, slotCount, childId));
        }
        proof {
            let from = children_of(s, oldNodeId as int);
            assert(copy@.children =~= from.map_values(
                |c: NodeId| copy_of(oldNodeIdsList@, slotCount as nat, c),
            ));
            assert(Some(copy@) == goal[slotCount + index]);
        }
        growCell(cells, copy);
        index += 1;
    }
    let ghost grown = slots(cells@);
    let firstCopyId: NodeId = toNodeId(slotCount).unwrap();
    assert(live(s, parentId as int)) by {
        assert(node_linked(s, doublerNodeId as int));
    }
    assert(live(grown, parentId as int));
    let parent = cellAt(cells, parentId).withChild(firstCopyId);
    putCell(cells, parentId, parent);
    assert(live(slots(cells@), doublerNodeId as int));
    let doubler = cellAt(cells, doublerNodeId).withKind(CellKind::Normal);
    putCell(cells, doublerNodeId, doubler);
    assert(slots(cells@) =~= goal);
}

/// Whether cell `cellId` can mutate.
pub(crate) fn isEffectReady(cells: &Vec<Option<Node>>, cellId: NodeId) -> (ready: bool)
    requires
        tree(slots(cells@)),
    ensures
        ready == effect_ready(slots(cells@), cellId),
{
    let ghost s = slots(cells@);
    proof {
        lemma_slots_len(cells@);
    }
    if !isLive(cells, cellId) {
        return false;
    }
    let cell = cellAt(cells, cellId);
    assert(node_linked(s, cellId as int));
    match cell.kind() {
        CellKind::Normal => false,
        CellKind::Doubler => {
            match cell.parent() {
                Some(parentId) => {
                    if cellAt(cells, parentId).children().len() != 1 {
                        return false;
                    }
                    let rows = neighborRows(cells);
                    let copied = walkRows(&rows, cellId, Ghost(s));
                    proof {
                        lemma_subtree_cells(s, cellId);
                        copied@.unique_seq_to_set();
                        vstd::set_lib::lemma_int_range(0, 256);
                        let ids = copied@.to_set().map(|id: NodeId| id as int);
                        assert(ids.subset_of(vstd::set_lib::set_int_range(0, 256))) by {
                            assert forall|x: int| ids.contains(x) implies 0 <= x < 256 by {
                                let id = choose|id: NodeId| copied@.to_set().contains(id) && id as int == x;
                            }
                        }
                        vstd::set_lib::lemma_len_subset(ids, vstd::set_lib::set_int_range(0, 256));
                        vstd::set_lib::lemma_map_size(
                            copied@.to_set(),
                            ids,
                            |id: NodeId| id as int,
                        );
                    }
                    cells.len() + copied.len() <= 256
                },
                None => false,
            }
        },
        CellKind::Extender => cells.len() < 256,
        CellKind::Eraser => cell.parent().is_some(),
    }
}

/// Carries out the next mutation pass on `cells`, cell by cell, as far as
/// the cells can mutate: the cells after the pass and the cells that
/// mutated, or nothing where one of them could not.
pub(crate) fn attemptMutation(cells: Vec<Option<Node>>) -> (outcome: Option<
    (Vec<Option<Node>>, Vec<NodeId>),
>)
    requires
        tree(slots(cells@)),
    ensures
        match outcome {
            Some((after, ids)) => mutation_ready(slots(cells@)) && slots(after@) == mutated(
                slots(cells@),
            ) && ids@ == mutating_cells(slots(cells@)) && tree(slots(after@)),
            None => !mutation_ready(slots(cells@)),
        },
{
    let ghost s = slots(cells@);
    let mutableCellsIds = findMutableSpecialCellsIds(&cells);
    let mut current = cells;
    let mut index: usize = 0;
    assert(mutableCellsIds@.skip(0) =~= mutableCellsIds@);
    while index < mutableCellsIds.len()
        invariant
            index <= mutableCellsIds.len(),
            s == slots(cells@),
            mutableCellsIds@ == mutating_cells(s),
            tree(slots(current@)),
            effects_ready(s, mutableCellsIds@) == effects_ready(
                slots(current@),
                mutableCellsIds@.skip(index as int),
            ),
            apply_effects(s, mutableCellsIds@) == apply_effects(
                slots(current@),
                mutableCellsIds@.skip(index as int),
            ),
        decreases mutableCellsIds.len() - index,
    {
        let cellId: NodeId = mutableCellsIds[index];
        let ghost now = slots(current@);
        let ghost rest = mutableCellsIds@.skip(index as int);
        proof {
            assert(rest[0] == cellId);
            assert(rest.drop_first() =~= mutableCellsIds@.skip(index + 1));
        }
        if !isEffectReady(&current, cellId) {
            assert(!effects_ready(now, rest));
            return None;
        }
        assert(effects_ready(now, rest) == effects_ready(apply_effect(now, cellId), rest.drop_first()));
        assert(apply_effects(now, rest) == apply_effects(apply_effect(now, cellId), rest.drop_first()));
        match cellAt(&current, cellId).kind() {
            CellKind::Doubler => {
                proof {
                    lemma_doubled_tree(now, cellId);
                }
                mutateDoubler(&mut current, cellId);
            },
            CellKind::Extender => {
                proof {
                    lemma_extended_tree(now, cellId);
                }
                mutateExtender(&mut current, cellId);
            },
            CellKind::Eraser => {
                proof {
                    lemma_erased_tree(now, cellId);
                }
                mutateEraser(&mut current, cellId);
            },
            CellKind::Normal => {},
        }
        index += 1;
    }
    Some((current, mutableCellsIds))
}

impl Strand {
    /// Whether the next mutation pass can be carried out: every cell that
    /// mutates in it can, on the strand that the ones before it left.
    pub fn canMutate(&self) -> (ready: bool)
        ensures
            ready == mutation_ready(self@),
    {
        attemptMutation(self.copyCells()).is_some()
    }

    /// Carries out one mutation pass: the special cells of the least depth
    /// at which there is one mutate, in ascending order of their handles.
    /// Returns the cells that mutated.
    pub fn mutate(&mut self) -> (cellIds: Vec<NodeId>)
        requires
            mutation_ready(old(self)@),
        ensures
            final(self)@ == mutated(old(self)@),
            cellIds@ == mutating_cells(old(self)@),
            final(self).wf(),
    {
        match attemptMutation(self.copyCells()) {
            Some((after, cellIds)) => {
                self.replaceCells(after);
                cellIds
            },
            None => vstd::pervasive::unreached(),
        }
    }
}

} // verus!
