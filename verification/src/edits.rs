//! The two structural edits of a strand, as functions on its model, and the
//! proofs that they keep a forest a forest.
use crate::forest::{
    children_of, forest, lemma_member_child, lemma_member_live, lemma_member_parent,
    lemma_member_rank, lemma_preorder_unfolds, lemma_walk_is_preorder, lemma_walk_join,
    lemma_walk_same, live, node_linked, parent_of, preorder, ranked, rooted, tree, walk, within,
    CellKind, NodeId, NodeView, Slots,
};
use vstd::prelude::*;

verus! {

/// The strand with the kind of cell `n` replaced.
pub open spec fn with_kind(s: Slots, n: int, kind: CellKind) -> Slots {
    s.update(n, Some(NodeView { kind, ..s[n]->0 }))
}

/// The strand with the parent of cell `n` replaced.
pub open spec fn with_parent(s: Slots, n: int, parent: Option<NodeId>) -> Slots {
    s.update(n, Some(NodeView { parent, ..s[n]->0 }))
}

/// The strand with the children of cell `n` replaced.
pub open spec fn with_children(s: Slots, n: int, children: Seq<NodeId>) -> Slots {
    s.update(n, Some(NodeView { children, ..s[n]->0 }))
}

/// The strand after `child` became the last child of `parent`.
pub open spec fn connected(s: Slots, parent: NodeId, child: NodeId) -> Slots {
    with_parent(
        with_children(s, parent as int, children_of(s, parent as int).push(child)),
        child as int,
        Some(parent),
    )
}

/// Where `child` stands in a list of at most two children that holds it.
pub open spec fn child_position(children: Seq<NodeId>, child: NodeId) -> int {
    if children.len() >= 1 && children[0] == child {
        0
    } else {
        1
    }
}

/// A list of at most two children holds a child of it where
/// `child_position` says.
pub proof fn lemma_child_position(children: Seq<NodeId>, child: NodeId)
    requires
        children.len() <= 2,
        children.contains(child),
    ensures
        0 <= child_position(children, child) < children.len(),
        children[child_position(children, child)] == child,
{
    let at = choose|i: int| 0 <= i < children.len() && children[i] == child;
    assert(children[at] == child);
}

/// A list of one child holds nothing but that child.
pub proof fn lemma_only_child(children: Seq<NodeId>, child: NodeId)
    requires
        children.len() == 1,
        children.contains(child),
    ensures
        children[0] == child,
{
    let at = choose|i: int| 0 <= i < children.len() && children[i] == child;
    assert(children[at] == child);
}

/// The strand after `child` left the child list of its parent, the order of
/// the children that stay unchanged.
pub open spec fn disconnected(s: Slots, child: NodeId) -> Slots {
    let parent = parent_of(s, child as int)->0;
    let children = children_of(s, parent as int);
    with_parent(
        with_children(s, parent as int, children.remove(child_position(children, child))),
        child as int,
        None,
    )
}

/// The strand after `child` moved from its parent to the end of the child
/// list of `new_parent`.
pub open spec fn reparented(s: Slots, child: NodeId, new_parent: NodeId) -> Slots {
    connected(disconnected(s, child), new_parent, child)
}

/// The strand after the two children of cell `n` changed places.
pub open spec fn swapped(s: Slots, n: NodeId) -> Slots {
    with_children(s, n as int, seq![children_of(s, n as int)[1], children_of(s, n as int)[0]])
}

/// A child of a cell belongs to the subtree under that cell.
pub proof fn lemma_child_within(s: Slots, n: NodeId, k: int)
    requires
        forest(s),
        live(s, n as int),
        0 <= k < children_of(s, n as int).len(),
    ensures
        within(s, n, children_of(s, n as int)[k]),
{
    lemma_preorder_unfolds(s, n);
    lemma_walk_join(s, n, crate::forest::enough_fuel(s, n));
    lemma_member_child(s, n, crate::forest::enough_fuel(s, n), n, k);
}

/// No cell is its own parent, and no child list holds the cell it belongs to.
pub proof fn lemma_no_self_link(s: Slots, n: NodeId)
    requires
        forest(s),
        live(s, n as int),
    ensures
        parent_of(s, n as int) != Some(n),
        !children_of(s, n as int).contains(n),
{
    let (rank, bound) = choose|rank: Seq<nat>, bound: nat| ranked(s, rank, bound);
    assert(node_linked(s, n as int));
    if children_of(s, n as int).contains(n) {
        let k = choose|k: int|
            0 <= k < children_of(s, n as int).len() && children_of(s, n as int)[k] == n;
        assert(live(s, children_of(s, n as int)[k] as int));
    }
}

/// Connecting a parentless cell under a cell outside its own subtree keeps
/// the forest a forest.
pub proof fn lemma_connect_forest(s: Slots, parent: NodeId, child: NodeId)
    requires
        forest(s),
        live(s, parent as int),
        live(s, child as int),
        parent_of(s, child as int) is None,
        children_of(s, parent as int).len() < 2,
        !within(s, child, parent),
    ensures
        forest(connected(s, parent, child)),
        connected(s, parent, child).len() == s.len(),
        forall|n: int| live(connected(s, parent, child), n) <==> live(s, n),
{
    let t = connected(s, parent, child);
    let (rank, bound) = choose|rank: Seq<nat>, bound: nat| ranked(s, rank, bound);
    lemma_preorder_unfolds(s, child);
    let fuel = crate::forest::enough_fuel(s, child);
    lemma_walk_join(s, child, fuel);
    assert(parent != child);
    assert(node_linked(s, parent as int));
    assert(node_linked(s, child as int));
    lemma_no_self_link(s, parent);
    lemma_no_self_link(s, child);
    let old_children = children_of(s, parent as int);
    assert(!old_children.contains(child)) by {
        if old_children.contains(child) {
            let k = choose|k: int| 0 <= k < old_children.len() && old_children[k] == child;
            assert(live(s, old_children[k] as int));
        }
    }
    assert forall|n: int| #[trigger] live(t, n) implies node_linked(t, n) by {
        assert(live(s, n));
        assert(node_linked(s, n));
        let node = t[n]->0;
        if n == parent as int {
            assert(node.children == old_children.push(child));
            assert forall|k: int| 0 <= k < node.children.len() implies live(
                t,
                #[trigger] node.children[k] as int,
            ) && parent_of(t, node.children[k] as int) == Some(n as NodeId) by {
                if k < old_children.len() {
                    assert(live(s, old_children[k] as int));
                    assert(old_children.contains(old_children[k]));
                }
            }
            match node.parent {
                Some(p) => {
                    if p == child {
                        let pos = choose|k: int|
                            0 <= k < children_of(s, child as int).len() && children_of(
                                s,
                                child as int,
                            )[k] == parent;
                        lemma_child_within(s, child, pos);
                    }
                },
                None => {},
            }
        } else if n == child as int {
            assert forall|k: int| 0 <= k < node.children.len() implies live(
                t,
                #[trigger] node.children[k] as int,
            ) && parent_of(t, node.children[k] as int) == Some(n as NodeId) by {
                assert(live(s, children_of(s, n)[k] as int));
                lemma_child_within(s, child, k);
                assert(children_of(s, n).contains(children_of(s, n)[k]));
            }
            assert(old_children.push(child)[old_children.len() as int] == child);
        } else {
            assert forall|k: int| 0 <= k < node.children.len() implies live(
                t,
                #[trigger] node.children[k] as int,
            ) && parent_of(t, node.children[k] as int) == Some(n as NodeId) by {
                assert(live(s, children_of(s, n)[k] as int));
            }
            match node.parent {
                Some(p) => {
                    if p == parent {
                        let k = choose|k: int| 0 <= k < old_children.len() && old_children[k] == n;
                        assert(old_children.push(child)[k] == n);
                    }
                },
                None => {},
            }
        }
    }
    let lifted = Seq::new(
        s.len(),
        |i: int|
            if live(s, i) && within(s, child, i as NodeId) {
                (rank[i] + bound + 1) as nat
            } else {
                rank[i]
            },
    );
    let top = (bound + bound + 1) as nat;
    assert forall|n: int| #[trigger] live(t, n) implies lifted[n] <= top && (parent_of(t, n) matches Some(
        p,
    ) ==> lifted[p as int] < lifted[n]) by {
        assert(live(s, n));
        assert(node_linked(s, n));
        if n == child as int {
            assert(within(s, child, child));
        } else {
            match parent_of(s, n) {
                Some(p) => {
                    assert(live(s, p as int));
                    if within(s, child, n as NodeId) {
                        lemma_member_parent(s, child, fuel, n as NodeId);
                    } else if within(s, child, p) {
                        let k = choose|k: int|
                            0 <= k < children_of(s, p as int).len() && children_of(s, p as int)[k]
                                == n;
                        lemma_member_child(s, child, fuel, p, k);
                    }
                },
                None => {},
            }
        }
    }
    assert(ranked(t, lifted, top));
}

/// Taking a cell out of its parent's child list keeps the forest a forest
/// and leaves the subtree under the cell as it was.
pub proof fn lemma_disconnect_forest(s: Slots, child: NodeId)
    requires
        forest(s),
        live(s, child as int),
        parent_of(s, child as int) is Some,
    ensures
        forest(disconnected(s, child)),
        disconnected(s, child).len() == s.len(),
        forall|n: int| live(disconnected(s, child), n) <==> live(s, n),
        parent_of(disconnected(s, child), child as int) is None,
        preorder(disconnected(s, child), child) == preorder(s, child),
        forall|n: int|
            live(s, n) && n != parent_of(s, child as int)->0 ==> #[trigger] children_of(
                disconnected(s, child),
                n,
            ) == children_of(s, n),
        forall|n: int|
            live(s, n) && n != child ==> #[trigger] parent_of(disconnected(s, child), n)
                == parent_of(s, n),
        children_of(disconnected(s, child), parent_of(s, child as int)->0 as int).len()
            == children_of(s, parent_of(s, child as int)->0 as int).len() - 1,
{
    let t = disconnected(s, child);
    let (rank, bound) = choose|rank: Seq<nat>, bound: nat| ranked(s, rank, bound);
    let parent = parent_of(s, child as int)->0;
    assert(node_linked(s, child as int));
    assert(live(s, parent as int));
    assert(node_linked(s, parent as int));
    lemma_no_self_link(s, parent);
    lemma_no_self_link(s, child);
    let old_children = children_of(s, parent as int);
    let k = child_position(old_children, child);
    lemma_child_position(old_children, child);
    let new_children = old_children.remove(k);
    assert(children_of(t, parent as int) == new_children);
    assert forall|n: int| #[trigger] live(t, n) implies node_linked(t, n) by {
        assert(live(s, n));
        assert(node_linked(s, n));
        let node = t[n]->0;
        if n == parent as int {
            assert forall|i: int| 0 <= i < node.children.len() implies live(
                t,
                #[trigger] node.children[i] as int,
            ) && parent_of(t, node.children[i] as int) == Some(n as NodeId) by {
                let j = if i < k { i } else { i + 1 };
                assert(new_children[i] == old_children[j]);
                assert(live(s, old_children[j] as int));
                assert(old_children.contains(old_children[j]));
            }
        } else if n == child as int {
            assert forall|i: int| 0 <= i < node.children.len() implies live(
                t,
                #[trigger] node.children[i] as int,
            ) && parent_of(t, node.children[i] as int) == Some(n as NodeId) by {
                assert(live(s, children_of(s, n)[i] as int));
                assert(children_of(s, n).contains(children_of(s, n)[i]));
            }
        } else {
            assert forall|i: int| 0 <= i < node.children.len() implies live(
                t,
                #[trigger] node.children[i] as int,
            ) && parent_of(t, node.children[i] as int) == Some(n as NodeId) by {
                assert(live(s, children_of(s, n)[i] as int));
            }
            match node.parent {
                Some(p) => {
                    if p == parent {
                        let j = choose|j: int| 0 <= j < old_children.len() && old_children[j] == n;
                        let i = if j < k { j } else { j - 1 };
                        assert(new_children[i] == n);
                    }
                },
                None => {},
            }
        }
    }
    assert forall|n: int| #[trigger] live(t, n) implies rank[n] <= bound && (parent_of(t, n) matches Some(
        p,
    ) ==> rank[p as int] < rank[n]) by {
        assert(live(s, n));
    }
    assert(ranked(t, rank, bound));
    lemma_preorder_unfolds(s, child);
    let fuel = crate::forest::enough_fuel(s, child);
    assert forall|x: NodeId| #[trigger] walk(s, child, fuel)->0.contains(x) implies live(
        t,
        x as int,
    ) && children_of(t, x as int) == children_of(s, x as int) by {
        lemma_member_live(s, child, fuel, x);
        lemma_member_rank(s, rank, bound, child, fuel, x);
    }
    lemma_walk_same(s, t, child, fuel);
    lemma_walk_is_preorder(t, child, fuel);
}

/// Moving a cell of a tree under a cell outside its own subtree, which has
/// room for one more child, keeps the tree a tree.
pub proof fn lemma_reparent_tree(s: Slots, child: NodeId, new_parent: NodeId)
    requires
        tree(s),
        live(s, child as int),
        parent_of(s, child as int) is Some,
        live(s, new_parent as int),
        parent_of(s, child as int) != Some(new_parent),
        children_of(s, new_parent as int).len() < 2,
        !within(s, child, new_parent),
    ensures
        tree(reparented(s, child, new_parent)),
        forest(disconnected(s, child)),
        !within(disconnected(s, child), child, new_parent),
        reparented(s, child, new_parent).len() == s.len(),
        forall|n: int| live(reparented(s, child, new_parent), n) <==> live(s, n),
{
    let t = disconnected(s, child);
    lemma_disconnect_forest(s, child);
    lemma_connect_forest(t, new_parent, child);
    let u = connected(t, new_parent, child);
    assert forall|n: int| #[trigger] live(u, n) implies (parent_of(u, n) is None <==> n == 0) by {
        assert(live(s, n));
    }
}

/// Exchanging the two children of a cell keeps a forest a forest and a tree
/// a tree.
pub proof fn lemma_swap_forest(s: Slots, n: NodeId)
    requires
        forest(s),
        live(s, n as int),
        children_of(s, n as int).len() == 2,
    ensures
        forest(swapped(s, n)),
        rooted(s) ==> rooted(swapped(s, n)),
        swapped(s, n).len() == s.len(),
        forall|x: int| live(swapped(s, n), x) <==> live(s, x),
{
    let t = swapped(s, n);
    let (rank, bound) = choose|rank: Seq<nat>, bound: nat| ranked(s, rank, bound);
    let old_children = children_of(s, n as int);
    let new_children = children_of(t, n as int);
    assert(node_linked(s, n as int));
    lemma_no_self_link(s, n);
    assert(old_children.contains(old_children[0]));
    assert(old_children.contains(old_children[1]));
    assert forall|x: int| #[trigger] live(t, x) implies node_linked(t, x) by {
        assert(live(s, x));
        assert(node_linked(s, x));
        let node = t[x]->0;
        if x == n as int {
            assert forall|i: int| 0 <= i < node.children.len() implies live(
                t,
                #[trigger] node.children[i] as int,
            ) && parent_of(t, node.children[i] as int) == Some(x as NodeId) by {
                assert(new_children[i] == old_children[1 - i]);
                assert(live(s, old_children[1 - i] as int));
            }
        } else {
            assert forall|i: int| 0 <= i < node.children.len() implies live(
                t,
                #[trigger] node.children[i] as int,
            ) && parent_of(t, node.children[i] as int) == Some(x as NodeId) by {
                assert(live(s, children_of(s, x)[i] as int));
            }
            match node.parent {
                Some(p) => {
                    if p == n {
                        let j = choose|j: int| 0 <= j < old_children.len() && old_children[j] == x;
                        assert(new_children[1 - j] == x);
                    }
                },
                None => {},
            }
        }
    }
    assert forall|x: int| #[trigger] live(t, x) implies rank[x] <= bound && (parent_of(t, x) matches Some(
        p,
    ) ==> rank[p as int] < rank[x]) by {
        assert(live(s, x));
    }
    assert(ranked(t, rank, bound));
    if rooted(s) {
        assert forall|x: int| #[trigger] live(t, x) implies (parent_of(t, x) is None <==> x == 0) by {
            assert(live(s, x));
        }
    }
}

} // verus!
