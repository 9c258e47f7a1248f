//! The mathematical model of a strand: a sequence of slots, each vacant or
//! holding a cell with its kind, its parent and its ordered children; what it
//! means for such a sequence to be a forest or a tree; and the order in which
//! a left-to-right depth-first walk meets the cells.
use vstd::prelude::*;

verus! {

/// A handle: the index of a slot.
pub type NodeId = u8;

/// A parent and one of its children.
pub type Edge = (NodeId, NodeId);

/// What a cell does when its turn to mutate comes.
#[derive(Clone, Copy, Debug, PartialEq, Eq, Hash, Structural)]
pub enum CellKind {
    Normal,
    Doubler,
    Extender,
    Eraser,
}

impl Default for CellKind {
    fn default() -> (kind: Self)
        ensures
            kind == CellKind::Normal,
    {
        CellKind::Normal
    }
}

/// A cell as the contracts see it.
pub struct NodeView {
    pub kind: CellKind,
    pub parent: Option<NodeId>,
    pub children: Seq<NodeId>,
}

/// A strand as the contracts see it: slot `n` is `None` when vacant.
pub type Slots = Seq<Option<NodeView>>;

/// Slot `n` exists and holds a cell.
pub open spec fn live(s: Slots, n: int) -> bool {
    0 <= n < s.len() && s[n] is Some
}

/// The children of cell `n`, first child first.
pub open spec fn children_of(s: Slots, n: int) -> Seq<NodeId> {
    s[n]->0.children
}

/// The parent of cell `n`, if it has one.
pub open spec fn parent_of(s: Slots, n: int) -> Option<NodeId> {
    s[n]->0.parent
}

/// The kind of cell `n`.
pub open spec fn kind_of(s: Slots, n: int) -> CellKind {
    s[n]->0.kind
}

/// The links of cell `n` are sound: at most two children, no child twice,
/// every child a cell that names `n` as its parent, and the parent, if there
/// is one, a cell that lists `n` among its children.
pub open spec fn node_linked(s: Slots, n: int) -> bool {
    let node = s[n]->0;
    &&& node.children.len() <= 2
    &&& node.children.no_duplicates()
    &&& forall|k: int|
        0 <= k < node.children.len() ==> live(s, #[trigger] node.children[k] as int) && parent_of(
            s,
            node.children[k] as int,
        ) == Some(n as NodeId)
    &&& match node.parent {
        Some(p) => live(s, p as int) && children_of(s, p as int).contains(n as NodeId),
        None => true,
    }
}

/// Every handle fits a `NodeId` and the links of every cell are sound.
pub open spec fn linked(s: Slots) -> bool {
    &&& s.len() <= 256
    &&& forall|n: int| #[trigger] live(s, n) ==> node_linked(s, n)
}

/// `rank` grows strictly from every parent to its children and stays within
/// `bound`: a witness that following parent links never comes back.
pub open spec fn ranked(s: Slots, rank: Seq<nat>, bound: nat) -> bool {
    &&& rank.len() == s.len()
    &&& forall|n: int| #[trigger]
        live(s, n) ==> rank[n] <= bound && (parent_of(s, n) matches Some(p) ==> rank[p as int]
            < rank[n])
}

/// Sound links and no cycle.
pub open spec fn forest(s: Slots) -> bool {
    linked(s) && exists|rank: Seq<nat>, bound: nat| ranked(s, rank, bound)
}

/// Cell 0 is there, and it is the one cell without a parent.
pub open spec fn rooted(s: Slots) -> bool {
    &&& live(s, 0)
    &&& forall|n: int| #[trigger] live(s, n) ==> (parent_of(s, n) is None <==> n == 0)
}

/// The invariants of a strand at rest: a forest with the single root 0.
pub open spec fn tree(s: Slots) -> bool {
    forest(s) && rooted(s)
}

/// The cells met by a depth-first walk from `n` that visits a cell before its
/// children and the first child before the second. `None` when the walk would
/// go deeper than `fuel` cells, or meets a vacant slot.
pub open spec fn walk(s: Slots, n: NodeId, fuel: nat) -> Option<Seq<NodeId>>
    decreases fuel,
{
    if fuel == 0 || !live(s, n as int) {
        None
    } else {
        let c = children_of(s, n as int);
        if c.len() == 0 {
            Some(seq![n])
        } else if c.len() == 1 {
            match walk(s, c[0], (fuel - 1) as nat) {
                Some(first) => Some(seq![n] + first),
                None => None,
            }
        } else {
            match (walk(s, c[0], (fuel - 1) as nat), walk(s, c[1], (fuel - 1) as nat)) {
                (Some(first), Some(second)) => Some(seq![n] + first + second),
                _ => None,
            }
        }
    }
}

/// A depth that the walk from `n` does not exceed.
pub open spec fn enough_fuel(s: Slots, n: NodeId) -> nat {
    choose|fuel: nat| walk(s, n, fuel) is Some
}

/// The cells of the subtree under `n`, `n` first, in left-to-right
/// depth-first order.
pub open spec fn preorder(s: Slots, n: NodeId) -> Seq<NodeId> {
    walk(s, n, enough_fuel(s, n))->0
}

/// Cell `x` belongs to the subtree under `n`.
pub open spec fn within(s: Slots, n: NodeId, x: NodeId) -> bool {
    preorder(s, n).contains(x)
}

/// More fuel does not change a walk that had enough.
pub proof fn lemma_walk_more_fuel(s: Slots, n: NodeId, fuel: nat, more: nat)
    requires
        walk(s, n, fuel) is Some,
        fuel <= more,
    ensures
        walk(s, n, more) == walk(s, n, fuel),
    decreases fuel,
{
    let c = children_of(s, n as int);
    if c.len() >= 1 {
        lemma_walk_more_fuel(s, c[0], (fuel - 1) as nat, (more - 1) as nat);
    }
    if c.len() >= 2 {
        lemma_walk_more_fuel(s, c[1], (fuel - 1) as nat, (more - 1) as nat);
    }
}

/// Any walk that had enough fuel is the preorder.
pub proof fn lemma_walk_is_preorder(s: Slots, n: NodeId, fuel: nat)
    requires
        walk(s, n, fuel) is Some,
    ensures
        walk(s, n, fuel) == Some(preorder(s, n)),
        walk(s, n, enough_fuel(s, n)) is Some,
{
    let chosen = enough_fuel(s, n);
    if chosen <= fuel {
        lemma_walk_more_fuel(s, n, chosen, fuel);
    } else {
        lemma_walk_more_fuel(s, n, fuel, chosen);
    }
}

/// In a ranked strand the walk from a cell ends: its depth is bounded by the
/// ranks that are left below the bound.
pub proof fn lemma_walk_ends(s: Slots, rank: Seq<nat>, bound: nat, n: NodeId)
    requires
        linked(s),
        ranked(s, rank, bound),
        live(s, n as int),
    ensures
        walk(s, n, (bound - rank[n as int] + 1) as nat) is Some,
    decreases bound - rank[n as int],
{
    let c = children_of(s, n as int);
    assert(node_linked(s, n as int));
    let fuel = (bound - rank[n as int] + 1) as nat;
    if c.len() >= 1 {
        assert(live(s, c[0] as int));
        lemma_walk_ends(s, rank, bound, c[0]);
        lemma_walk_more_fuel(s, c[0], (bound - rank[c[0] as int] + 1) as nat, (fuel - 1) as nat);
    }
    if c.len() >= 2 {
        assert(live(s, c[1] as int));
        lemma_walk_ends(s, rank, bound, c[1]);
        lemma_walk_more_fuel(s, c[1], (bound - rank[c[1] as int] + 1) as nat, (fuel - 1) as nat);
    }
}

/// The preorder of a cell in a forest: the cell, then the subtree of its
/// first child, then that of its second.
pub proof fn lemma_preorder_unfolds(s: Slots, n: NodeId)
    requires
        forest(s),
        live(s, n as int),
    ensures
        walk(s, n, enough_fuel(s, n)) is Some,
        children_of(s, n as int).len() == 0 ==> preorder(s, n) == seq![n],
        children_of(s, n as int).len() == 1 ==> preorder(s, n) == seq![n] + preorder(
            s,
            children_of(s, n as int)[0],
        ),
        children_of(s, n as int).len() == 2 ==> preorder(s, n) == seq![n] + preorder(
            s,
            children_of(s, n as int)[0],
        ) + preorder(s, children_of(s, n as int)[1]),
        preorder(s, n).len() >= 1,
        preorder(s, n)[0] == n,
{
    let (rank, bound) = choose|rank: Seq<nat>, bound: nat| ranked(s, rank, bound);
    lemma_walk_ends(s, rank, bound, n);
    let fuel = (bound - rank[n as int] + 1) as nat;
    lemma_walk_is_preorder(s, n, fuel);
    let c = children_of(s, n as int);
    assert(node_linked(s, n as int));
    if c.len() >= 1 {
        lemma_walk_is_preorder(s, c[0], (fuel - 1) as nat);
    }
    if c.len() >= 2 {
        lemma_walk_is_preorder(s, c[1], (fuel - 1) as nat);
    }
}

/// A member of a walk is its start or a member of the walk from a child.
pub proof fn lemma_walk_split(s: Slots, n: NodeId, fuel: nat, x: NodeId)
    requires
        walk(s, n, fuel) is Some,
        walk(s, n, fuel)->0.contains(x),
    ensures
        fuel > 0,
        live(s, n as int),
        x == n || (children_of(s, n as int).len() >= 1 && walk(
            s,
            children_of(s, n as int)[0],
            (fuel - 1) as nat,
        ) is Some && walk(s, children_of(s, n as int)[0], (fuel - 1) as nat)->0.contains(x)) || (
        children_of(s, n as int).len() >= 2 && walk(
            s,
            children_of(s, n as int)[1],
            (fuel - 1) as nat,
        ) is Some && walk(s, children_of(s, n as int)[1], (fuel - 1) as nat)->0.contains(x)),
{
    broadcast use vstd::seq_lib::lemma_seq_concat_contains_all_elements;

    let c = children_of(s, n as int);
    if c.len() == 0 {
        assert(seq![n][0] == n);
    } else if c.len() == 1 {
        assert(seq![n][0] == n);
    } else {
        assert(seq![n][0] == n);
    }
}

/// The start of a walk and the members of the walks from its first two
/// children are members of the walk.
pub proof fn lemma_walk_join(s: Slots, n: NodeId, fuel: nat)
    requires
        walk(s, n, fuel) is Some,
    ensures
        walk(s, n, fuel)->0.contains(n),
        walk(s, n, fuel)->0.len() >= 1,
        walk(s, n, fuel)->0[0] == n,
        children_of(s, n as int).len() >= 1 ==> walk(s, children_of(s, n as int)[0], (fuel - 1) as nat)
            is Some && forall|x: NodeId| #[trigger]
            walk(s, children_of(s, n as int)[0], (fuel - 1) as nat)->0.contains(x) ==> walk(
                s,
                n,
                fuel,
            )->0.contains(x),
        children_of(s, n as int).len() >= 2 ==> walk(s, children_of(s, n as int)[1], (fuel - 1) as nat)
            is Some && forall|x: NodeId| #[trigger]
            walk(s, children_of(s, n as int)[1], (fuel - 1) as nat)->0.contains(x) ==> walk(
                s,
                n,
                fuel,
            )->0.contains(x),
{
    broadcast use vstd::seq_lib::lemma_seq_concat_contains_all_elements;

    assert(seq![n][0] == n);
    assert(seq![n].contains(n));
}

/// Every member of a walk is a cell.
pub proof fn lemma_member_live(s: Slots, n: NodeId, fuel: nat, x: NodeId)
    requires
        walk(s, n, fuel) is Some,
        walk(s, n, fuel)->0.contains(x),
    ensures
        live(s, x as int),
    decreases fuel,
{
    lemma_walk_split(s, n, fuel, x);
    let c = children_of(s, n as int);
    if x == n {
    } else if c.len() >= 1 && walk(s, c[0], (fuel - 1) as nat) is Some && walk(
        s,
        c[0],
        (fuel - 1) as nat,
    )->0.contains(x) {
        lemma_member_live(s, c[0], (fuel - 1) as nat, x);
    } else {
        lemma_member_live(s, c[1], (fuel - 1) as nat, x);
    }
}

/// The children of a member of a walk are members too.
pub proof fn lemma_member_child(s: Slots, n: NodeId, fuel: nat, x: NodeId, k: int)
    requires
        linked(s),
        walk(s, n, fuel) is Some,
        walk(s, n, fuel)->0.contains(x),
        0 <= k < children_of(s, x as int).len(),
    ensures
        walk(s, n, fuel)->0.contains(children_of(s, x as int)[k]),
    decreases fuel,
{
    lemma_walk_split(s, n, fuel, x);
    lemma_walk_join(s, n, fuel);
    let c = children_of(s, n as int);
    assert(node_linked(s, n as int));
    if x == n {
        lemma_walk_join(s, c[k], (fuel - 1) as nat);
    } else if c.len() >= 1 && walk(s, c[0], (fuel - 1) as nat) is Some && walk(
        s,
        c[0],
        (fuel - 1) as nat,
    )->0.contains(x) {
        lemma_member_child(s, c[0], (fuel - 1) as nat, x, k);
    } else {
        lemma_member_child(s, c[1], (fuel - 1) as nat, x, k);
    }
}

/// A member of a walk other than its start has its parent in the walk.
pub proof fn lemma_member_parent(s: Slots, n: NodeId, fuel: nat, x: NodeId)
    requires
        linked(s),
        walk(s, n, fuel) is Some,
        walk(s, n, fuel)->0.contains(x),
        x != n,
    ensures
        parent_of(s, x as int) is Some,
        walk(s, n, fuel)->0.contains(parent_of(s, x as int)->0),
    decreases fuel,
{
    lemma_walk_split(s, n, fuel, x);
    lemma_walk_join(s, n, fuel);
    let c = children_of(s, n as int);
    assert(node_linked(s, n as int));
    if c.len() >= 1 && walk(s, c[0], (fuel - 1) as nat) is Some && walk(
        s,
        c[0],
        (fuel - 1) as nat,
    )->0.contains(x) {
        if x != c[0] {
            lemma_member_parent(s, c[0], (fuel - 1) as nat, x);
        } else {
            assert(live(s, c[0] as int));
        }
    } else {
        if x != c[1] {
            lemma_member_parent(s, c[1], (fuel - 1) as nat, x);
        } else {
            assert(live(s, c[1] as int));
        }
    }
}

/// No member of a walk ranks below its start, and only the start ranks as low.
pub proof fn lemma_member_rank(s: Slots, rank: Seq<nat>, bound: nat, n: NodeId, fuel: nat, x: NodeId)
    requires
        linked(s),
        ranked(s, rank, bound),
        walk(s, n, fuel) is Some,
        walk(s, n, fuel)->0.contains(x),
    ensures
        rank[n as int] <= rank[x as int],
        x != n ==> rank[n as int] < rank[x as int],
    decreases fuel,
{
    lemma_walk_split(s, n, fuel, x);
    let c = children_of(s, n as int);
    assert(node_linked(s, n as int));
    if x == n {
    } else if c.len() >= 1 && walk(s, c[0], (fuel - 1) as nat) is Some && walk(
        s,
        c[0],
        (fuel - 1) as nat,
    )->0.contains(x) {
        assert(live(s, c[0] as int));
        lemma_member_rank(s, rank, bound, c[0], (fuel - 1) as nat, x);
    } else {
        assert(live(s, c[1] as int));
        lemma_member_rank(s, rank, bound, c[1], (fuel - 1) as nat, x);
    }
}

/// Two walks that share a member are nested: the start of one is a member of
/// the other.
pub proof fn lemma_common_member(
    s: Slots,
    rank: Seq<nat>,
    bound: nat,
    a: NodeId,
    fuel_a: nat,
    b: NodeId,
    fuel_b: nat,
    x: NodeId,
)
    requires
        linked(s),
        ranked(s, rank, bound),
        walk(s, a, fuel_a) is Some,
        walk(s, b, fuel_b) is Some,
        walk(s, a, fuel_a)->0.contains(x),
        walk(s, b, fuel_b)->0.contains(x),
    ensures
        walk(s, a, fuel_a)->0.contains(b) || walk(s, b, fuel_b)->0.contains(a),
    decreases rank[x as int],
{
    if x == a || x == b {
    } else {
        lemma_member_parent(s, a, fuel_a, x);
        lemma_member_parent(s, b, fuel_b, x);
        lemma_member_live(s, a, fuel_a, x);
        lemma_common_member(s, rank, bound, a, fuel_a, b, fuel_b, parent_of(s, x as int)->0);
    }
}

/// A walk in a forest meets no cell twice.
pub proof fn lemma_walk_no_duplicates(s: Slots, rank: Seq<nat>, bound: nat, n: NodeId, fuel: nat)
    requires
        linked(s),
        ranked(s, rank, bound),
        walk(s, n, fuel) is Some,
    ensures
        walk(s, n, fuel)->0.no_duplicates(),
    decreases fuel,
{
    let c = children_of(s, n as int);
    assert(node_linked(s, n as int));
    if c.len() == 0 {
    } else {
        let below = (fuel - 1) as nat;
        let first = walk(s, c[0], below)->0;
        lemma_walk_no_duplicates(s, rank, bound, c[0], below);
        assert forall|i: int| 0 <= i < first.len() implies first[i] != n by {
            assert(first.contains(first[i]));
            assert(live(s, c[0] as int));
            lemma_member_rank(s, rank, bound, c[0], below, first[i]);
        }
        vstd::seq_lib::lemma_no_dup_in_concat(seq![n], first);
        if c.len() == 2 {
            let second = walk(s, c[1], below)->0;
            lemma_walk_no_duplicates(s, rank, bound, c[1], below);
            assert(live(s, c[1] as int));
            assert forall|i: int, j: int|
                0 <= i < (seq![n] + first).len() && 0 <= j < second.len() implies (seq![n]
                + first)[i] != second[j] by {
                let x = second[j];
                assert(second.contains(x));
                lemma_member_rank(s, rank, bound, c[1], below, x);
                if i >= 1 {
                    assert(first[i - 1] == (seq![n] + first)[i]);
                    if first[i - 1] == x {
                        assert(first.contains(x));
                        lemma_common_member(s, rank, bound, c[0], below, c[1], below, x);
                        if first.contains(c[1]) {
                            lemma_member_parent(s, c[0], below, c[1]);
                            lemma_member_rank(s, rank, bound, c[0], below, n);
                        } else {
                            lemma_member_parent(s, c[1], below, c[0]);
                            lemma_member_rank(s, rank, bound, c[1], below, n);
                        }
                    }
                }
            }
            vstd::seq_lib::lemma_no_dup_in_concat(seq![n] + first, second);
        }
    }
}

/// A walk reads only the children of the cells it meets: where a second
/// strand has the same cells with the same children there, the walk is the
/// same.
pub proof fn lemma_walk_same(s: Slots, t: Slots, n: NodeId, fuel: nat)
    requires
        walk(s, n, fuel) is Some,
        forall|x: NodeId| #[trigger]
            walk(s, n, fuel)->0.contains(x) ==> live(t, x as int) && children_of(t, x as int)
                == children_of(s, x as int),
    ensures
        walk(t, n, fuel) == walk(s, n, fuel),
    decreases fuel,
{
    lemma_walk_join(s, n, fuel);
    let c = children_of(s, n as int);
    if c.len() >= 1 {
        lemma_walk_same(s, t, c[0], (fuel - 1) as nat);
    }
    if c.len() >= 2 {
        lemma_walk_same(s, t, c[1], (fuel - 1) as nat);
    }
}

} // verus!
