//! Making a strand from a number of cells, the edges between them and the
//! kinds of its special cells.
use crate::children::positionOf;
use crate::edits::{connected, lemma_connect_forest, with_kind};
use crate::forest::{
    children_of, forest, live, node_linked, parent_of, ranked, rooted, tree, within, CellKind,
    Edge, NodeId, NodeView, Slots,
};
use crate::strand::{
    cellAt, connectParentToChild, growCell, isLive, lemma_slots_len, setKind, slots, Node, Strand,
};
use crate::traversal::{neighborRows, walkRows};
use vstd::prelude::*;

verus! {

/// `count` Normal cells without links.
pub open spec fn blank(count: nat) -> Slots {
    Seq::new(
        count,
        |i: int| Some(NodeView { kind: CellKind::Normal, parent: None, children: Seq::empty() }),
    )
}

/// The edge can be added: both ends are cells, the child has no parent yet,
/// the parent has room for a child, and the parent is not in the subtree
/// under the child.
pub open spec fn edge_fits(s: Slots, edge: Edge) -> bool {
    &&& live(s, edge.0 as int)
    &&& live(s, edge.1 as int)
    &&& parent_of(s, edge.1 as int) is None
    &&& children_of(s, edge.0 as int).len() < 2
    &&& !within(s, edge.1, edge.0)
}

/// The edges can be added one after the other.
pub open spec fn edges_fit(s: Slots, edges: Seq<Edge>) -> bool
    decreases edges.len(),
{
    edges.len() == 0 || (edge_fits(s, edges[0]) && edges_fit(
        connected(s, edges[0].0, edges[0].1),
        edges.drop_first(),
    ))
}

/// The strand after the edges were added one after the other.
pub open spec fn with_edges(s: Slots, edges: Seq<Edge>) -> Slots
    decreases edges.len(),
{
    if edges.len() == 0 {
        s
    } else {
        with_edges(connected(s, edges[0].0, edges[0].1), edges.drop_first())
    }
}

/// Every handle of the list names a cell.
pub open spec fn kinds_fit(s: Slots, mutables: Seq<(NodeId, CellKind)>) -> bool {
    forall|i: int| 0 <= i < mutables.len() ==> live(s, (#[trigger] mutables[i]).0 as int)
}

/// The strand after the cells of the list got the kinds listed with them,
/// one after the other.
pub open spec fn with_kinds(s: Slots, mutables: Seq<(NodeId, CellKind)>) -> Slots
    decreases mutables.len(),
{
    if mutables.len() == 0 {
        s
    } else {
        with_kinds(with_kind(s, mutables[0].0 as int, mutables[0].1), mutables.drop_first())
    }
}

/// The description gives a strand: between 1 and 256 cells, edges that can be
/// added one after the other and leave cell 0 as the only cell without a
/// parent, and kinds for cells that exist.
pub open spec fn builds_tree(count: nat, edges: Seq<Edge>, mutables: Seq<(NodeId, CellKind)>) -> bool {
    &&& 1 <= count <= 256
    &&& edges_fit(blank(count), edges)
    &&& rooted(with_edges(blank(count), edges))
    &&& kinds_fit(blank(count), mutables)
}

/// The strand that the description gives.
pub open spec fn built(count: nat, edges: Seq<Edge>, mutables: Seq<(NodeId, CellKind)>) -> Slots {
    with_kinds(with_edges(blank(count), edges), mutables)
}

/// Cells without links are a forest.
pub proof fn lemma_blank_forest(count: nat)
    requires
        count <= 256,
    ensures
        forest(blank(count)),
{
    let s = blank(count);
    let rank = Seq::new(count, |i: int| 0nat);
    assert(ranked(s, rank, 0));
}

/// A change of kind leaves the links as they are.
pub proof fn lemma_with_kind_tree(s: Slots, n: NodeId, kind: CellKind)
    requires
        forest(s),
        live(s, n as int),
    ensures
        forest(with_kind(s, n as int, kind)),
        rooted(s) ==> rooted(with_kind(s, n as int, kind)),
        with_kind(s, n as int, kind).len() == s.len(),
        forall|i: int| live(with_kind(s, n as int, kind), i) <==> live(s, i),
{
    let t = with_kind(s, n as int, kind);
    let (rank, bound) = choose|rank: Seq<nat>, bound: nat| ranked(s, rank, bound);
    assert forall|i: int| #[trigger] live(t, i) implies node_linked(t, i) by {
        assert(live(s, i));
        assert(node_linked(s, i));
        let node = t[i]->0;
        assert forall|k: int| 0 <= k < node.children.len() implies live(
            t,
            #[trigger] node.children[k] as int,
        ) && parent_of(t, node.children[k] as int) == Some(i as NodeId) by {
            assert(live(s, children_of(s, i)[k] as int));
        }
        match node.parent {
            Some(p) => {
                assert(live(s, p as int));
            },
            None => {},
        }
    }
    assert forall|i: int| #[trigger] live(t, i) implies rank[i] <= bound && (parent_of(t, i) matches Some(
        p,
    ) ==> rank[p as int] < rank[i]) by {
        assert(live(s, i));
    }
    assert(ranked(t, rank, bound));
    if rooted(s) {
        assert forall|i: int| #[trigger] live(t, i) implies (parent_of(t, i) is None <==> i == 0) by {
            assert(live(s, i));
        }
    }
}

/// Whether cell 0 is the only cell without a parent, where every slot holds
/// a cell.
fn isRooted(cells: &Vec<Option<Node>>) -> (yes: bool)
    requires
        1 <= cells.len() <= 256,
        forall|i: int| 0 <= i < cells.len() ==> live(slots(cells@), i),
    ensures
        yes == rooted(slots(cells@)),
{
    let ghost s = slots(cells@);
    proof {
        lemma_slots_len(cells@);
    }
    let mut index: usize = 0;
    while index < cells.len()
        invariant
            index <= cells.len(),
            cells.len() <= 256,
            s == slots(cells@),
            s.len() == cells.len(),
            forall|i: int| 0 <= i < cells.len() ==> live(s, i),
            forall|i: int| 0 <= i < index ==> (parent_of(s, i) is None <==> i == 0),
        decreases cells.len() - index,
    {
        let orphan: bool = cellAt(cells, index as NodeId).parent().is_none();
        if orphan != (index == 0) {
            assert(live(s, index as int));
            return false;
        }
        index += 1;
    }
    true
}

/// The cells that the description gives, or nothing where it gives no
/// strand.
pub(crate) fn assemble(nodeCount: usize, edges: &[Edge], mutables: &[(NodeId, CellKind)]) -> (cells:
    Option<Vec<Option<Node>>>)
    ensures
        match cells {
            Some(cells) => builds_tree(nodeCount as nat, edges@, mutables@) && slots(cells@)
                == built(nodeCount as nat, edges@, mutables@) && tree(slots(cells@)),
            None => !builds_tree(nodeCount as nat, edges@, mutables@),
        },
{
    if nodeCount == 0 || nodeCount > 256 {
        return None;
    }
    let ghost start = blank(nodeCount as nat);
    let mut cells: Vec<Option<Node>> = Vec::new();
    let mut made: usize = 0;
    proof {
        lemma_slots_len(cells@);
    }
    assert(slots(cells@) =~= blank(0));
    while made < nodeCount
        invariant
            made <= nodeCount,
            slots(cells@) == blank(made as nat),
        decreases nodeCount - made,
    {
        growCell(&mut cells, Node::default());
        made += 1;
        assert(slots(cells@) =~= blank(made as nat));
    }
    proof {
        lemma_blank_forest(nodeCount as nat);
    }
    let mut index: usize = 0;
    assert(edges@.skip(0) =~= edges@);
    while index < edges.len()
        invariant
            index <= edges.len(),
            start == blank(nodeCount as nat),
            1 <= nodeCount <= 256,
            forest(slots(cells@)),
            slots(cells@).len() == nodeCount,
            forall|i: int| 0 <= i < nodeCount ==> live(slots(cells@), i),
            edges_fit(start, edges@) == edges_fit(slots(cells@), edges@.skip(index as int)),
            with_edges(start, edges@) == with_edges(slots(cells@), edges@.skip(index as int)),
        decreases edges.len() - index,
    {
        let ghost now = slots(cells@);
        let ghost rest = edges@.skip(index as int);
        let parentId: NodeId = edges[index].0;
        let childId: NodeId = edges[index].1;
        proof {
            assert(rest[0] == edges[index as int]);
            assert(rest.drop_first() =~= edges@.skip(index + 1));
            lemma_slots_len(cells@);
        }
        if !isLive(&cells, parentId) || !isLive(&cells, childId) {
            assert(!edges_fit(now, rest));
            return None;
        }
        if cellAt(&cells, childId).parent().is_some() || cellAt(&cells, parentId).children().len()
            >= 2 {
            assert(!edges_fit(now, rest));
            return None;
        }
        let rows = neighborRows(&cells);
        let below = walkRows(&rows, childId, Ghost(now));
        if positionOf(below.as_slice(), parentId).is_some() {
            assert(below@.contains(parentId));
            assert(!edges_fit(now, rest));
            return None;
        }
        proof {
            lemma_connect_forest(now, parentId, childId);
            assert(edges_fit(now, rest) == edges_fit(
                connected(now, parentId, childId),
                rest.drop_first(),
            ));
            assert(with_edges(now, rest) == with_edges(
                connected(now, parentId, childId),
                rest.drop_first(),
            ));
        }
        connectParentToChild(&mut cells, parentId, childId);
        assert forall|i: int| 0 <= i < nodeCount implies live(slots(cells@), i) by {
            assert(live(now, i));
        }
        index += 1;
    }
    proof {
        lemma_slots_len(cells@);
    }
    if !isRooted(&cells) {
        return None;
    }
    let ghost linked_up = slots(cells@);
    let mut index: usize = 0;
    assert(mutables@.skip(0) =~= mutables@);
    while index < mutables.len()
        invariant
            index <= mutables.len(),
            start == blank(nodeCount as nat),
            1 <= nodeCount <= 256,
            tree(slots(cells@)),
            linked_up == with_edges(start, edges@),
            slots(cells@).len() == nodeCount,
            forall|i: int| 0 <= i < nodeCount ==> live(slots(cells@), i),
            forall|i: int| 0 <= i < index ==> live(start, (#[trigger] mutables@[i]).0 as int),
            with_kinds(linked_up, mutables@) == with_kinds(
                slots(cells@),
                mutables@.skip(index as int),
            ),
        decreases mutables.len() - index,
    {
        let ghost now = slots(cells@);
        let ghost rest = mutables@.skip(index as int);
        let nodeId: NodeId = mutables[index].0;
        let cellKind: CellKind = mutables[index].1;
        proof {
            assert(rest[0] == mutables[index as int]);
            assert(rest.drop_first() =~= mutables@.skip(index + 1));
            lemma_slots_len(cells@);
        }
        if !isLive(&cells, nodeId) {
            assert(!live(start, mutables@[index as int].0 as int));
            return None;
        }
        proof {
            lemma_with_kind_tree(now, nodeId, cellKind);
            assert(with_kinds(now, rest) == with_kinds(
                with_kind(now, nodeId as int, cellKind),
                rest.drop_first(),
            ));
        }
        setKind(&mut cells, nodeId, cellKind);
        assert forall|i: int| 0 <= i < nodeCount implies live(slots(cells@), i) by {
            assert(live(now, i));
        }
        index += 1;
    }
    Some(cells)
}

impl Strand {
    /// The strand of `nodeCount` cells with the edges of `edges`, each from a
    /// parent to a child and added in the order of the list, and with the
    /// kinds of `mutables`; every cell that `mutables` does not name is
    /// Normal.
    pub fn new(nodeCount: usize, edges: &[Edge], mutables: &[(NodeId, CellKind)]) -> (strand: Self)
        requires
            builds_tree(nodeCount as nat, edges@, mutables@),
        ensures
            strand@ == built(nodeCount as nat, edges@, mutables@),
            strand.wf(),
    {
        match assemble(nodeCount, edges, mutables) {
            Some(cells) => Strand::fromCells(cells),
            None => vstd::pervasive::unreached(),
        }
    }

    /// The strand that `new` makes, or nothing where the description gives
    /// no strand.
    pub fn tryNew(nodeCount: usize, edges: &[Edge], mutables: &[(NodeId, CellKind)]) -> (strand:
        Option<Self>)
        ensures
            match strand {
                Some(strand) => builds_tree(nodeCount as nat, edges@, mutables@) && strand@
                    == built(nodeCount as nat, edges@, mutables@) && strand.wf(),
                None => !builds_tree(nodeCount as nat, edges@, mutables@),
            },
    {
        match assemble(nodeCount, edges, mutables) {
            Some(cells) => Some(Strand::fromCells(cells)),
            None => None,
        }
    }
}

} // verus!
