//! The strand: a vector of slots, each vacant or holding one cell.
use crate::children::{
    childSlice, child_list, cloneChildren, emptyChildren, positionOf, pushChild, removeChild,
    swapChildPair,
};
use crate::convert::toIndex;
use crate::edits::{
    connected, disconnected, lemma_reparent_tree, lemma_swap_forest, reparented, swapped,
    with_kind,
};
use crate::forest::{
    children_of, kind_of, live, node_linked, parent_of, preorder, tree, within, CellKind, Edge,
    NodeId, NodeView, Slots,
};
use crate::traversal::{neighborRows, walkRows};
use arrayvec::ArrayVec;
use vstd::prelude::*;

verus! {

/// One cell: its kind, its parent and its children in order.
#[derive(Debug)]
pub struct Node {
    cellKind: CellKind,
    parentIdOpt: Option<NodeId>,
    childrenIds: ArrayVec<NodeId, 2>,
}

impl View for Node {
    type V = NodeView;

    closed spec fn view(&self) -> NodeView {
        NodeView {
            kind: self.cellKind,
            parent: self.parentIdOpt,
            children: child_list(self.childrenIds),
        }
    }
}

impl Default for Node {
    fn default() -> (node: Self)
        ensures
            node@ == (NodeView { kind: CellKind::Normal, parent: None, children: Seq::empty() }),
    {
        Node { cellKind: CellKind::Normal, parentIdOpt: None, childrenIds: emptyChildren() }
    }
}

impl Clone for Node {
    fn clone(&self) -> (copy: Self)
        ensures
            copy@ == self@,
    {
        Node {
            cellKind: self.cellKind,
            parentIdOpt: self.parentIdOpt,
            childrenIds: cloneChildren(&self.childrenIds),
        }
    }
}

impl Node {
    pub(crate) fn kind(&self) -> (kind: CellKind)
        ensures
            kind == self@.kind,
    {
        self.cellKind
    }

    pub(crate) fn parent(&self) -> (parent: Option<NodeId>)
        ensures
            parent == self@.parent,
    {
        self.parentIdOpt
    }

    pub(crate) fn children(&self) -> (children: &[NodeId])
        ensures
            children@ == self@.children,
    {
        childSlice(&self.childrenIds)
    }

    pub(crate) fn withKind(&self, kind: CellKind) -> (node: Self)
        ensures
            node@ == (NodeView { kind, ..self@ }),
    {
        Node {
            cellKind: kind,
            parentIdOpt: self.parentIdOpt,
            childrenIds: cloneChildren(&self.childrenIds),
        }
    }

    pub(crate) fn withParent(&self, parent: Option<NodeId>) -> (node: Self)
        ensures
            node@ == (NodeView { parent, ..self@ }),
    {
        Node {
            cellKind: self.cellKind,
            parentIdOpt: parent,
            childrenIds: cloneChildren(&self.childrenIds),
        }
    }

    pub(crate) fn withChild(&self, child: NodeId) -> (node: Self)
        requires
            self@.children.len() < 2,
        ensures
            node@ == (NodeView { children: self@.children.push(child), ..self@ }),
    {
        let mut children = cloneChildren(&self.childrenIds);
        pushChild(&mut children, child);
        Node { cellKind: self.cellKind, parentIdOpt: self.parentIdOpt, childrenIds: children }
    }

    pub(crate) fn withoutChildAt(&self, index: usize) -> (node: Self)
        requires
            index < self@.children.len(),
        ensures
            node@ == (NodeView { children: self@.children.remove(index as int), ..self@ }),
    {
        let mut children = cloneChildren(&self.childrenIds);
        let _ = removeChild(&mut children, index);
        Node { cellKind: self.cellKind, parentIdOpt: self.parentIdOpt, childrenIds: children }
    }

    pub(crate) fn withChildrenSwapped(&self) -> (node: Self)
        requires
            self@.children.len() == 2,
        ensures
            node@ == (NodeView {
                children: seq![self@.children[1], self@.children[0]],
                ..self@
            }),
    {
        let mut children = cloneChildren(&self.childrenIds);
        swapChildPair(&mut children, 0, 1);
        assert(child_list(children) =~= seq![self@.children[1], self@.children[0]]);
        Node { cellKind: self.cellKind, parentIdOpt: self.parentIdOpt, childrenIds: children }
    }

    pub(crate) fn withoutChildren(&self) -> (node: Self)
        ensures
            node@ == (NodeView { children: Seq::empty(), ..self@ }),
    {
        Node { cellKind: self.cellKind, parentIdOpt: self.parentIdOpt, childrenIds: emptyChildren() }
    }
}

/// The slots of a vector of cells as the contracts see them.
pub closed spec fn slots(nodes: Seq<Option<Node>>) -> Slots {
    Seq::new(
        nodes.len(),
        |i: int|
            match nodes[i] {
                Some(node) => Some(node@),
                None => None,
            },
    )
}

/// There are as many slots as the vector has places.
pub proof fn lemma_slots_len(nodes: Seq<Option<Node>>)
    ensures
        #[trigger] slots(nodes).len() == nodes.len(),
{
}

/// The cell in slot `id`.
pub(crate) fn cellAt(nodes: &Vec<Option<Node>>, id: NodeId) -> (node: &Node)
    requires
        live(slots(nodes@), id as int),
    ensures
        slots(nodes@)[id as int] == Some(node@),
{
    nodes[toIndex(id)].as_ref().unwrap()
}

/// Whether slot `id` exists and holds a cell.
pub(crate) fn isLive(nodes: &Vec<Option<Node>>, id: NodeId) -> (held: bool)
    ensures
        held == live(slots(nodes@), id as int),
{
    let index: usize = toIndex(id);
    index < nodes.len() && nodes[index].is_some()
}

/// Slot `id` holds `node` from now on.
pub(crate) fn putCell(nodes: &mut Vec<Option<Node>>, id: NodeId, node: Node)
    requires
        (id as int) < slots(old(nodes)@).len(),
    ensures
        slots(final(nodes)@) == slots(old(nodes)@).update(id as int, Some(node@)),
{
    nodes.set(toIndex(id), Some(node));
    assert(slots(nodes@) =~= slots(old(nodes)@).update(id as int, Some(node@)));
}

/// Slot `id` is vacant from now on.
pub(crate) fn vacateCell(nodes: &mut Vec<Option<Node>>, id: NodeId)
    requires
        (id as int) < slots(old(nodes)@).len(),
    ensures
        slots(final(nodes)@) == slots(old(nodes)@).update(id as int, None),
{
    nodes.set(toIndex(id), None);
    assert(slots(nodes@) =~= slots(old(nodes)@).update(id as int, None));
}

/// A new slot is added behind the others, holding `node`.
pub(crate) fn growCell(nodes: &mut Vec<Option<Node>>, node: Node)
    ensures
        slots(final(nodes)@) == slots(old(nodes)@).push(Some(node@)),
{
    nodes.push(Some(node));
    assert(slots(nodes@) =~= slots(old(nodes)@).push(Some(node@)));
}

/// The edges of the subtree under `start`: for every cell of the subtree but
/// `start`, in left-to-right depth-first order, its parent and the cell.
pub open spec fn edges_below(s: Slots, start: NodeId) -> Seq<Edge> {
    Seq::new(
        (preorder(s, start).len() - 1) as nat,
        |i: int| (parent_of(s, preorder(s, start)[i + 1] as int)->0, preorder(s, start)[i + 1]),
    )
}

/// Whether two lists hold the same handles in the same order.
pub fn sameHandles(left: &[NodeId], right: &[NodeId]) -> (same: bool)
    ensures
        same == (left@ == right@),
{
    if left.len() != right.len() {
        return false;
    }
    let mut index: usize = 0;
    while index < left.len()
        invariant
            index <= left.len(),
            left.len() == right.len(),
            forall|i: int| 0 <= i < index ==> left[i] == right[i],
        decreases left.len() - index,
    {
        if left[index] != right[index] {
            return false;
        }
        index += 1;
    }
    assert(left@ =~= right@);
    true
}

/// A copy of the cells, slot by slot.
pub(crate) fn cloneCells(nodes: &Vec<Option<Node>>) -> (copy: Vec<Option<Node>>)
    ensures
        slots(copy@) == slots(nodes@),
{
    let mut copy: Vec<Option<Node>> = Vec::new();
    let mut index: usize = 0;
    while index < nodes.len()
        invariant
            index <= nodes.len(),
            copy.len() == index,
            forall|i: int| 0 <= i < index ==> #[trigger] slots(copy@)[i] == slots(nodes@)[i],
        decreases nodes.len() - index,
    {
        let cell: Option<Node> = match &nodes[index] {
            Some(node) => Some(node.clone()),
            None => None,
        };
        let ghost before = copy@;
        copy.push(cell);
        assert forall|i: int| 0 <= i < index + 1 implies #[trigger] slots(copy@)[i] == slots(
            nodes@,
        )[i] by {
            if i < index {
                assert(slots(before)[i] == slots(nodes@)[i]);
            }
        }
        index += 1;
    }
    assert(slots(copy@) =~= slots(nodes@));
    copy
}

/// The kind of cell `id` becomes `kind`.
pub(crate) fn setKind(nodes: &mut Vec<Option<Node>>, id: NodeId, kind: CellKind)
    requires
        live(slots(old(nodes)@), id as int),
    ensures
        slots(final(nodes)@) == with_kind(slots(old(nodes)@), id as int, kind),
{
    let cell = cellAt(nodes, id).withKind(kind);
    putCell(nodes, id, cell);
}

/// `childId` becomes the last child of `parentId`.
pub(crate) fn connectParentToChild(nodes: &mut Vec<Option<Node>>, parentId: NodeId, childId: NodeId)
    requires
        live(slots(old(nodes)@), parentId as int),
        live(slots(old(nodes)@), childId as int),
        children_of(slots(old(nodes)@), parentId as int).len() < 2,
    ensures
        slots(final(nodes)@) == connected(slots(old(nodes)@), parentId, childId),
{
    let parent = cellAt(nodes, parentId).withChild(childId);
    putCell(nodes, parentId, parent);
    let child = cellAt(nodes, childId).withParent(Some(parentId));
    putCell(nodes, childId, child);
}

/// `childId` leaves the child list of its parent and has no parent from now
/// on.
pub(crate) fn disconnectParentFromChild(nodes: &mut Vec<Option<Node>>, childId: NodeId)
    requires
        live(slots(old(nodes)@), childId as int),
        node_linked(slots(old(nodes)@), childId as int),
        parent_of(slots(old(nodes)@), childId as int) is Some,
        children_of(
            slots(old(nodes)@),
            parent_of(slots(old(nodes)@), childId as int)->0 as int,
        ).len() <= 2,
    ensures
        slots(final(nodes)@) == disconnected(slots(old(nodes)@), childId),
{
    let oldParentId: NodeId = cellAt(nodes, childId).parent().unwrap();
    let found = positionOf(cellAt(nodes, oldParentId).children(), childId);
    let oldChildIndex: usize = found.unwrap();
    let parent = cellAt(nodes, oldParentId).withoutChildAt(oldChildIndex);
    putCell(nodes, oldParentId, parent);
    let child = cellAt(nodes, childId).withParent(None);
    putCell(nodes, childId, child);
}

/// A strand: a rooted, ordered tree of cells with at most two children each,
/// held in slots that handles index. Handle 0 is the root.
#[derive(Debug)]
pub struct Strand {
    nodes: Vec<Option<Node>>,
}

impl View for Strand {
    type V = Slots;

    closed spec fn view(&self) -> Slots {
        slots(self.nodes@)
    }
}

impl Clone for Strand {
    fn clone(&self) -> (copy: Self)
        ensures
            copy@ == self@,
            copy.wf(),
    {
        proof {
            use_type_invariant(self);
        }
        Strand { nodes: cloneCells(&self.nodes) }
    }
}

impl Strand {
    /// Every strand is a tree at all times: Verus checks this wherever one is
    /// made or changed.
    #[verifier::type_invariant]
    pub closed spec fn holds(&self) -> bool {
        tree(self@)
    }

    /// The invariants of a strand at rest.
    pub open spec fn wf(&self) -> bool {
        tree(self@)
    }

    /// The strand that holds `cells`.
    pub(crate) fn fromCells(cells: Vec<Option<Node>>) -> (strand: Self)
        requires
            tree(slots(cells@)),
        ensures
            strand@ == slots(cells@),
    {
        Strand { nodes: cells }
    }

    /// The strand holds `cells` from now on.
    pub(crate) fn replaceCells(&mut self, cells: Vec<Option<Node>>)
        requires
            tree(slots(cells@)),
        ensures
            final(self)@ == slots(cells@),
    {
        self.nodes = cells;
    }

    /// A copy of the cells that the strand holds.
    pub(crate) fn copyCells(&self) -> (cells: Vec<Option<Node>>)
        ensures
            slots(cells@) == self@,
            self.wf(),
    {
        proof {
            use_type_invariant(self);
        }
        cloneCells(&self.nodes)
    }

/// The handle of the root.
    pub fn root() -> (id: NodeId)
        ensures
            id == 0,
    {
        0
    }

    /// Whether `nodeId` names a cell of the strand.
    pub fn holdsCell(&self, nodeId: NodeId) -> (held: bool)
        ensures
            held == live(self@, nodeId as int),
    {
        isLive(&self.nodes, nodeId)
    }

/// The parent of cell `nodeId`, if it has one.
    pub fn parentId(&self, nodeId: NodeId) -> (parent: Option<NodeId>)
        requires
            live(self@, nodeId as int),
        ensures
            parent == parent_of(self@, nodeId as int),
            self.wf(),
    {
        proof {
            use_type_invariant(self);
        }
        self.nodeAt(nodeId).parent()
    }

/// The children of cell `nodeId`, first child first.
    pub fn childIds(&self, nodeId: NodeId) -> (children: &[NodeId])
        requires
            live(self@, nodeId as int),
        ensures
            children@ == children_of(self@, nodeId as int),
            children@.len() <= 2,
            self.wf(),
    {
        proof {
            use_type_invariant(self);
        }
        self.nodeAt(nodeId).children()
    }

/// The number of children of cell `nodeId`.
    pub fn childCount(&self, nodeId: NodeId) -> (count: usize)
        requires
            live(self@, nodeId as int),
        ensures
            count == children_of(self@, nodeId as int).len(),
            count <= 2,
            self.wf(),
    {
        self.childIds(nodeId).len()
    }

/// The kind of cell `nodeId`.
    pub fn cellKind(&self, nodeId: NodeId) -> (kind: CellKind)
        requires
            live(self@, nodeId as int),
        ensures
            kind == kind_of(self@, nodeId as int),
    {
        self.nodeAt(nodeId).kind()
    }

    /// The number of slots, vacant ones included.
    pub fn nodeCount(&self) -> (count: usize)
        ensures
            count == self@.len(),
            1 <= count <= 256,
            self.wf(),
    {
        proof {
            use_type_invariant(self);
            lemma_slots_len(self.nodes@);
        }
        self.nodes.len()
    }

/// The cell `nodeId`.
    fn nodeAt(&self, nodeId: NodeId) -> (node: &Node)
        requires
            live(self@, nodeId as int),
        ensures
            self@[nodeId as int] == Some(node@),
    {
        cellAt(&self.nodes, nodeId)
    }

    /// Whether the two strands hold the same cells in the same slots, with
    /// the same links.
    pub fn hasSameCells(&self, other: &Self) -> (same: bool)
        ensures
            same == (self@ == other@),
    {
        proof {
            lemma_slots_len(self.nodes@);
            lemma_slots_len(other.nodes@);
        }
        if self.nodes.len() != other.nodes.len() {
            return false;
        }
        let mut index: usize = 0;
        while index < self.nodes.len()
            invariant
                index <= self.nodes.len(),
                self.nodes.len() == other.nodes.len(),
                self@.len() == self.nodes.len(),
                other@.len() == self.nodes.len(),
                forall|i: int| 0 <= i < index ==> self@[i] == other@[i],
            decreases self.nodes.len() - index,
        {
            let same: bool = match (&self.nodes[index], &other.nodes[index]) {
                (Some(left), Some(right)) => left.kind() == right.kind() && left.parent()
                    == right.parent() && sameHandles(left.children(), right.children()),
                (None, None) => true,
                _ => false,
            };
            if !same {
                assert(self@[index as int] != other@[index as int]);
                return false;
            }
            index += 1;
        }
        assert(self@ =~= other@);
        true
    }

    /// The cells of the strand in left-to-right depth-first order, the root
    /// first.
    pub fn collectNodeIds(&self) -> (ids: Vec<NodeId>)
        ensures
            ids@ == preorder(self@, 0),
            self.wf(),
    {
        proof {
            use_type_invariant(self);
        }
        self.collectNodeIdsFrom(Self::root())
    }

    /// The cells of the subtree under `startNodeId` in left-to-right
    /// depth-first order, `startNodeId` first.
    pub fn collectNodeIdsFrom(&self, startNodeId: NodeId) -> (ids: Vec<NodeId>)
        requires
            live(self@, startNodeId as int),
        ensures
            ids@ == preorder(self@, startNodeId),
            self.wf(),
    {
        proof {
            use_type_invariant(self);
            lemma_slots_len(self.nodes@);
        }
        let rows = neighborRows(&self.nodes);
        walkRows(&rows, startNodeId, Ghost(self@))
    }

    /// The edges of the strand, each from a parent to a child, in the order
    /// in which a left-to-right depth-first walk from the root meets the
    /// children.
    pub fn collectEdges(&self) -> (edges: Vec<Edge>)
        ensures
            edges@ == edges_below(self@, 0),
            self.wf(),
    {
        proof {
            use_type_invariant(self);
        }
        self.collectEdgesFrom(Self::root())
    }

    /// The edges of the subtree under `startNodeId`, in the order in which a
    /// left-to-right depth-first walk from `startNodeId` meets the children.
    pub fn collectEdgesFrom(&self, startNodeId: NodeId) -> (edges: Vec<Edge>)
        requires
            live(self@, startNodeId as int),
        ensures
            edges@ == edges_below(self@, startNodeId),
            self.wf(),
    {
        let ids = self.collectNodeIdsFrom(startNodeId);
        proof {
            crate::mutation::lemma_subtree_cells(self@, startNodeId);
        }
        let mut edges: Vec<Edge> = Vec::new();
        let mut index: usize = 1;
        while index < ids.len()
            invariant
                1 <= index <= ids.len(),
                ids@ == preorder(self@, startNodeId),
                forall|i: int| 0 <= i < ids.len() ==> live(self@, #[trigger] ids[i] as int),
                forall|i: int|
                    1 <= i < ids.len() ==> parent_of(self@, #[trigger] ids[i] as int) is Some,
                edges.len() == index - 1,
                forall|i: int|
                    0 <= i < index - 1 ==> #[trigger] edges[i] == edges_below(self@, startNodeId)[i],
            decreases ids.len() - index,
        {
            let nodeId: NodeId = ids[index];
            assert(live(self@, ids[index as int] as int));
            assert(parent_of(self@, ids[index as int] as int) is Some);
            if let Some(parentId) = self.parentId(nodeId) {
                edges.push((parentId, nodeId));
            }
            index += 1;
        }
        assert(edges@ =~= edges_below(self@, startNodeId));
        edges
    }

    /// Moves `childId` from its parent to the end of the child list of
    /// `newParentId`. The children that stay with the old parent keep their
    /// order.
    pub fn changeParent(&mut self, childId: NodeId, newParentId: NodeId)
        requires
            live(old(self)@, childId as int),
            live(old(self)@, newParentId as int),
            parent_of(old(self)@, childId as int) is Some,
            parent_of(old(self)@, childId as int) != Some(newParentId),
            children_of(old(self)@, newParentId as int).len() < 2,
            !within(old(self)@, childId, newParentId),
        ensures
            final(self)@ == reparented(old(self)@, childId, newParentId),
            final(self).wf(),
    {
        proof {
            use_type_invariant(&*self);
            lemma_reparent_tree(self@, childId, newParentId);
            crate::edits::lemma_disconnect_forest(self@, childId);
        }
        let mut cells = cloneCells(&self.nodes);
        disconnectParentFromChild(&mut cells, childId);
        connectParentToChild(&mut cells, newParentId, childId);
        self.nodes = cells;
    }

    /// Exchanges the two children of `nodeId`.
    pub fn swapChildren(&mut self, nodeId: NodeId)
        requires
            live(old(self)@, nodeId as int),
            children_of(old(self)@, nodeId as int).len() == 2,
        ensures
            final(self)@ == swapped(old(self)@, nodeId),
            final(self).wf(),
    {
        proof {
            use_type_invariant(&*self);
            lemma_swap_forest(self@, nodeId);
        }
        let mut cells = cloneCells(&self.nodes);
        let cell = cellAt(&cells, nodeId).withChildrenSwapped();
        putCell(&mut cells, nodeId, cell);
        self.nodes = cells;
    }
}

} // verus!
