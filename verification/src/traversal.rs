//! Depth-first traversal, made by `petgraph`'s `Dfs` on an adjacency list
//! that holds, for every slot, the children of its cell.
use crate::forest::{
    children_of, lemma_walk_ends, lemma_walk_is_preorder, lemma_walk_no_duplicates, linked, live,
    node_linked, preorder, ranked, walk, NodeId, Slots,
};
use crate::strand::{cellAt, isLive, slots, Node};
use petgraph::adj::UnweightedList;
use petgraph::visit::{Dfs, Walker};
use vstd::prelude::*;

verus! {

/// Hands out the children of a cell last child first: `Dfs` keeps the
/// neighbours of a cell on a stack and so visits first the one it was handed
/// last.
pub struct ChildNodesIterator {
    nodes: Vec<NodeId>,
    nextNodeId: usize,
}

impl ChildNodesIterator {
    /// The handles that `next` has yet to hand out, in the order in which it
    /// will.
    pub closed spec fn pending(&self) -> Seq<NodeId> {
        if self.nextNodeId <= self.nodes.len() {
            self.nodes@.skip(self.nextNodeId as int)
        } else {
            Seq::empty()
        }
    }

/// An iterator over the handles of `nodes`, the last one first.
    pub fn new(nodes: &[NodeId]) -> (iterator: Self)
        ensures
            iterator.pending() == nodes@.reverse(),
    {
        let mut reversed: Vec<NodeId> = Vec::new();
        let mut left: usize = nodes.len();
        while left > 0
            invariant
                left <= nodes.len(),
                reversed.len() == nodes.len() - left,
                forall|i: int|
                    0 <= i < reversed.len() ==> reversed[i] == nodes[nodes.len() - 1 - i],
            decreases left,
        {
            left -= 1;
            reversed.push(nodes[left]);
        }
        assert(reversed@ =~= nodes@.reverse());
        assert(reversed@.skip(0) =~= reversed@);
        ChildNodesIterator { nodes: reversed, nextNodeId: 0 }
    }

/// The next handle, or nothing when all were handed out.
    pub fn next(&mut self) -> (handle: Option<NodeId>)
        ensures
            match handle {
                Some(id) => old(self).pending().len() > 0 && id == old(self).pending()[0]
                    && final(self).pending() == old(self).pending().skip(1),
                None => old(self).pending().len() == 0 && final(self).pending() == old(
                    self,
                ).pending(),
            },
    {
        if self.nextNodeId >= self.nodes.len() {
            return None;
        }
        let nextNodeId: NodeId = self.nodes[self.nextNodeId];
        self.nextNodeId += 1;
        assert(self.pending() =~= old(self).pending().skip(1));
        Some(nextNodeId)
    }
}

/// The rows of an adjacency list as the contracts see them.
pub open spec fn rows_view(rows: Seq<Vec<NodeId>>) -> Seq<Seq<NodeId>> {
    Seq::new(rows.len(), |i: int| rows[i]@)
}

/// The cells that a depth-first traversal from `n` meets, in the order in
/// which it meets each for the first time, where no cell is reached twice:
/// the cell itself, then what the traversal meets from the neighbour listed
/// last in its row, then from the one before that, and so on. `None` when
/// the traversal goes deeper than `fuel` cells or leaves the rows.
pub open spec fn visit(rows: Seq<Seq<NodeId>>, n: NodeId, fuel: nat) -> Option<Seq<NodeId>>
    decreases fuel, 0nat,
{
    if fuel == 0 || n as int >= rows.len() {
        None
    } else {
        match visit_row(rows, rows[n as int], (fuel - 1) as nat) {
            Some(below) => Some(seq![n] + below),
            None => None,
        }
    }
}

/// What the traversal meets from the neighbours of one row, the last one
/// first.
pub open spec fn visit_row(rows: Seq<Seq<NodeId>>, row: Seq<NodeId>, fuel: nat) -> Option<
    Seq<NodeId>,
>
    decreases fuel, row.len(),
{
    if row.len() == 0 {
        Some(Seq::empty())
    } else {
        match (visit(rows, row.last(), fuel), visit_row(rows, row.drop_last(), fuel)) {
            (Some(first), Some(rest)) => Some(first + rest),
            _ => None,
        }
    }
}

/// The traversal from `start` ends within `fuel` cells and reaches no cell
/// twice.
pub open spec fn visits_each_once(rows: Seq<Seq<NodeId>>, start: NodeId, fuel: nat) -> bool {
    visit(rows, start, fuel) is Some && visit(rows, start, fuel)->0.no_duplicates()
}

/// `petgraph::visit::Dfs` on a `petgraph::adj::List` built from `rows` with
/// `List::add_node_from_edges`, row `i` being the neighbours of node `i`: the
/// nodes in the order in which `Dfs::next` hands them out until it hands out
/// none, collected through `Walker::iter`.
///
/// `Dfs` emits a node when it discovers it, pushes its undiscovered
/// neighbours on a stack in the order of the row, and goes on with the node
/// on top of the stack. Where no node is reached twice this is the order that
/// [`visit`] describes. `Dfs` panics on a node outside the rows, which the
/// precondition leaves out.
#[verifier::external_body]
pub(crate) fn depthFirstOrder(rows: &Vec<Vec<NodeId>>, start: NodeId) -> (order: Vec<NodeId>)
    requires
        exists|fuel: nat| visits_each_once(rows_view(rows@), start, fuel),
    ensures
        forall|fuel: nat| #[trigger]
            visit(rows_view(rows@), start, fuel) is Some ==> order@ == visit(
                rows_view(rows@),
                start,
                fuel,
            )->0,
{
    let mut graph = UnweightedList::<NodeId>::with_capacity(rows.len());
    for row in rows {
        graph.add_node_from_edges(row.iter().map(|next| (*next, ())));
    }
    Dfs::new(&graph, start).iter(&graph).collect()
}

/// The rows that stand for a strand: for a cell its children, last child
/// first; for a vacant slot nothing.
pub open spec fn neighbor_rows(s: Slots) -> Seq<Seq<NodeId>> {
    Seq::new(
        s.len(),
        |i: int|
            if live(s, i) {
                children_of(s, i).reverse()
            } else {
                Seq::empty()
            },
    )
}

/// On the rows that stand for a strand with sound links, the traversal is the
/// left-to-right walk.
pub proof fn lemma_visit_is_walk(s: Slots, n: NodeId, fuel: nat)
    requires
        linked(s),
        live(s, n as int),
    ensures
        visit(neighbor_rows(s), n, fuel) == walk(s, n, fuel),
    decreases fuel,
{
    reveal_with_fuel(visit_row, 3);
    let rows = neighbor_rows(s);
    if fuel > 0 {
        assert(visit(rows, n, fuel) == match visit_row(rows, rows[n as int], (fuel - 1) as nat) {
            Some(below) => Some(seq![n] + below),
            None => None,
        });
        let c = children_of(s, n as int);
        let row = rows[n as int];
        let below = (fuel - 1) as nat;
        assert(node_linked(s, n as int));
        assert(row == c.reverse());
        if c.len() == 1 {
            assert(live(s, c[0] as int));
            lemma_visit_is_walk(s, c[0], below);
            assert(row.last() == c[0]);
            assert(row.drop_last().len() == 0);
            if walk(s, c[0], below) is Some {
                assert(walk(s, c[0], below)->0 + Seq::<NodeId>::empty() =~= walk(s, c[0], below)->0);
            }
        } else if c.len() == 2 {
            assert(live(s, c[0] as int));
            assert(live(s, c[1] as int));
            lemma_visit_is_walk(s, c[0], below);
            lemma_visit_is_walk(s, c[1], below);
            assert(row.last() == c[0]);
            assert(row.drop_last().last() == c[1]);
            assert(row.drop_last().drop_last().len() == 0);
            if walk(s, c[0], below) is Some && walk(s, c[1], below) is Some {
                let first = walk(s, c[0], below)->0;
                let second = walk(s, c[1], below)->0;
                assert(second + Seq::<NodeId>::empty() =~= second);
                assert(seq![n] + (first + second) =~= seq![n] + first + second);
            }
        } else {
            assert(row.len() == 0);
            assert(seq![n] + Seq::<NodeId>::empty() =~= seq![n]);
        }
    }
}

/// The rows that stand for the cells of `nodes`.
pub(crate) fn neighborRows(nodes: &Vec<Option<Node>>) -> (rows: Vec<Vec<NodeId>>)
    requires
        nodes.len() <= 256,
    ensures
        rows_view(rows@) == neighbor_rows(slots(nodes@)),
{
    let mut rows: Vec<Vec<NodeId>> = Vec::new();
    let mut index: usize = 0;
    proof {
        crate::strand::lemma_slots_len(nodes@);
    }
    while index < nodes.len()
        invariant
            index <= nodes.len(),
            nodes.len() <= 256,
            slots(nodes@).len() == nodes.len(),
            rows.len() == index,
            forall|i: int| 0 <= i < index ==> (#[trigger] rows[i])@ == neighbor_rows(slots(nodes@))[i],
        decreases nodes.len() - index,
    {
        let mut row: Vec<NodeId> = Vec::new();
        let id: NodeId = index as NodeId;
        if isLive(nodes, id) {
            let mut neighbors = ChildNodesIterator::new(cellAt(nodes, id).children());
            let ghost all = neighbors.pending();
            loop
                invariant
                    row@ + neighbors.pending() == all,
                ensures
                    row@ == all,
                decreases neighbors.pending().len(),
            {
                match neighbors.next() {
                    Some(neighbor) => {
                        proof {
                            assert(row@.push(neighbor) + neighbors.pending() =~= all);
                        }
                        row.push(neighbor);
                    },
                    None => {
                        assert(row@ + neighbors.pending() =~= row@);
                        break ;
                    },
                }
            }
        }
        rows.push(row);
        index += 1;
    }
    assert(rows_view(rows@) =~= neighbor_rows(slots(nodes@)));
    rows
}

/// The cells of the subtree under `start`, in left-to-right depth-first
/// order, read off rows that stand for the forest `s`.
pub(crate) fn walkRows(rows: &Vec<Vec<NodeId>>, start: NodeId, Ghost(s): Ghost<Slots>) -> (order:
    Vec<NodeId>)
    requires
        crate::forest::forest(s),
        live(s, start as int),
        rows_view(rows@) == neighbor_rows(s),
    ensures
        order@ == preorder(s, start),
{
    proof {
        let (rank, bound) = choose|rank: Seq<nat>, bound: nat| ranked(s, rank, bound);
        lemma_walk_ends(s, rank, bound, start);
        let fuel = (bound - rank[start as int] + 1) as nat;
        lemma_walk_no_duplicates(s, rank, bound, start, fuel);
        lemma_visit_is_walk(s, start, fuel);
        lemma_walk_is_preorder(s, start, fuel);
        assert(visits_each_once(rows_view(rows@), start, fuel));
    }
    let order = depthFirstOrder(rows, start);
    order
}

} // verus!
