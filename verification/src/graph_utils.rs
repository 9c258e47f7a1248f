//! A strand written down as a graph in the DOT language.
use crate::captions::{appendNumber, decimal};
use crate::forest::{kind_of, live, parent_of, preorder, CellKind, Edge, NodeId, Slots};
use crate::mutation::lemma_subtree_cells;
use crate::strand::{edges_below, Strand};
use vstd::prelude::*;

verus! {

/// The label of a cell: its handle, and for a special cell, in quotes, its
/// handle and its kind.
pub open spec fn node_label(s: Slots, n: NodeId) -> Seq<char> {
    match kind_of(s, n as int) {
        CellKind::Normal => decimal(n as nat),
        CellKind::Doubler => "\""@ + decimal(n as nat) + " (doubler)\""@,
        CellKind::Extender => "\""@ + decimal(n as nat) + " (extender)\""@,
        CellKind::Eraser => "\""@ + decimal(n as nat) + " (eraser)\""@,
    }
}

/// One line for every edge: four spaces, the label of the parent, an arrow
/// and the label of the child.
pub open spec fn edge_lines(s: Slots, edges: Seq<Edge>) -> Seq<char>
    decreases edges.len(),
{
    if edges.len() == 0 {
        Seq::empty()
    } else {
        edge_lines(s, edges.drop_last()) + "    "@ + node_label(s, edges.last().0) + " -> "@
            + node_label(s, edges.last().1) + "\n"@
    }
}

/// The strand as a directed graph in the DOT language, its edges in the
/// order in which a left-to-right depth-first walk from the root meets the
/// children.
pub open spec fn dot_graph(s: Slots) -> Seq<char> {
    "digraph {\n"@ + edge_lines(s, edges_below(s, 0)) + "}"@
}

/// Writes the label of cell `nodeId` behind what `output` holds.
fn appendNode(output: &mut String, nodeId: NodeId, strand: &Strand)
    requires
        live(strand@, nodeId as int),
    ensures
        final(output)@ == old(output)@ + node_label(strand@, nodeId),
{
    match strand.cellKind(nodeId) {
        CellKind::Normal => {
            appendNumber(output, nodeId);
        },
        CellKind::Doubler => {
            output.append("\"");
            appendNumber(output, nodeId);
            output.append(" (doubler)\"");
            assert(output@ =~= old(output)@ + node_label(strand@, nodeId));
        },
        CellKind::Extender => {
            output.append("\"");
            appendNumber(output, nodeId);
            output.append(" (extender)\"");
            assert(output@ =~= old(output)@ + node_label(strand@, nodeId));
        },
        CellKind::Eraser => {
            output.append("\"");
            appendNumber(output, nodeId);
            output.append(" (eraser)\"");
            assert(output@ =~= old(output)@ + node_label(strand@, nodeId));
        },
    }
}

/// The label of cell `nodeId`.
pub fn formatNode(nodeId: NodeId, strand: &Strand) -> (label: String)
    requires
        live(strand@, nodeId as int),
    ensures
        label@ == node_label(strand@, nodeId),
{
    let mut label = String::new();
    appendNode(&mut label, nodeId, strand);
    assert(Seq::<char>::empty() + node_label(strand@, nodeId) =~= node_label(strand@, nodeId));
    label
}

/// The strand as a directed graph in the DOT language.
pub fn formatDotGraph(strand: &Strand) -> (output: String)
    ensures
        output@ == dot_graph(strand@),
{
    let mut output = String::from_str("digraph {\n");
    let edges = strand.collectEdges();
    let ghost s = strand@;
    proof {
        lemma_subtree_cells(s, 0);
    }
    let mut index: usize = 0;
    assert(edges@.take(0) =~= Seq::<Edge>::empty());
    assert("digraph {\n"@ + Seq::<char>::empty() =~= "digraph {\n"@);
    while index < edges.len()
        invariant
            index <= edges.len(),
            s == strand@,
            edges@ == edges_below(s, 0),
            preorder(s, 0).len() >= 1,
            edges.len() == preorder(s, 0).len() - 1,
            forall|i: int| 0 <= i < preorder(s, 0).len() ==> live(s, #[trigger] preorder(s, 0)[i] as int),
            forall|i: int|
                1 <= i < preorder(s, 0).len() ==> parent_of(s, #[trigger] preorder(s, 0)[i] as int)
                    is Some && preorder(s, 0).contains(parent_of(s, preorder(s, 0)[i] as int)->0),
            output@ == "digraph {\n"@ + edge_lines(s, edges@.take(index as int)),
        decreases edges.len() - index,
    {
        let edge: Edge = edges[index];
        proof {
            let order = preorder(s, 0);
            assert(edge.1 == order[index + 1]);
            assert(live(s, order[index + 1] as int));
            assert(edge.0 == parent_of(s, order[index + 1] as int)->0);
            let at = choose|at: int| 0 <= at < order.len() && order[at] == edge.0;
            assert(live(s, order[at] as int));
            assert(edges@.take(index + 1).drop_last() =~= edges@.take(index as int));
            assert(edges@.take(index + 1).last() == edge);
        }
        output.append("    ");
        appendNode(&mut output, edge.0, strand);
        output.append(" -> ");
        appendNode(&mut output, edge.1, strand);
        output.append("\n");
        assert(output@ =~= "digraph {\n"@ + edge_lines(s, edges@.take(index + 1)));
        index += 1;
    }
    assert(edges@.take(edges.len() as int) =~= edges@);
    output.append("}");
    output
}

} // verus!
