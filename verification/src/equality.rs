//! Structural equality of strands and the hash that goes with it: two
//! strands are equal when a left-to-right depth-first walk meets cells of the
//! same kind with the same number of children, whatever their handles.
use crate::forest::{
    children_of, kind_of, lemma_member_live, lemma_preorder_unfolds, live, preorder, walk,
    CellKind, NodeId, Slots,
};
use crate::strand::Strand;
use core::hash::{Hash, Hasher};
use vstd::prelude::*;
use vstd::std_specs::cmp::PartialEqSpecImpl;

verus! {

/// What equality reads of one cell: how many children it has, and its kind.
pub open spec fn cell_shape(s: Slots, n: NodeId) -> (nat, CellKind) {
    (children_of(s, n as int).len(), kind_of(s, n as int))
}

/// What equality reads of a strand: the shapes of its cells in left-to-right
/// depth-first order from the root.
pub open spec fn shape(s: Slots) -> Seq<(nat, CellKind)> {
    preorder(s, 0).map_values(|n: NodeId| cell_shape(s, n))
}

/// The number that stands for a kind where a shape is hashed.
pub open spec fn kind_code(kind: CellKind) -> u8 {
    match kind {
        CellKind::Normal => 0,
        CellKind::Doubler => 1,
        CellKind::Extender => 2,
        CellKind::Eraser => 3,
    }
}

/// The bytes that stand for a shape where it is hashed: for every cell its
/// number of children, then the number of its kind.
pub open spec fn shape_code(shape: Seq<(nat, CellKind)>) -> Seq<u8>
    decreases shape.len(),
{
    if shape.len() == 0 {
        Seq::empty()
    } else {
        shape_code(shape.drop_last()).push(shape.last().0 as u8).push(kind_code(shape.last().1))
    }
}

/// The number that stands for a kind.
fn kindCode(kind: CellKind) -> (code: u8)
    ensures
        code == kind_code(kind),
{
    match kind {
        CellKind::Normal => 0,
        CellKind::Doubler => 1,
        CellKind::Extender => 2,
        CellKind::Eraser => 3,
    }
}

/// `Hasher::write`: the bytes go into the state of the hasher. What the
/// hasher makes of them is its own affair and nothing is claimed of it.
#[verifier::external_body]
fn feedHasher<H: Hasher>(state: &mut H, bytes: &[u8]) {
    state.write(bytes)
}

impl Strand {
    /// Whether the two strands have the same shape: the same number of
    /// cells, and cell by cell, in left-to-right depth-first order, the same
    /// number of children and the same kind.
    pub fn isEqualOnSurface(&self, other: &Self) -> (same: bool)
        ensures
            same == (shape(self@) == shape(other@)),
    {
        let selfIds = self.collectNodeIds();
        let otherIds = other.collectNodeIds();
        proof {
            lemma_preorder_unfolds(self@, 0);
            lemma_preorder_unfolds(other@, 0);
        }
        let mut index: usize = 0;
        assert(shape(self@).len() == selfIds.len());
        assert(shape(other@).len() == otherIds.len());
        while index < selfIds.len()
            invariant
                index <= selfIds.len(),
                selfIds@ == preorder(self@, 0),
                otherIds@ == preorder(other@, 0),
                shape(self@).len() == selfIds.len(),
                shape(other@).len() == otherIds.len(),
                walk(self@, 0, crate::forest::enough_fuel(self@, 0)) == Some(preorder(self@, 0)),
                walk(other@, 0, crate::forest::enough_fuel(other@, 0)) == Some(
                    preorder(other@, 0),
                ),
                index <= otherIds.len(),
                forall|i: int| 0 <= i < index ==> shape(self@)[i] == shape(other@)[i],
            decreases selfIds.len() - index,
        {
            if index >= otherIds.len() {
                assert(shape(self@).len() != shape(other@).len());
                return false;
            }
            let selfNodeId: NodeId = selfIds[index];
            let otherNodeId: NodeId = otherIds[index];
            proof {
                assert(preorder(self@, 0).contains(selfNodeId));
                assert(preorder(other@, 0).contains(otherNodeId));
                lemma_member_live(self@, 0, crate::forest::enough_fuel(self@, 0), selfNodeId);
                lemma_member_live(other@, 0, crate::forest::enough_fuel(other@, 0), otherNodeId);
            }
            if !isChildrenCountTheSame(self, selfNodeId, other, otherNodeId) || !isCellKindTheSame(
                self,
                selfNodeId,
                other,
                otherNodeId,
            ) {
                assert(shape(self@)[index as int] != shape(other@)[index as int]);
                return false;
            }
            index += 1;
        }
        let same = otherIds.len() == selfIds.len();
        proof {
            if same {
                assert(shape(self@) =~= shape(other@));
            }
        }
        same
    }

    /// The bytes that the strand hands to a hasher: they stand for its shape
    /// and for nothing else.
    pub fn shapeCode(&self) -> (code: Vec<u8>)
        ensures
            code@ == shape_code(shape(self@)),
    {
        let ids = self.collectNodeIds();
        proof {
            lemma_preorder_unfolds(self@, 0);
        }
        let mut code: Vec<u8> = Vec::new();
        let mut index: usize = 0;
        while index < ids.len()
            invariant
                index <= ids.len(),
                ids@ == preorder(self@, 0),
                walk(self@, 0, crate::forest::enough_fuel(self@, 0)) == Some(preorder(self@, 0)),
                code@ == shape_code(shape(self@).take(index as int)),
            decreases ids.len() - index,
        {
            let nodeId: NodeId = ids[index];
            proof {
                assert(preorder(self@, 0).contains(nodeId));
                lemma_member_live(self@, 0, crate::forest::enough_fuel(self@, 0), nodeId);
                let upto = shape(self@).take(index + 1);
                assert(upto.drop_last() =~= shape(self@).take(index as int));
                assert(upto.last() == cell_shape(self@, nodeId));
            }
            code.push(self.childCount(nodeId) as u8);
            code.push(kindCode(self.cellKind(nodeId)));
            index += 1;
        }
        assert(shape(self@).take(ids.len() as int) =~= shape(self@));
        code
    }
}

/// Whether the two cells have the same number of children.
fn isChildrenCountTheSame(
    leftStrand: &Strand,
    leftNodeId: NodeId,
    rightStrand: &Strand,
    rightNodeId: NodeId,
) -> (same: bool)
    requires
        live(leftStrand@, leftNodeId as int),
        live(rightStrand@, rightNodeId as int),
    ensures
        same == (children_of(leftStrand@, leftNodeId as int).len() == children_of(
            rightStrand@,
            rightNodeId as int,
        ).len()),
{
    leftStrand.childCount(leftNodeId) == rightStrand.childCount(rightNodeId)
}

/// Whether the two cells are of the same kind.
fn isCellKindTheSame(
    leftStrand: &Strand,
    leftNodeId: NodeId,
    rightStrand: &Strand,
    rightNodeId: NodeId,
) -> (same: bool)
    requires
        live(leftStrand@, leftNodeId as int),
        live(rightStrand@, rightNodeId as int),
    ensures
        same == (kind_of(leftStrand@, leftNodeId as int) == kind_of(
            rightStrand@,
            rightNodeId as int,
        )),
{
    leftStrand.cellKind(leftNodeId) == rightStrand.cellKind(rightNodeId)
}

impl PartialEq for Strand {
    fn eq(&self, other: &Self) -> (same: bool) {
        self.isEqualOnSurface(other)
    }
}

impl PartialEqSpecImpl for Strand {
    open spec fn obeys_eq_spec() -> bool {
        true
    }

    open spec fn eq_spec(&self, other: &Self) -> bool {
        shape(self@) == shape(other@)
    }
}

impl Eq for Strand {

}

impl Hash for Strand {
    /// Hands the hasher the bytes of `shapeCode`, so that strands that are
    /// equal are hashed alike.
    fn hash<H: Hasher>(&self, state: &mut H) {
        let code = self.shapeCode();
        feedHasher(state, code.as_slice());
    }
}

} // verus!
