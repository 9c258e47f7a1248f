//! The levels of the game: a start strand, a target strand and the number of
//! splices that the player may make.
use crate::building::{builds_tree, built};
use crate::captions::{appendNumber, decimal};
use crate::forest::{CellKind, Edge, NodeId, Slots};
use crate::strand::Strand;
use vstd::prelude::*;

verus! {

/// A number of splices.
pub type SpliceCount = u8;

/// One puzzle.
pub struct Level {
    pub start: Strand,
    pub target: Strand,
    pub maxSplices: SpliceCount,
}

/// A level as the contracts see it.
pub struct LevelView {
    pub start: Slots,
    pub target: Slots,
    pub maxSplices: SpliceCount,
}

impl View for Level {
    type V = LevelView;

    open spec fn view(&self) -> LevelView {
        LevelView { start: self.start@, target: self.target@, maxSplices: self.maxSplices }
    }
}

/// The number of a sequence of levels, counted from 1.
#[derive(Clone, Copy, Debug)]
pub struct SequenceNumber(pub u8);

/// The number of a strand within its sequence, counted from 1.
#[derive(Clone, Copy, Debug, PartialEq, Eq, Structural)]
pub struct StrandNumber(pub u8);

/// Why no level was made.
#[derive(Clone, Copy, Debug, PartialEq, Eq, Structural)]
pub enum LevelError {
    /// The sequence number was 0.
    SequenceZero,
    /// The strand number was 0.
    StrandZero,
    /// There is no sequence of this number.
    UnsupportedSequence(u8),
    /// The sequence has no strand of this number.
    UnsupportedStrand(u8),
    /// The description of the level gives no strand.
    Malformed,
}

/// The text of an error.
pub open spec fn error_text(error: LevelError) -> Seq<char> {
    match error {
        LevelError::SequenceZero => "Sequence number must start at 1, got 0."@,
        LevelError::StrandZero => "Strand number must start at 1, got 0."@,
        LevelError::UnsupportedSequence(number) => "Unsupported sequence number: "@ + decimal(
            number as nat,
        ),
        LevelError::UnsupportedStrand(number) => "Unsupported strand number: "@ + decimal(
            number as nat,
        ),
        LevelError::Malformed => "The description of the level gives no strand."@,
    }
}

impl LevelError {
    /// The text of the error.
    pub fn message(&self) -> (text: String)
        ensures
            text@ == error_text(*self),
    {
        match self {
            LevelError::SequenceZero => String::from_str("Sequence number must start at 1, got 0."),
            LevelError::StrandZero => String::from_str("Strand number must start at 1, got 0."),
            LevelError::UnsupportedSequence(number) => {
                let mut text = String::from_str("Unsupported sequence number: ");
                appendNumber(&mut text, *number);
                text
            },
            LevelError::UnsupportedStrand(number) => {
                let mut text = String::from_str("Unsupported strand number: ");
                appendNumber(&mut text, *number);
                text
            },
            LevelError::Malformed => String::from_str(
                "The description of the level gives no strand.",
            ),
        }
    }
}

/// The description of a strand: how many cells, which edges, which kinds.
pub struct StrandInfo {
    pub nodeCount: usize,
    pub edges: &'static [Edge],
    pub mutables: &'static [(NodeId, CellKind)],
}

/// The description of a strand as the contracts see it.
pub struct StrandInfoView {
    pub nodeCount: nat,
    pub edges: Seq<Edge>,
    pub mutables: Seq<(NodeId, CellKind)>,
}

impl View for StrandInfo {
    type V = StrandInfoView;

    open spec fn view(&self) -> StrandInfoView {
        StrandInfoView {
            nodeCount: self.nodeCount as nat,
            edges: self.edges@,
            mutables: self.mutables@,
        }
    }
}

/// The description of a level.
pub struct LevelInfo {
    pub start: StrandInfo,
    pub target: StrandInfo,
    pub maxSplices: SpliceCount,
}

/// The description of a level as the contracts see it.
pub struct LevelInfoView {
    pub start: StrandInfoView,
    pub target: StrandInfoView,
    pub maxSplices: SpliceCount,
}

impl View for LevelInfo {
    type V = LevelInfoView;

    open spec fn view(&self) -> LevelInfoView {
        LevelInfoView { start: self.start@, target: self.target@, maxSplices: self.maxSplices }
    }
}

/// The description of a strand with the given parts.
pub open spec fn strand_info(
    nodeCount: nat,
    edges: Seq<Edge>,
    mutables: Seq<(NodeId, CellKind)>,
) -> StrandInfoView {
    StrandInfoView { nodeCount, edges, mutables }
}

/// The description of a level with the given parts.
pub open spec fn level_info(
    start: StrandInfoView,
    target: StrandInfoView,
    maxSplices: SpliceCount,
) -> LevelInfoView {
    LevelInfoView { start, target, maxSplices }
}

/// The description of a strand with the given parts.
fn strandInfo(
    nodeCount: usize,
    edges: &'static [Edge],
    mutables: &'static [(NodeId, CellKind)],
) -> (info: StrandInfo)
    ensures
        info@ == strand_info(nodeCount as nat, edges@, mutables@),
{
    StrandInfo { nodeCount, edges, mutables }
}

/// The description of a level with the given parts.
fn levelInfo(start: StrandInfo, target: StrandInfo, maxSplices: SpliceCount) -> (info: LevelInfo)
    ensures
        info@ == level_info(start@, target@, maxSplices),
{
    LevelInfo { start, target, maxSplices }
}

/// No cell is special.
pub const NO_KINDS: [(NodeId, CellKind); 0] = [];

/// The edges of the start strand of strand 1 of sequence 1.
pub const SEQUENCE_1_STRAND_1_START: [Edge; 2] = [(0, 1), (1, 2)];

/// The edges of the target strand of strand 1 of sequence 1.
pub const SEQUENCE_1_STRAND_1_TARGET: [Edge; 2] = [(0, 1), (0, 2)];

/// The edges of the start strand of strand 2 of sequence 1.
pub const SEQUENCE_1_STRAND_2_START: [Edge; 4] = [(0, 1), (1, 2), (2, 3), (1, 4)];

/// The edges of the target strand of strand 2 of sequence 1.
pub const SEQUENCE_1_STRAND_2_TARGET: [Edge; 4] = [(0, 1), (1, 2), (0, 3), (3, 4)];

/// The edges of the start strand of strand 3 of sequence 1.
pub const SEQUENCE_1_STRAND_3_START: [Edge; 10] = [
    (0, 1), (1, 2), (1, 3), (3, 4), (3, 5), (0, 6), (6, 7), (6, 8), (8, 9), (8, 10),
];

/// The edges of the target strand of strand 3 of sequence 1.
pub const SEQUENCE_1_STRAND_3_TARGET: [Edge; 10] = [
    (0, 1), (1, 2), (2, 3), (3, 4), (3, 5), (0, 6), (6, 7), (7, 8), (8, 9), (8, 10),
];

/// The edges of the start strand of strand 4 of sequence 1.
pub const SEQUENCE_1_STRAND_4_START: [Edge; 10] = [
    (0, 1), (1, 2), (2, 3), (2, 4), (4, 5), (1, 6), (6, 7), (7, 8), (6, 9), (0, 10),
];

/// The edges of the target strand of strand 4 of sequence 1.
pub const SEQUENCE_1_STRAND_4_TARGET: [Edge; 10] = [
    (0, 1), (1, 2), (2, 3), (3, 4), (2, 5), (0, 6), (6, 7), (7, 8), (7, 9), (9, 10),
];

/// The edges of the start strand of strand 5 of sequence 1.
pub const SEQUENCE_1_STRAND_5_START: [Edge; 9] = [
    (0, 1), (1, 2), (1, 3), (0, 4), (4, 5), (4, 6), (6, 7), (7, 8), (7, 9),
];

/// The edges of the target strand of strand 5 of sequence 1.
pub const SEQUENCE_1_STRAND_5_TARGET: [Edge; 9] = [
    (0, 1), (1, 2), (2, 3), (3, 4), (3, 5), (1, 6), (6, 7), (7, 8), (7, 9),
];

/// The edges of the start strand of strand 6 of sequence 1.
pub const SEQUENCE_1_STRAND_6_START: [Edge; 12] = [
    (0, 1), (1, 2), (1, 3), (3, 4), (4, 5), (4, 6), (0, 7), (7, 8), (8, 9), (9, 10), (9, 11),
    (7, 12),
];

/// The edges of the target strand of strand 6 of sequence 1.
pub const SEQUENCE_1_STRAND_6_TARGET: [Edge; 12] = [
    (0, 1), (1, 2), (2, 3), (3, 4), (3, 5), (1, 6), (0, 7), (7, 8), (7, 9), (9, 10), (10, 11),
    (10, 12),
];

/// The edges of the start strand of strand 7 of sequence 1.
pub const SEQUENCE_1_STRAND_7_START: [Edge; 12] = [
    (0, 1), (1, 2), (2, 3), (3, 4), (3, 5), (5, 6), (5, 7), (2, 8), (8, 9), (9, 10), (9, 11),
    (8, 12),
];

/// The edges of the target strand of strand 7 of sequence 1.
pub const SEQUENCE_1_STRAND_7_TARGET: [Edge; 12] = [
    (0, 1), (1, 2), (2, 3), (2, 4), (4, 5), (4, 6), (0, 7), (7, 8), (8, 9), (9, 10), (9, 11),
    (8, 12),
];

/// The levels of sequence 1: the levels without special cells.
pub open spec fn sequence1(strand: u8) -> Option<LevelInfoView> {
    if strand == 1 {
        Some(
            level_info(
                strand_info(3, SEQUENCE_1_STRAND_1_START@, NO_KINDS@),
                strand_info(3, SEQUENCE_1_STRAND_1_TARGET@, NO_KINDS@),
                1,
            ),
        )
    }     else if strand == 2 {
        Some(
            level_info(
                strand_info(5, SEQUENCE_1_STRAND_2_START@, NO_KINDS@),
                strand_info(5, SEQUENCE_1_STRAND_2_TARGET@, NO_KINDS@),
                1,
            ),
        )
    }     else if strand == 3 {
        Some(
            level_info(
                strand_info(11, SEQUENCE_1_STRAND_3_START@, NO_KINDS@),
                strand_info(11, SEQUENCE_1_STRAND_3_TARGET@, NO_KINDS@),
                2,
            ),
        )
    }     else if strand == 4 {
        Some(
            level_info(
                strand_info(11, SEQUENCE_1_STRAND_4_START@, NO_KINDS@),
                strand_info(11, SEQUENCE_1_STRAND_4_TARGET@, NO_KINDS@),
                1,
            ),
        )
    }     else if strand == 5 {
        Some(
            level_info(
                strand_info(10, SEQUENCE_1_STRAND_5_START@, NO_KINDS@),
                strand_info(10, SEQUENCE_1_STRAND_5_TARGET@, NO_KINDS@),
                1,
            ),
        )
    }     else if strand == 6 {
        Some(
            level_info(
                strand_info(13, SEQUENCE_1_STRAND_6_START@, NO_KINDS@),
                strand_info(13, SEQUENCE_1_STRAND_6_TARGET@, NO_KINDS@),
                1,
            ),
        )
    }     else if strand == 7 {
        Some(
            level_info(
                strand_info(13, SEQUENCE_1_STRAND_7_START@, NO_KINDS@),
                strand_info(13, SEQUENCE_1_STRAND_7_TARGET@, NO_KINDS@),
                2,
            ),
        )
    } else {
        None
    }
}

/// The description of a strand of sequence 1.
fn makeStrandInSequence1(strand: StrandNumber) -> (made: Result<LevelInfo, LevelError>)
    ensures
        match made {
            Ok(info) => sequence1(strand.0) == Some(info@),
            Err(error) => sequence1(strand.0) is None && error == LevelError::UnsupportedStrand(
                strand.0,
            ),
        },
{
    let levelInfo = match strand.0 {
        1 => levelInfo(
            strandInfo(3, SEQUENCE_1_STRAND_1_START.as_slice(), NO_KINDS.as_slice()),
            strandInfo(3, SEQUENCE_1_STRAND_1_TARGET.as_slice(), NO_KINDS.as_slice()),
            1,
        ),
        2 => levelInfo(
            strandInfo(5, SEQUENCE_1_STRAND_2_START.as_slice(), NO_KINDS.as_slice()),
            strandInfo(5, SEQUENCE_1_STRAND_2_TARGET.as_slice(), NO_KINDS.as_slice()),
            1,
        ),
        3 => levelInfo(
            strandInfo(11, SEQUENCE_1_STRAND_3_START.as_slice(), NO_KINDS.as_slice()),
            strandInfo(11, SEQUENCE_1_STRAND_3_TARGET.as_slice(), NO_KINDS.as_slice()),
            2,
        ),
        4 => levelInfo(
            strandInfo(11, SEQUENCE_1_STRAND_4_START.as_slice(), NO_KINDS.as_slice()),
            strandInfo(11, SEQUENCE_1_STRAND_4_TARGET.as_slice(), NO_KINDS.as_slice()),
            1,
        ),
        5 => levelInfo(
            strandInfo(10, SEQUENCE_1_STRAND_5_START.as_slice(), NO_KINDS.as_slice()),
            strandInfo(10, SEQUENCE_1_STRAND_5_TARGET.as_slice(), NO_KINDS.as_slice()),
            1,
        ),
        6 => levelInfo(
            strandInfo(13, SEQUENCE_1_STRAND_6_START.as_slice(), NO_KINDS.as_slice()),
            strandInfo(13, SEQUENCE_1_STRAND_6_TARGET.as_slice(), NO_KINDS.as_slice()),
            1,
        ),
        7 => levelInfo(
            strandInfo(13, SEQUENCE_1_STRAND_7_START.as_slice(), NO_KINDS.as_slice()),
            strandInfo(13, SEQUENCE_1_STRAND_7_TARGET.as_slice(), NO_KINDS.as_slice()),
            2,
        ),
        _ => {
            return Err(LevelError::UnsupportedStrand(strand.0));
        },
    };
    Ok(levelInfo)
}

/// The edges of the start strand of strand 1 of sequence 2.
pub const SEQUENCE_2_STRAND_1_START: [Edge; 2] = [(0, 1), (1, 2)];

/// The special cells of the start strand of strand 1 of sequence 2.
pub const SEQUENCE_2_STRAND_1_KINDS: [(NodeId, CellKind); 1] = [(1, CellKind::Doubler)];

/// The edges of the target strand of strand 1 of sequence 2.
pub const SEQUENCE_2_STRAND_1_TARGET: [Edge; 4] = [(0, 1), (1, 2), (0, 3), (3, 4)];

/// The edges of the start strand of strand 2 of sequence 2.
pub const SEQUENCE_2_STRAND_2_START: [Edge; 3] = [(0, 1), (0, 2), (2, 3)];

/// The special cells of the start strand of strand 2 of sequence 2.
pub const SEQUENCE_2_STRAND_2_KINDS: [(NodeId, CellKind); 1] = [(3, CellKind::Doubler)];

/// The edges of the target strand of strand 2 of sequence 2.
pub const SEQUENCE_2_STRAND_2_TARGET: [Edge; 5] = [(0, 1), (1, 2), (2, 3), (1, 4), (4, 5)];

/// The edges of the start strand of strand 3 of sequence 2.
pub const SEQUENCE_2_STRAND_3_START: [Edge; 4] = [(0, 1), (1, 2), (1, 3), (3, 4)];

/// The special cells of the start strand of strand 3 of sequence 2.
pub const SEQUENCE_2_STRAND_3_KINDS: [(NodeId, CellKind); 1] = [(4, CellKind::Doubler)];

/// The edges of the target strand of strand 3 of sequence 2.
pub const SEQUENCE_2_STRAND_3_TARGET: [Edge; 6] = [(0, 1), (1, 2), (2, 3), (0, 4), (4, 5), (5, 6)];

/// The edges of the start strand of strand 4 of sequence 2.
pub const SEQUENCE_2_STRAND_4_START: [Edge; 7] = [
    (0, 1), (1, 2), (2, 3), (2, 4), (4, 5), (1, 6), (6, 7),
];

/// The special cells of the start strand of strand 4 of sequence 2.
pub const SEQUENCE_2_STRAND_4_KINDS: [(NodeId, CellKind); 1] = [(1, CellKind::Doubler)];

/// The edges of the target strand of strand 4 of sequence 2.
pub const SEQUENCE_2_STRAND_4_TARGET: [Edge; 14] = [
    (0, 1), (1, 2), (2, 3), (2, 4), (1, 5), (5, 6), (5, 7), (0, 8), (8, 9), (9, 10), (9, 11),
    (8, 12), (12, 13), (12, 14),
];

/// The edges of the start strand of strand 5 of sequence 2.
pub const SEQUENCE_2_STRAND_5_START: [Edge; 4] = [(0, 1), (1, 2), (2, 3), (1, 4)];

/// The special cells of the start strand of strand 5 of sequence 2.
pub const SEQUENCE_2_STRAND_5_KINDS: [(NodeId, CellKind); 1] = [(3, CellKind::Doubler)];

/// The edges of the target strand of strand 5 of sequence 2.
pub const SEQUENCE_2_STRAND_5_TARGET: [Edge; 7] = [
    (0, 1), (1, 2), (2, 3), (3, 4), (1, 5), (5, 6), (6, 7),
];

/// The edges of the start strand of strand 6 of sequence 2.
pub const SEQUENCE_2_STRAND_6_START: [Edge; 7] = [
    (0, 1), (1, 2), (2, 3), (3, 4), (3, 5), (1, 6), (6, 7),
];

/// The special cells of the start strand of strand 6 of sequence 2.
pub const SEQUENCE_2_STRAND_6_KINDS: [(NodeId, CellKind); 1] = [(3, CellKind::Doubler)];

/// The edges of the target strand of strand 6 of sequence 2.
pub const SEQUENCE_2_STRAND_6_TARGET: [Edge; 11] = [
    (0, 1), (1, 2), (2, 3), (3, 4), (4, 5), (3, 6), (1, 7), (7, 8), (8, 9), (8, 10), (10, 11),
];

/// The edges of the start strand of strand 7 of sequence 2.
pub const SEQUENCE_2_STRAND_7_START: [Edge; 2] = [(0, 1), (1, 2)];

/// The special cells of the start strand of strand 7 of sequence 2.
pub const SEQUENCE_2_STRAND_7_KINDS: [(NodeId, CellKind); 2] = [
    (1, CellKind::Doubler), (2, CellKind::Doubler),
];

/// The edges of the target strand of strand 7 of sequence 2.
pub const SEQUENCE_2_STRAND_7_TARGET: [Edge; 8] = [
    (0, 1), (1, 2), (2, 3), (2, 4), (0, 5), (5, 6), (6, 7), (6, 8),
];

/// The levels of sequence 2: the levels with Doublers.
pub open spec fn sequence2(strand: u8) -> Option<LevelInfoView> {
    if strand == 1 {
        Some(
            level_info(
                strand_info(3, SEQUENCE_2_STRAND_1_START@, SEQUENCE_2_STRAND_1_KINDS@),
                strand_info(5, SEQUENCE_2_STRAND_1_TARGET@, NO_KINDS@),
                1,
            ),
        )
    }     else if strand == 2 {
        Some(
            level_info(
                strand_info(4, SEQUENCE_2_STRAND_2_START@, SEQUENCE_2_STRAND_2_KINDS@),
                strand_info(6, SEQUENCE_2_STRAND_2_TARGET@, NO_KINDS@),
                1,
            ),
        )
    }     else if strand == 3 {
        Some(
            level_info(
                strand_info(5, SEQUENCE_2_STRAND_3_START@, SEQUENCE_2_STRAND_3_KINDS@),
                strand_info(7, SEQUENCE_2_STRAND_3_TARGET@, NO_KINDS@),
                3,
            ),
        )
    }     else if strand == 4 {
        Some(
            level_info(
                strand_info(8, SEQUENCE_2_STRAND_4_START@, SEQUENCE_2_STRAND_4_KINDS@),
                strand_info(15, SEQUENCE_2_STRAND_4_TARGET@, NO_KINDS@),
                1,
            ),
        )
    }     else if strand == 5 {
        Some(
            level_info(
                strand_info(5, SEQUENCE_2_STRAND_5_START@, SEQUENCE_2_STRAND_5_KINDS@),
                strand_info(8, SEQUENCE_2_STRAND_5_TARGET@, NO_KINDS@),
                2,
            ),
        )
    }     else if strand == 6 {
        Some(
            level_info(
                strand_info(8, SEQUENCE_2_STRAND_6_START@, SEQUENCE_2_STRAND_6_KINDS@),
                strand_info(12, SEQUENCE_2_STRAND_6_TARGET@, NO_KINDS@),
                3,
            ),
        )
    }     else if strand == 7 {
        Some(
            level_info(
                strand_info(3, SEQUENCE_2_STRAND_7_START@, SEQUENCE_2_STRAND_7_KINDS@),
                strand_info(9, SEQUENCE_2_STRAND_7_TARGET@, NO_KINDS@),
                2,
            ),
        )
    } else {
        None
    }
}

/// The description of a strand of sequence 2.
fn makeStrandInSequence2(strand: StrandNumber) -> (made: Result<LevelInfo, LevelError>)
    ensures
        match made {
            Ok(info) => sequence2(strand.0) == Some(info@),
            Err(error) => sequence2(strand.0) is None && error == LevelError::UnsupportedStrand(
                strand.0,
            ),
        },
{
    let levelInfo = match strand.0 {
        1 => levelInfo(
            strandInfo(3, SEQUENCE_2_STRAND_1_START.as_slice(), SEQUENCE_2_STRAND_1_KINDS.as_slice()),
            strandInfo(5, SEQUENCE_2_STRAND_1_TARGET.as_slice(), NO_KINDS.as_slice()),
            1,
        ),
        2 => levelInfo(
            strandInfo(4, SEQUENCE_2_STRAND_2_START.as_slice(), SEQUENCE_2_STRAND_2_KINDS.as_slice()),
            strandInfo(6, SEQUENCE_2_STRAND_2_TARGET.as_slice(), NO_KINDS.as_slice()),
            1,
        ),
        3 => levelInfo(
            strandInfo(5, SEQUENCE_2_STRAND_3_START.as_slice(), SEQUENCE_2_STRAND_3_KINDS.as_slice()),
            strandInfo(7, SEQUENCE_2_STRAND_3_TARGET.as_slice(), NO_KINDS.as_slice()),
            3,
        ),
        4 => levelInfo(
            strandInfo(8, SEQUENCE_2_STRAND_4_START.as_slice(), SEQUENCE_2_STRAND_4_KINDS.as_slice()),
            strandInfo(15, SEQUENCE_2_STRAND_4_TARGET.as_slice(), NO_KINDS.as_slice()),
            1,
        ),
        5 => levelInfo(
            strandInfo(5, SEQUENCE_2_STRAND_5_START.as_slice(), SEQUENCE_2_STRAND_5_KINDS.as_slice()),
            strandInfo(8, SEQUENCE_2_STRAND_5_TARGET.as_slice(), NO_KINDS.as_slice()),
            2,
        ),
        6 => levelInfo(
            strandInfo(8, SEQUENCE_2_STRAND_6_START.as_slice(), SEQUENCE_2_STRAND_6_KINDS.as_slice()),
            strandInfo(12, SEQUENCE_2_STRAND_6_TARGET.as_slice(), NO_KINDS.as_slice()),
            3,
        ),
        7 => levelInfo(
            strandInfo(3, SEQUENCE_2_STRAND_7_START.as_slice(), SEQUENCE_2_STRAND_7_KINDS.as_slice()),
            strandInfo(9, SEQUENCE_2_STRAND_7_TARGET.as_slice(), NO_KINDS.as_slice()),
            2,
        ),
        _ => {
            return Err(LevelError::UnsupportedStrand(strand.0));
        },
    };
    Ok(levelInfo)
}

/// The edges of the start strand of strand 1 of sequence 3.
pub const SEQUENCE_3_STRAND_1_START: [Edge; 3] = [(0, 1), (1, 2), (1, 3)];

/// The special cells of the start strand of strand 1 of sequence 3.
pub const SEQUENCE_3_STRAND_1_KINDS: [(NodeId, CellKind); 2] = [
    (1, CellKind::Doubler), (3, CellKind::Extender),
];

/// The edges of the target strand of strand 1 of sequence 3.
pub const SEQUENCE_3_STRAND_1_TARGET: [Edge; 8] = [
    (0, 1), (1, 2), (1, 3), (3, 4), (0, 5), (5, 6), (6, 7), (5, 8),
];

/// The edges of the start strand of strand 2 of sequence 3.
pub const SEQUENCE_3_STRAND_2_START: [Edge; 5] = [(0, 1), (1, 2), (1, 3), (3, 4), (4, 5)];

/// The special cells of the start strand of strand 2 of sequence 3.
pub const SEQUENCE_3_STRAND_2_KINDS: [(NodeId, CellKind); 3] = [
    (1, CellKind::Extender), (4, CellKind::Extender), (5, CellKind::Extender),
];

/// The edges of the target strand of strand 2 of sequence 3.
pub const SEQUENCE_3_STRAND_2_TARGET: [Edge; 8] = [
    (0, 1), (1, 2), (2, 3), (2, 4), (0, 5), (5, 6), (6, 7), (6, 8),
];

/// The edges of the start strand of strand 3 of sequence 3.
pub const SEQUENCE_3_STRAND_3_START: [Edge; 4] = [(0, 1), (1, 2), (2, 3), (3, 4)];

/// The special cells of the start strand of strand 3 of sequence 3.
pub const SEQUENCE_3_STRAND_3_KINDS: [(NodeId, CellKind); 2] = [
    (1, CellKind::Doubler), (4, CellKind::Extender),
];

/// The edges of the target strand of strand 3 of sequence 3.
pub const SEQUENCE_3_STRAND_3_TARGET: [Edge; 10] = [
    (0, 1), (1, 2), (2, 3), (1, 4), (4, 5), (0, 6), (6, 7), (7, 8), (6, 9), (9, 10),
];

/// The edges of the start strand of strand 4 of sequence 3.
pub const SEQUENCE_3_STRAND_4_START: [Edge; 6] = [(0, 1), (1, 2), (1, 3), (0, 4), (4, 5), (5, 6)];

/// The special cells of the start strand of strand 4 of sequence 3.
pub const SEQUENCE_3_STRAND_4_KINDS: [(NodeId, CellKind); 2] = [
    (4, CellKind::Extender), (5, CellKind::Doubler),
];

/// The edges of the target strand of strand 4 of sequence 3.
pub const SEQUENCE_3_STRAND_4_TARGET: [Edge; 12] = [
    (0, 1), (1, 2), (2, 3), (3, 4), (4, 5), (3, 6), (6, 7), (2, 8), (8, 9), (9, 10), (8, 11),
    (11, 12),
];

/// The edges of the start strand of strand 5 of sequence 3.
pub const SEQUENCE_3_STRAND_5_START: [Edge; 6] = [(0, 1), (0, 2), (2, 3), (3, 4), (2, 5), (5, 6)];

/// The special cells of the start strand of strand 5 of sequence 3.
pub const SEQUENCE_3_STRAND_5_KINDS: [(NodeId, CellKind); 3] = [
    (1, CellKind::Extender), (4, CellKind::Doubler), (6, CellKind::Doubler),
];

/// The edges of the target strand of strand 5 of sequence 3.
pub const SEQUENCE_3_STRAND_5_TARGET: [Edge; 9] = [
    (0, 1), (1, 2), (2, 3), (2, 4), (4, 5), (1, 6), (6, 7), (7, 8), (6, 9),
];

/// The edges of the start strand of strand 6 of sequence 3.
pub const SEQUENCE_3_STRAND_6_START: [Edge; 5] = [(0, 1), (1, 2), (1, 3), (3, 4), (4, 5)];

/// The special cells of the start strand of strand 6 of sequence 3.
pub const SEQUENCE_3_STRAND_6_KINDS: [(NodeId, CellKind); 3] = [
    (3, CellKind::Extender), (4, CellKind::Doubler), (5, CellKind::Doubler),
];

/// The edges of the target strand of strand 6 of sequence 3.
pub const SEQUENCE_3_STRAND_6_TARGET: [Edge; 8] = [
    (0, 1), (1, 2), (2, 3), (2, 4), (0, 5), (5, 6), (6, 7), (6, 8),
];

/// The edges of the start strand of strand 7 of sequence 3.
pub const SEQUENCE_3_STRAND_7_START: [Edge; 5] = [(0, 1), (0, 2), (2, 3), (3, 4), (4, 5)];

/// The special cells of the start strand of strand 7 of sequence 3.
pub const SEQUENCE_3_STRAND_7_KINDS: [(NodeId, CellKind); 3] = [
    (3, CellKind::Doubler), (4, CellKind::Doubler), (5, CellKind::Extender),
];

/// The edges of the target strand of strand 7 of sequence 3.
pub const SEQUENCE_3_STRAND_7_TARGET: [Edge; 12] = [
    (0, 1), (1, 2), (2, 3), (1, 4), (4, 5), (0, 6), (6, 7), (7, 8), (7, 9), (6, 10), (10, 11),
    (10, 12),
];

/// The levels of sequence 3: the levels with Doublers and Extenders.
pub open spec fn sequence3(strand: u8) -> Option<LevelInfoView> {
    if strand == 1 {
        Some(
            level_info(
                strand_info(4, SEQUENCE_3_STRAND_1_START@, SEQUENCE_3_STRAND_1_KINDS@),
                strand_info(9, SEQUENCE_3_STRAND_1_TARGET@, NO_KINDS@),
                1,
            ),
        )
    }     else if strand == 2 {
        Some(
            level_info(
                strand_info(6, SEQUENCE_3_STRAND_2_START@, SEQUENCE_3_STRAND_2_KINDS@),
                strand_info(9, SEQUENCE_3_STRAND_2_TARGET@, NO_KINDS@),
                2,
            ),
        )
    }     else if strand == 3 {
        Some(
            level_info(
                strand_info(5, SEQUENCE_3_STRAND_3_START@, SEQUENCE_3_STRAND_3_KINDS@),
                strand_info(11, SEQUENCE_3_STRAND_3_TARGET@, NO_KINDS@),
                1,
            ),
        )
    }     else if strand == 4 {
        Some(
            level_info(
                strand_info(7, SEQUENCE_3_STRAND_4_START@, SEQUENCE_3_STRAND_4_KINDS@),
                strand_info(13, SEQUENCE_3_STRAND_4_TARGET@, NO_KINDS@),
                2,
            ),
        )
    }     else if strand == 5 {
        Some(
            level_info(
                strand_info(7, SEQUENCE_3_STRAND_5_START@, SEQUENCE_3_STRAND_5_KINDS@),
                strand_info(10, SEQUENCE_3_STRAND_5_TARGET@, NO_KINDS@),
                2,
            ),
        )
    }     else if strand == 6 {
        Some(
            level_info(
                strand_info(6, SEQUENCE_3_STRAND_6_START@, SEQUENCE_3_STRAND_6_KINDS@),
                strand_info(9, SEQUENCE_3_STRAND_6_TARGET@, NO_KINDS@),
                2,
            ),
        )
    }     else if strand == 7 {
        Some(
            level_info(
                strand_info(6, SEQUENCE_3_STRAND_7_START@, SEQUENCE_3_STRAND_7_KINDS@),
                strand_info(13, SEQUENCE_3_STRAND_7_TARGET@, NO_KINDS@),
                2,
            ),
        )
    } else {
        None
    }
}

/// The description of a strand of sequence 3.
fn makeStrandInSequence3(strand: StrandNumber) -> (made: Result<LevelInfo, LevelError>)
    ensures
        match made {
            Ok(info) => sequence3(strand.0) == Some(info@),
            Err(error) => sequence3(strand.0) is None && error == LevelError::UnsupportedStrand(
                strand.0,
            ),
        },
{
    let levelInfo = match strand.0 {
        1 => levelInfo(
            strandInfo(4, SEQUENCE_3_STRAND_1_START.as_slice(), SEQUENCE_3_STRAND_1_KINDS.as_slice()),
            strandInfo(9, SEQUENCE_3_STRAND_1_TARGET.as_slice(), NO_KINDS.as_slice()),
            1,
        ),
        2 => levelInfo(
            strandInfo(6, SEQUENCE_3_STRAND_2_START.as_slice(), SEQUENCE_3_STRAND_2_KINDS.as_slice()),
            strandInfo(9, SEQUENCE_3_STRAND_2_TARGET.as_slice(), NO_KINDS.as_slice()),
            2,
        ),
        3 => levelInfo(
            strandInfo(5, SEQUENCE_3_STRAND_3_START.as_slice(), SEQUENCE_3_STRAND_3_KINDS.as_slice()),
            strandInfo(11, SEQUENCE_3_STRAND_3_TARGET.as_slice(), NO_KINDS.as_slice()),
            1,
        ),
        4 => levelInfo(
            strandInfo(7, SEQUENCE_3_STRAND_4_START.as_slice(), SEQUENCE_3_STRAND_4_KINDS.as_slice()),
            strandInfo(13, SEQUENCE_3_STRAND_4_TARGET.as_slice(), NO_KINDS.as_slice()),
            2,
        ),
        5 => levelInfo(
            strandInfo(7, SEQUENCE_3_STRAND_5_START.as_slice(), SEQUENCE_3_STRAND_5_KINDS.as_slice()),
            strandInfo(10, SEQUENCE_3_STRAND_5_TARGET.as_slice(), NO_KINDS.as_slice()),
            2,
        ),
        6 => levelInfo(
            strandInfo(6, SEQUENCE_3_STRAND_6_START.as_slice(), SEQUENCE_3_STRAND_6_KINDS.as_slice()),
            strandInfo(9, SEQUENCE_3_STRAND_6_TARGET.as_slice(), NO_KINDS.as_slice()),
            2,
        ),
        7 => levelInfo(
            strandInfo(6, SEQUENCE_3_STRAND_7_START.as_slice(), SEQUENCE_3_STRAND_7_KINDS.as_slice()),
            strandInfo(13, SEQUENCE_3_STRAND_7_TARGET.as_slice(), NO_KINDS.as_slice()),
            2,
        ),
        _ => {
            return Err(LevelError::UnsupportedStrand(strand.0));
        },
    };
    Ok(levelInfo)
}

/// The edges of the start strand of strand 1 of sequence 4.
pub const SEQUENCE_4_STRAND_1_START: [Edge; 5] = [(0, 1), (1, 2), (1, 3), (0, 4), (4, 5)];

/// The special cells of the start strand of strand 1 of sequence 4.
pub const SEQUENCE_4_STRAND_1_KINDS: [(NodeId, CellKind); 2] = [
    (2, CellKind::Eraser), (4, CellKind::Eraser),
];

/// The edges of the target strand of strand 1 of sequence 4.
pub const SEQUENCE_4_STRAND_1_TARGET: [Edge; 2] = [(0, 1), (1, 2)];

/// The edges of the start strand of strand 2 of sequence 4.
pub const SEQUENCE_4_STRAND_2_START: [Edge; 6] = [(0, 1), (1, 2), (1, 3), (0, 4), (4, 5), (4, 6)];

/// The special cells of the start strand of strand 2 of sequence 4.
pub const SEQUENCE_4_STRAND_2_KINDS: [(NodeId, CellKind); 1] = [(2, CellKind::Eraser)];

/// The edges of the target strand of strand 2 of sequence 4.
pub const SEQUENCE_4_STRAND_2_TARGET: [Edge; 2] = [(0, 1), (1, 2)];

/// The edges of the start strand of strand 3 of sequence 4.
pub const SEQUENCE_4_STRAND_3_START: [Edge; 10] = [
    (0, 1), (1, 2), (1, 3), (3, 4), (3, 5), (0, 6), (6, 7), (7, 8), (7, 9), (6, 10),
];

/// The special cells of the start strand of strand 3 of sequence 4.
pub const SEQUENCE_4_STRAND_3_KINDS: [(NodeId, CellKind); 1] = [(5, CellKind::Eraser)];

/// The edges of the target strand of strand 3 of sequence 4.
pub const SEQUENCE_4_STRAND_3_TARGET: [Edge; 8] = [
    (0, 1), (1, 2), (2, 3), (2, 4), (0, 5), (5, 6), (6, 7), (6, 8),
];

/// The edges of the start strand of strand 4 of sequence 4.
pub const SEQUENCE_4_STRAND_4_START: [Edge; 10] = [
    (0, 1), (1, 2), (1, 3), (0, 4), (4, 5), (5, 6), (4, 7), (7, 8), (8, 9), (7, 10),
];

/// The special cells of the start strand of strand 4 of sequence 4.
pub const SEQUENCE_4_STRAND_4_KINDS: [(NodeId, CellKind); 3] = [
    (2, CellKind::Eraser), (4, CellKind::Eraser), (6, CellKind::Eraser),
];

/// The edges of the target strand of strand 4 of sequence 4.
pub const SEQUENCE_4_STRAND_4_TARGET: [Edge; 5] = [(0, 1), (1, 2), (2, 3), (1, 4), (4, 5)];

/// The levels of sequence 4: the levels with Erasers.
pub open spec fn sequence4(strand: u8) -> Option<LevelInfoView> {
    if strand == 1 {
        Some(
            level_info(
                strand_info(6, SEQUENCE_4_STRAND_1_START@, SEQUENCE_4_STRAND_1_KINDS@),
                strand_info(3, SEQUENCE_4_STRAND_1_TARGET@, NO_KINDS@),
                0,
            ),
        )
    }     else if strand == 2 {
        Some(
            level_info(
                strand_info(7, SEQUENCE_4_STRAND_2_START@, SEQUENCE_4_STRAND_2_KINDS@),
                strand_info(3, SEQUENCE_4_STRAND_2_TARGET@, NO_KINDS@),
                1,
            ),
        )
    }     else if strand == 3 {
        Some(
            level_info(
                strand_info(11, SEQUENCE_4_STRAND_3_START@, SEQUENCE_4_STRAND_3_KINDS@),
                strand_info(9, SEQUENCE_4_STRAND_3_TARGET@, NO_KINDS@),
                2,
            ),
        )
    }     else if strand == 4 {
        Some(
            level_info(
                strand_info(11, SEQUENCE_4_STRAND_4_START@, SEQUENCE_4_STRAND_4_KINDS@),
                strand_info(6, SEQUENCE_4_STRAND_4_TARGET@, NO_KINDS@),
                3,
            ),
        )
    } else {
        None
    }
}

/// The description of a strand of sequence 4.
fn makeStrandInSequence4(strand: StrandNumber) -> (made: Result<LevelInfo, LevelError>)
    ensures
        match made {
            Ok(info) => sequence4(strand.0) == Some(info@),
            Err(error) => sequence4(strand.0) is None && error == LevelError::UnsupportedStrand(
                strand.0,
            ),
        },
{
    let levelInfo = match strand.0 {
        1 => levelInfo(
            strandInfo(6, SEQUENCE_4_STRAND_1_START.as_slice(), SEQUENCE_4_STRAND_1_KINDS.as_slice()),
            strandInfo(3, SEQUENCE_4_STRAND_1_TARGET.as_slice(), NO_KINDS.as_slice()),
            0,
        ),
        2 => levelInfo(
            strandInfo(7, SEQUENCE_4_STRAND_2_START.as_slice(), SEQUENCE_4_STRAND_2_KINDS.as_slice()),
            strandInfo(3, SEQUENCE_4_STRAND_2_TARGET.as_slice(), NO_KINDS.as_slice()),
            1,
        ),
        3 => levelInfo(
            strandInfo(11, SEQUENCE_4_STRAND_3_START.as_slice(), SEQUENCE_4_STRAND_3_KINDS.as_slice()),
            strandInfo(9, SEQUENCE_4_STRAND_3_TARGET.as_slice(), NO_KINDS.as_slice()),
            2,
        ),
        4 => levelInfo(
            strandInfo(11, SEQUENCE_4_STRAND_4_START.as_slice(), SEQUENCE_4_STRAND_4_KINDS.as_slice()),
            strandInfo(6, SEQUENCE_4_STRAND_4_TARGET.as_slice(), NO_KINDS.as_slice()),
            3,
        ),
        _ => {
            return Err(LevelError::UnsupportedStrand(strand.0));
        },
    };
    Ok(levelInfo)
}

/// The level of the given numbers, as the catalogue describes it.
pub open spec fn catalogue(sequence: u8, strand: u8) -> Option<LevelInfoView> {
    if sequence == 1 {
        sequence1(strand)
    } else if sequence == 2 {
        sequence2(strand)
    } else if sequence == 3 {
        sequence3(strand)
    } else if sequence == 4 {
        sequence4(strand)
    } else {
        None
    }
}

/// The description gives a strand.
pub open spec fn describes_strand(info: StrandInfoView) -> bool {
    builds_tree(info.nodeCount, info.edges, info.mutables)
}

/// The strand that the description gives.
pub open spec fn described_strand(info: StrandInfoView) -> Slots {
    built(info.nodeCount, info.edges, info.mutables)
}

/// The level that the description gives.
pub open spec fn described_level(info: LevelInfoView) -> LevelView {
    LevelView {
        start: described_strand(info.start),
        target: described_strand(info.target),
        maxSplices: info.maxSplices,
    }
}

/// What `makeLevel` returns for the given numbers: the level of the
/// catalogue, or the reason why there is none. The numbers are tested in
/// this order: a sequence number of 0, a strand number of 0, a sequence that
/// does not exist, a strand that the sequence does not have.
pub open spec fn made_level(sequence: u8, strand: u8) -> Result<LevelView, LevelError> {
    if sequence == 0 {
        Err(LevelError::SequenceZero)
    } else if strand == 0 {
        Err(LevelError::StrandZero)
    } else if sequence > 4 {
        Err(LevelError::UnsupportedSequence(sequence))
    } else {
        match catalogue(sequence, strand) {
            None => Err(LevelError::UnsupportedStrand(strand)),
            Some(info) => if describes_strand(info.start) && describes_strand(info.target) {
                Ok(described_level(info))
            } else {
                Err(LevelError::Malformed)
            },
        }
    }
}

/// What a level, or the reason why there is none, is as the contracts see
/// it.
pub open spec fn made_view(made: Result<Level, LevelError>) -> Result<LevelView, LevelError> {
    match made {
        Ok(level) => Ok(level@),
        Err(error) => Err(error),
    }
}

/// Whether the description gives a strand.
pub fn describesStrand(strandInfo: &StrandInfo) -> (fits: bool)
    ensures
        fits == describes_strand(strandInfo@),
{
    Strand::tryNew(strandInfo.nodeCount, strandInfo.edges, strandInfo.mutables).is_some()
}

/// The strand that the description gives.
pub fn makeStrand(strandInfo: &StrandInfo) -> (strand: Strand)
    requires
        describes_strand(strandInfo@),
    ensures
        strand@ == described_strand(strandInfo@),
{
    Strand::new(strandInfo.nodeCount, strandInfo.edges, strandInfo.mutables)
}

/// The level that the description gives.
pub fn makeLevelFrom(levelInfo: LevelInfo) -> (level: Level)
    requires
        describes_strand(levelInfo@.start),
        describes_strand(levelInfo@.target),
    ensures
        level@ == described_level(levelInfo@),
{
    let start = makeStrand(&levelInfo.start);
    let target = makeStrand(&levelInfo.target);
    Level { start, target, maxSplices: levelInfo.maxSplices }
}

/// The level of the given numbers, both counted from 1.
pub fn makeLevel(sequence: SequenceNumber, strand: StrandNumber) -> (made: Result<Level, LevelError>)
    ensures
        made_view(made) == made_level(sequence.0, strand.0),
{
    if sequence.0 == 0 {
        return Err(LevelError::SequenceZero);
    }
    if strand.0 == 0 {
        return Err(LevelError::StrandZero);
    }
    let described = match sequence.0 {
        1 => makeStrandInSequence1(strand),
        2 => makeStrandInSequence2(strand),
        3 => makeStrandInSequence3(strand),
        4 => makeStrandInSequence4(strand),
        _ => {
            return Err(LevelError::UnsupportedSequence(sequence.0));
        },
    };
    match described {
        Ok(levelInfo) => {
            if describesStrand(&levelInfo.start) && describesStrand(&levelInfo.target) {
                Ok(makeLevelFrom(levelInfo))
            } else {
                Err(LevelError::Malformed)
            }
        },
        Err(error) => Err(error),
    }
}

} // verus!
