//! Which level is chosen, and how the choice changes.
use crate::level_maker::{SequenceNumber, StrandNumber};
use vstd::prelude::*;

verus! {

/// The level that is chosen and the highest strand number that can be.
pub struct LevelSelection {
    pub sequenceNumber: SequenceNumber,
    pub strandNumber: StrandNumber,
    pub maxStrandNumber: StrandNumber,
}

/// The number of strands of a sequence: 7 in the sequences 1 to 4, 2 in
/// sequence 5.
pub open spec fn strands_in(sequence: u8) -> u8 {
    if sequence == 5 {
        2
    } else {
        7
    }
}

impl LevelSelection {
    /// The first strand of the first sequence.
    pub fn new() -> (selection: Self)
        ensures
            selection.sequenceNumber.0 == 1,
            selection.strandNumber.0 == 1,
            selection.maxStrandNumber.0 == 7,
    {
        LevelSelection {
            sequenceNumber: SequenceNumber(1),
            strandNumber: StrandNumber(1),
            maxStrandNumber: StrandNumber(7),
        }
    }

    /// Another sequence is chosen, and with it its first strand.
    pub fn onSequenceNumberChanged(&mut self, value: i32)
        requires
            1 <= value <= 5,
        ensures
            final(self).sequenceNumber.0 == value,
            final(self).strandNumber.0 == 1,
            final(self).maxStrandNumber.0 == strands_in(value as u8),
    {
        self.sequenceNumber = SequenceNumber(value as u8);
        self.strandNumber = StrandNumber(1);
        self.maxStrandNumber = StrandNumber(
            if self.sequenceNumber.0 == 5 {
                2
            } else {
                7
            },
        );
    }

    /// Another strand is chosen. Returns whether the choice changed.
    pub fn onStrandNumberChanged(&mut self, value: i32) -> (changed: bool)
        requires
            0 <= value <= 255,
        ensures
            changed == (old(self).strandNumber.0 != value),
            final(self).strandNumber.0 == value,
            final(self).sequenceNumber == old(self).sequenceNumber,
            final(self).maxStrandNumber == old(self).maxStrandNumber,
    {
        let newStrandNumber = StrandNumber(value as u8);
        if self.strandNumber == newStrandNumber {
            return false;
        }
        self.strandNumber = newStrandNumber;
        true
    }
}

} // verus!
