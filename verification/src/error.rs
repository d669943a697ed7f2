//! Errors raised while planning or running a scan.

use vstd::prelude::*;

verus! {

/// What can stop a scan.
#[derive(Debug, Clone, PartialEq, Eq)]
pub enum ScanError {
    /// The file is too short to hold a trailer, the declared trailer length
    /// does not fit in the file, or the decoded metadata is inconsistent.
    BadTrailer,
    /// A projected column or the field of a predicate is not in the metadata.
    /// Carries the offending name.
    UnknownColumn(String),
    /// A predicate is disjunctive, uses an unknown operator, or compares with
    /// a value whose type differs from the column's. Carries the position of
    /// the predicate in the list that was supplied.
    UnsupportedPredicate(usize),
    /// Zone-map pruning removed every block; the scan has no rows.
    EmptyScan,
    /// A cell could not be decoded: its bytes lie outside the file, or a
    /// string slot has no zero terminator. Carries the block and the row
    /// within the block.
    CorruptRow { block: u32, row: u32 },
}

} // verus!
