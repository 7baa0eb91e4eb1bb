//! The error kinds the storage layer reports.

use vstd::prelude::*;

verus! {

/// Every failure the storage layer can report to its caller.
///
/// Each variant is tied to one operation: page lookup, insert, encoding and
/// decoding respectively. No operation panics; every failure comes back as
/// one of these.
#[derive(Clone, Copy, Debug, PartialEq, Eq, Structural)]
pub enum StoreError {
    /// A requested page index lies at or beyond the fixed page capacity.
    PageIndexOutOfBounds,
    /// The table has reached its page-capacity-derived row ceiling; the
    /// insert was rejected and no state changed.
    TableFull,
    /// A text value is longer than its column's fixed slot; the insert was
    /// rejected before any write.
    ValueTooLarge,
    /// A stored row's bytes are inconsistent (a length prefix that would
    /// read past its slot, or text that is not well-formed); surfaced
    /// per-row while reading.
    CorruptRow,
}

} // verus!
