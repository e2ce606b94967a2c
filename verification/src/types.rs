//! Identifiers and error types shared by all modules.

use vstd::prelude::*;

verus! {

/// Identifier of a point, unique within a collection.
pub type PointIdType = u64;

/// Version of a write. Every mutation of a segment carries one.
pub type SeqNumberType = u64;

/// Identifier of a segment inside a holder.
pub type SegmentId = usize;

/// Identifier of the write window of one optimization run.
pub type WindowId = usize;

/// A failure that a segment reports from its storage.
#[derive(Debug, Clone, Copy, PartialEq, Eq, Structural)]
pub enum SegmentError {
    /// The storage below the segment could not carry out the operation.
    ServiceError,
}

/// Why an operation on the collection did not complete.
#[derive(Debug, Clone, Copy, PartialEq, Eq, Structural)]
pub enum OperationError {
    /// The holder has no segment under the given id.
    SegmentNotFound,
    /// The holder has no write window under the given id.
    WindowNotFound,
    /// A segment could not be copied. The holder was not changed.
    SnapshotFailed,
    /// A point could not be deleted from the merged segment. The holder is as
    /// it was when the step began, so proxies that were live then are still
    /// live.
    BuildFailed,
    /// A segment reported a failure from its storage. Nothing was changed.
    ServiceError,
    /// The holder cannot give out the ids that the operation needs. Nothing
    /// was changed.
    OutOfIds,
}

pub type OperationResult<T> = Result<T, OperationError>;

} // verus!
