//! What the optimizer asks of a segment.

use vstd::prelude::*;
use crate::types::{PointIdType, SeqNumberType, SegmentError};
use crate::point_map::{PointMap, lookup, upsert_applies, upsert, delete_applies, delete, later, version_after, merge, bounded_by};

verus! {

/// A store of points with versioned mutation.
///
/// The optimizer and the holder work with any implementation. They rely on
/// nothing but the contracts below, which are stated over [`SegmentEntry::points`].
pub trait SegmentEntry: Sized {
    /// The invariant of the implementation. Every method keeps it.
    spec fn wf(&self) -> bool;

    /// The points of the segment, each with the version of its last write.
    spec fn points(&self) -> PointMap;

    /// The latest version that the segment has seen.
    spec fn spec_version(&self) -> SeqNumberType;

    /// Whether writing to, deleting from and copying a segment of this kind
    /// always succeeds. A kind that keeps its points in memory can say so; a
    /// kind over storage that may fail cannot.
    spec fn never_fails() -> bool;

    /// The version of the segment. No point is later than it.
    fn version(&self) -> (v: SeqNumberType)
        requires
            self.wf(),
        ensures
            v == self.spec_version(),
            bounded_by(self.points(), v),
    ;

    /// Number of points.
    fn vectors_count(&self) -> (n: usize)
        requires
            self.wf(),
        ensures
            self.points().dom().finite(),
            n == self.points().dom().len(),
    ;

    fn has_point(&self, point_id: PointIdType) -> (b: bool)
        requires
            self.wf(),
        ensures
            b == self.points().contains_key(point_id),
    ;

    fn point_version(&self, point_id: PointIdType) -> (v: Option<SeqNumberType>)
        requires
            self.wf(),
        ensures
            v == lookup(self.points(), point_id),
    ;

    /// The ids of all points, each once, in no particular order.
    fn point_ids(&self) -> (ids: Vec<PointIdType>)
        requires
            self.wf(),
        ensures
            ids@.to_set() == self.points().dom(),
            ids@.no_duplicates(),
    ;

    /// Writes a point. Returns whether the write took effect. A failure leaves
    /// the segment as it was.
    fn upsert_point(&mut self, op_num: SeqNumberType, point_id: PointIdType) -> (r: Result<bool, SegmentError>)
        requires
            old(self).wf(),
        ensures
            final(self).wf(),
            Self::never_fails() ==> r is Ok,
            match r {
                Ok(applied) => {
                    &&& applied == upsert_applies(old(self).points(), op_num, point_id)
                    &&& final(self).points() == upsert(old(self).points(), op_num, point_id)
                    &&& final(self).spec_version() == version_after(old(self).spec_version(), op_num, applied)
                },
                Err(_) => {
                    &&& final(self).points() == old(self).points()
                    &&& final(self).spec_version() == old(self).spec_version()
                },
            },
    ;

    /// Deletes a point. Returns whether the delete took effect. Deleting an
    /// absent point is no failure: it succeeds and does nothing. A failure
    /// leaves the segment as it was.
    fn delete_point(&mut self, op_num: SeqNumberType, point_id: PointIdType) -> (r: Result<bool, SegmentError>)
        requires
            old(self).wf(),
        ensures
            final(self).wf(),
            Self::never_fails() ==> r is Ok,
            !old(self).points().contains_key(point_id) ==> r is Ok,
            match r {
                Ok(applied) => {
                    &&& applied == delete_applies(old(self).points(), op_num, point_id)
                    &&& final(self).points() == delete(old(self).points(), op_num, point_id)
                    &&& final(self).spec_version() == version_after(old(self).spec_version(), op_num, applied)
                },
                Err(_) => {
                    &&& final(self).points() == old(self).points()
                    &&& final(self).spec_version() == old(self).spec_version()
                },
            },
    ;

    /// Merges all points of `other` into this segment.
    fn update_from(&mut self, other: &Self)
        requires
            old(self).wf(),
            other.wf(),
        ensures
            final(self).wf(),
            final(self).points() == merge(old(self).points(), other.points()),
            final(self).spec_version() == later(old(self).spec_version(), other.spec_version()),
    ;

    /// Builds the search index. The points stay as they are.
    fn build_index(&mut self)
        requires
            old(self).wf(),
        ensures
            final(self).wf(),
            final(self).points() == old(self).points(),
            final(self).spec_version() == old(self).spec_version(),
    ;

    /// An independent copy of the segment, or a failure.
    fn mk_copy(&self) -> (r: Result<Self, SegmentError>)
        requires
            self.wf(),
        ensures
            Self::never_fails() ==> r is Ok,
            r matches Ok(copy) ==> {
                &&& copy.wf()
                &&& copy.points() == self.points()
                &&& copy.spec_version() == self.spec_version()
            },
    ;
}

} // verus!
