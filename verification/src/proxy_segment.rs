//! Proxies, and the write window that the proxies of one run share.

use vstd::prelude::*;
use std::collections::HashSet;
use crate::types::{PointIdType, SeqNumberType, SegmentError, WindowId};
use crate::point_map::{PointMap, later, lookup, delete_applies, upsert_applies};
use crate::model::{WindowView, SegmentView, proxy_points};
use crate::entry::SegmentEntry;
use crate::listing::{listing, lemma_take_step, lemma_take_ends};
use crate::segment_optimizer::delete_points;

verus! {

broadcast use vstd::std_specs::hash::group_hash_axioms;

/// The write segment and the deletion set of one optimization run.
///
/// While a run lasts, every write against one of its proxies lands in the
/// write segment, and every delete is recorded in the deletion set.
pub struct WriteWindow<S> {
    write_segment: S,
    deleted_points: HashSet<PointIdType>,
}

impl<S: SegmentEntry> WriteWindow<S> {
    pub closed spec fn wf(&self) -> bool {
        self.write_segment.wf()
    }

    pub closed spec fn view(&self) -> WindowView {
        WindowView {
            written: self.write_segment.points(),
            version: self.write_segment.spec_version(),
            deleted: self.deleted_points@,
        }
    }

    /// A window over `write_segment` with nothing deleted.
    pub fn new(write_segment: S) -> (window: Self)
        requires
            write_segment.wf(),
        ensures
            window.wf(),
            window@ == WindowView::fresh(write_segment.points(), write_segment.spec_version()),
    {
        WriteWindow { write_segment, deleted_points: HashSet::new() }
    }

    /// Writes a point to the write segment. It fails only if the write segment
    /// does, and then changes nothing.
    pub fn upsert_point(&mut self, op_num: SeqNumberType, point_id: PointIdType) -> (r: Result<bool, SegmentError>)
        requires
            old(self).wf(),
        ensures
            final(self).wf(),
            S::never_fails() ==> r is Ok,
            match r {
                Ok(applied) => {
                    &&& applied == upsert_applies(old(self)@.written, op_num, point_id)
                    &&& final(self)@ == old(self)@.upsert(op_num, point_id)
                },
                Err(_) => final(self)@ == old(self)@,
            },
    {
        self.write_segment.upsert_point(op_num, point_id)
    }

    /// Records the delete and carries it out on the write segment. Returns
    /// whether the write segment held the point and gave it up. It fails only
    /// if the write segment does, which it does not on a point that it does not
    /// hold; a failure changes nothing.
    pub fn delete_point(&mut self, op_num: SeqNumberType, point_id: PointIdType) -> (r: Result<bool, SegmentError>)
        requires
            old(self).wf(),
        ensures
            final(self).wf(),
            S::never_fails() ==> r is Ok,
            !old(self)@.written.contains_key(point_id) ==> r is Ok,
            match r {
                Ok(applied) => {
                    &&& applied == delete_applies(old(self)@.written, op_num, point_id)
                    &&& final(self)@ == old(self)@.delete(op_num, point_id)
                },
                Err(_) => final(self)@ == old(self)@,
            },
    {
        match self.write_segment.delete_point(op_num, point_id) {
            Ok(applied) => {
                self.deleted_points.insert(point_id);
                Ok(applied)
            },
            Err(e) => Err(e),
        }
    }

    pub fn is_deleted(&self, point_id: PointIdType) -> (b: bool)
        ensures
            b == self@.deleted.contains(point_id),
    {
        self.deleted_points.contains(&point_id)
    }

    /// A copy of the deletion set as it is now.
    pub fn deleted_points(&self) -> (snapshot: HashSet<PointIdType>)
        ensures
            snapshot@ == self@.deleted,
    {
        let ids = listing(&self.deleted_points);
        let mut snapshot: HashSet<PointIdType> = HashSet::new();
        let mut i: usize = 0;
        proof {
            lemma_take_ends(ids@);
        }
        while i < ids.len()
            invariant
                i <= ids.len(),
                snapshot@ == ids@.take(i as int).to_set(),
            decreases ids.len() - i,
        {
            proof {
                lemma_take_step(ids@, i as int);
            }
            snapshot.insert(ids[i]);
            i += 1;
        }
        proof {
            lemma_take_ends(ids@);
        }
        snapshot
    }

    /// The write segment.
    pub fn write_segment(&self) -> (segment: &S)
        requires
            self.wf(),
        ensures
            segment.wf(),
            segment.points() == self@.written,
            segment.spec_version() == self@.version,
    {
        &self.write_segment
    }

    /// Gives up the window for its write segment.
    pub fn into_write_segment(self) -> (segment: S)
        requires
            self.wf(),
        ensures
            segment.wf(),
            segment.points() == self@.written,
            segment.spec_version() == self@.version,
    {
        self.write_segment
    }
}

/// A stand-in for a segment that is being merged.
///
/// It holds a frozen copy of the segment and the id of the window that it
/// shares with the other proxies of its run. It never changes the copy.
pub struct ProxySegment<S> {
    wrapped_segment: S,
    window: WindowId,
}

impl<S: SegmentEntry> ProxySegment<S> {
    pub closed spec fn wf(&self) -> bool {
        self.wrapped_segment.wf()
    }

    /// The points of the frozen copy.
    pub closed spec fn wrapped(&self) -> PointMap {
        self.wrapped_segment.points()
    }

    /// The version of the frozen copy.
    pub closed spec fn wrapped_version(&self) -> SeqNumberType {
        self.wrapped_segment.spec_version()
    }

    pub closed spec fn spec_window(&self) -> WindowId {
        self.window
    }

    pub open spec fn view(&self) -> SegmentView {
        SegmentView::Proxy {
            wrapped: self.wrapped(),
            wrapped_version: self.wrapped_version(),
            window: self.spec_window(),
        }
    }

    pub fn new(segment: S, window: WindowId) -> (proxy: Self)
        requires
            segment.wf(),
        ensures
            proxy.wf(),
            proxy.wrapped() == segment.points(),
            proxy.wrapped_version() == segment.spec_version(),
            proxy.spec_window() == window,
    {
        ProxySegment { wrapped_segment: segment, window }
    }

    /// The window that this proxy writes to.
    pub fn window(&self) -> (w: WindowId)
        ensures
            w == self.spec_window(),
    {
        self.window
    }

    /// The version of the point as a reader sees it through the proxy: the
    /// write segment's if it holds the point, else the frozen copy's unless the
    /// point was deleted.
    pub fn point_version(&self, shared: &WriteWindow<S>, point_id: PointIdType) -> (v: Option<SeqNumberType>)
        requires
            self.wf(),
            shared.wf(),
        ensures
            v == lookup(proxy_points(self.wrapped(), shared@), point_id),
    {
        match shared.write_segment.point_version(point_id) {
            Some(v) => Some(v),
            None => {
                if shared.is_deleted(point_id) {
                    None
                } else {
                    self.wrapped_segment.point_version(point_id)
                }
            },
        }
    }

    pub fn has_point(&self, shared: &WriteWindow<S>, point_id: PointIdType) -> (b: bool)
        requires
            self.wf(),
            shared.wf(),
        ensures
            b == proxy_points(self.wrapped(), shared@).contains_key(point_id),
    {
        self.point_version(shared, point_id).is_some()
    }

    /// Forwards the write to the write segment. The frozen copy stays as it is.
    /// The proxy adds no failure of its own: the write fails only if the write
    /// segment does.
    pub fn upsert_point(&self, shared: &mut WriteWindow<S>, op_num: SeqNumberType, point_id: PointIdType) -> (r:
        Result<bool, SegmentError>)
        requires
            self.wf(),
            old(shared).wf(),
        ensures
            final(shared).wf(),
            S::never_fails() ==> r is Ok,
            match r {
                Ok(applied) => {
                    &&& applied == upsert_applies(old(shared)@.written, op_num, point_id)
                    &&& final(shared)@ == old(shared)@.upsert(op_num, point_id)
                },
                Err(_) => final(shared)@ == old(shared)@,
            },
    {
        shared.upsert_point(op_num, point_id)
    }

    /// Records the delete in the window, where every proxy of the run sees it,
    /// and carries it out on the write segment. Returns whether a reader who
    /// saw the point through this proxy before no longer sees it. The proxy
    /// adds no failure of its own: the delete fails only if the write segment
    /// does, which it does not on a point that it does not hold.
    pub fn delete_point(&self, shared: &mut WriteWindow<S>, op_num: SeqNumberType, point_id: PointIdType) -> (r:
        Result<bool, SegmentError>)
        requires
            self.wf(),
            old(shared).wf(),
        ensures
            final(shared).wf(),
            S::never_fails() ==> r is Ok,
            !old(shared)@.written.contains_key(point_id) ==> r is Ok,
            match r {
                Ok(gone) => {
                    &&& final(shared)@ == old(shared)@.delete(op_num, point_id)
                    &&& gone == (proxy_points(self.wrapped(), old(shared)@).contains_key(point_id) && !proxy_points(
                        self.wrapped(),
                        final(shared)@,
                    ).contains_key(point_id))
                },
                Err(_) => final(shared)@ == old(shared)@,
            },
    {
        let seen = self.has_point(shared, point_id);
        match shared.delete_point(op_num, point_id) {
            Ok(_) => {
                let still = shared.write_segment.has_point(point_id);
                Ok(seen && !still)
            },
            Err(e) => Err(e),
        }
    }

    /// A segment of its own that holds what a reader sees through the proxy: a
    /// copy of the frozen segment, without the points that were deleted, and
    /// with the points of the write segment in place of its own copies of them.
    /// Its version is the later of the two segments'. It fails only if a
    /// segment does.
    pub fn snapshot(&self, shared: &WriteWindow<S>) -> (r: Result<S, SegmentError>)
        requires
            self.wf(),
            shared.wf(),
        ensures
            S::never_fails() ==> r is Ok,
            r matches Ok(copy) ==> {
                &&& copy.wf()
                &&& copy.points() == proxy_points(self.wrapped(), shared@)
                &&& copy.spec_version() == later(self.wrapped_version(), shared@.version)
            },
    {
        let mut copy = match self.wrapped_segment.mk_copy() {
            Ok(copy) => copy,
            Err(e) => {
                return Err(e);
            },
        };
        let deleted = listing(&shared.deleted_points);
        if let Err(e) = delete_points(&mut copy, &deleted) {
            return Err(e);
        }
        // What was written wins over the frozen copy, whatever the versions.
        let written = shared.write_segment.point_ids();
        if let Err(e) = delete_points(&mut copy, &written) {
            return Err(e);
        }
        copy.update_from(&shared.write_segment);
        proof {
            assert(copy.points() =~= proxy_points(self.wrapped(), shared@));
        }
        Ok(copy)
    }

    /// A proxy has no index of its own: the index is built on the merged segment.
    pub fn build_index(&mut self)
        ensures
            *final(self) == *old(self),
    {
    }

    /// A proxy over an independent copy of the frozen segment, for the same
    /// window. It fails only if the frozen segment cannot be copied.
    pub fn mk_copy(&self) -> (r: Result<Self, SegmentError>)
        requires
            self.wf(),
        ensures
            S::never_fails() ==> r is Ok,
            r matches Ok(copy) ==> copy.wf() && copy@ == self@,
    {
        match self.wrapped_segment.mk_copy() {
            Ok(segment) => Ok(ProxySegment { wrapped_segment: segment, window: self.window }),
            Err(e) => Err(e),
        }
    }
}

/// A segment as the holder keeps it: a segment of its own, or a proxy.
pub enum LockedSegment<S> {
    Original(S),
    Proxy(ProxySegment<S>),
}

impl<S: SegmentEntry> LockedSegment<S> {
    pub open spec fn wf(&self) -> bool {
        match self {
            LockedSegment::Original(segment) => segment.wf(),
            LockedSegment::Proxy(proxy) => proxy.wf(),
        }
    }

    pub open spec fn view(&self) -> SegmentView {
        match self {
            LockedSegment::Original(segment) => SegmentView::Original {
                points: segment.points(),
                version: segment.spec_version(),
            },
            LockedSegment::Proxy(proxy) => proxy@,
        }
    }

    pub fn new(segment: S) -> (locked: Self)
        ensures
            locked == LockedSegment::Original(segment),
    {
        LockedSegment::Original(segment)
    }

    /// An independent copy: the data is duplicated, not only the handle. It
    /// fails only if the segment below cannot be copied.
    pub fn mk_copy(&self) -> (r: Result<Self, SegmentError>)
        requires
            self.wf(),
        ensures
            S::never_fails() ==> r is Ok,
            r matches Ok(copy) ==> copy.wf() && copy@ == self@,
    {
        match self {
            LockedSegment::Original(segment) => match segment.mk_copy() {
                Ok(copy) => Ok(LockedSegment::Original(copy)),
                Err(e) => Err(e),
            },
            LockedSegment::Proxy(proxy) => match proxy.mk_copy() {
                Ok(copy) => Ok(LockedSegment::Proxy(copy)),
                Err(e) => Err(e),
            },
        }
    }
}

} // verus!
