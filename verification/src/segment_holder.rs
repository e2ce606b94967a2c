//! The registry of the segments that make up a collection.

use vstd::prelude::*;
use std::collections::{HashMap, HashSet};
use crate::types::{PointIdType, SeqNumberType, SegmentId, WindowId, OperationError, OperationResult};
use crate::point_map::{lookup, upsert_applies};
use crate::model::{ClientOp, HolderView};
use crate::entry::SegmentEntry;
use crate::proxy_segment::{LockedSegment, WriteWindow};
use crate::listing::{keys_of, lemma_take_step, lemma_take_ends, lemma_push_fresh};

verus! {

broadcast use vstd::std_specs::hash::group_hash_axioms;

/// Maps segment ids to segments. It also keeps the write windows of the
/// optimization runs in progress, so that whoever reaches a proxy through the
/// holder reaches the window that the proxy writes to.
///
/// A `&mut SegmentHolder` stands for the holder's exclusive lock: every
/// function that takes one is a single atomic step on the collection.
pub struct SegmentHolder<S> {
    segments: HashMap<SegmentId, LockedSegment<S>>,
    windows: HashMap<WindowId, WriteWindow<S>>,
    id_source: usize,
}

impl<S: SegmentEntry> SegmentHolder<S> {
    pub closed spec fn view(&self) -> HolderView {
        HolderView {
            segments: Map::new(|id: SegmentId| self.segments@.contains_key(id), |id: SegmentId| self.segments@[id]@),
            windows: Map::new(|w: WindowId| self.windows@.contains_key(w), |w: WindowId| self.windows@[w]@),
            next_id: self.id_source,
        }
    }

    /// The view is well formed, and so is every segment and window held.
    pub closed spec fn wf(&self) -> bool {
        &&& self@.wf()
        &&& forall|id: SegmentId| #[trigger] self.segments@.contains_key(id) ==> self.segments@[id].wf()
        &&& forall|w: WindowId| #[trigger] self.windows@.contains_key(w) ==> self.windows@[w].wf()
    }

    /// A well-formed holder has a well-formed view.
    pub proof fn lemma_wf(&self)
        requires
            self.wf(),
        ensures
            self@.wf(),
    {
    }

    /// A holder without segments.
    pub fn new() -> (holder: Self)
        ensures
            holder.wf(),
            holder@ == HolderView::empty(),
    {
        let holder = SegmentHolder { segments: HashMap::new(), windows: HashMap::new(), id_source: 0 };
        assert(holder@ =~= HolderView::empty());
        holder
    }

    /// A holder without segments whose ids begin at `first_id`, for a
    /// collection that goes on from the ids it had given out before.
    pub fn with_first_id(first_id: SegmentId) -> (holder: Self)
        ensures
            holder.wf(),
            holder@ == (HolderView { next_id: first_id, ..HolderView::empty() }),
    {
        let holder = SegmentHolder { segments: HashMap::new(), windows: HashMap::new(), id_source: first_id };
        assert(holder@ =~= (HolderView { next_id: first_id, ..HolderView::empty() }));
        holder
    }

    /// Number of segments held.
    pub fn len(&self) -> (n: usize)
        ensures
            self@.segments.dom().finite(),
            n == self@.segments.dom().len(),
    {
        assert(self@.segments.dom() =~= self.segments@.dom());
        self.segments.len()
    }

    /// The ids of the segments held, each once, in no particular order.
    pub fn segment_ids(&self) -> (ids: Vec<SegmentId>)
        ensures
            ids@.to_set() == self@.segments.dom(),
            ids@.no_duplicates(),
    {
        assert(self@.segments.dom() =~= self.segments@.dom());
        keys_of(&self.segments)
    }

    /// Whether the holder can still give out `n` ids.
    pub fn has_room(&self, n: usize) -> (b: bool)
        ensures
            b == self@.has_room(n as int),
    {
        n <= usize::MAX - self.id_source
    }

    /// The segment under `id`, if there is one.
    pub fn get(&self, id: SegmentId) -> (found: Option<&LockedSegment<S>>)
        requires
            self.wf(),
        ensures
            match found {
                Some(segment) => self@.segments.contains_key(id) && segment@ == self@.segments[id] && segment.wf(),
                None => !self@.segments.contains_key(id),
            },
    {
        self.segments.get(&id)
    }

    /// Takes `segment` in under a new id, and returns the id.
    pub fn add_locked(&mut self, segment: LockedSegment<S>) -> (id: SegmentId)
        requires
            old(self).wf(),
            segment.wf(),
            old(self)@.admits(segment@),
            old(self)@.has_room(1),
        ensures
            final(self).wf(),
            id == old(self)@.next_id,
            final(self)@ == old(self)@.add_locked(segment@),
    {
        let id = self.id_source;
        self.id_source = self.id_source + 1;
        self.segments.insert(id, segment);
        assert(self@ =~= old(self)@.add_locked(segment@));
        id
    }

    /// Drops the segments under `remove_ids`. An id without a segment is passed over.
    pub fn remove(&mut self, remove_ids: &Vec<SegmentId>)
        requires
            old(self).wf(),
        ensures
            final(self).wf(),
            final(self)@ == old(self)@.remove(remove_ids@.to_set()),
    {
        let mut i: usize = 0;
        proof {
            lemma_take_ends(remove_ids@);
            assert(self@ =~= old(self)@.remove(remove_ids@.take(0).to_set()));
        }
        while i < remove_ids.len()
            invariant
                i <= remove_ids.len(),
                self.wf(),
                self@ == old(self)@.remove(remove_ids@.take(i as int).to_set()),
            decreases remove_ids.len() - i,
        {
            let ghost before = self@;
            self.segments.remove(&remove_ids[i]);
            proof {
                lemma_take_step(remove_ids@, i as int);
                assert(self@ =~= before.remove(set![remove_ids@[i as int]]));
                assert(self@ =~= old(self)@.remove(remove_ids@.take(i + 1).to_set()));
            }
            i += 1;
        }
        proof {
            lemma_take_ends(remove_ids@);
        }
    }

    /// Replaces the segments under `remove_ids` by `segment` in one step. An
    /// id without a segment is passed over. Returns the id of `segment`.
    pub fn swap(&mut self, segment: LockedSegment<S>, remove_ids: &Vec<SegmentId>) -> (id: SegmentId)
        requires
            old(self).wf(),
            segment.wf(),
            old(self)@.admits(segment@),
            old(self)@.has_room(1),
        ensures
            final(self).wf(),
            id == old(self)@.next_id,
            final(self)@ == old(self)@.swap(segment@, remove_ids@.to_set()),
    {
        self.remove(remove_ids);
        self.add_locked(segment)
    }

    /// The version of a point as a reader finds it in the segment `segment_id`.
    pub fn point_version(&self, segment_id: SegmentId, point_id: PointIdType) -> (r: OperationResult<
        Option<SeqNumberType>,
    >)
        requires
            self.wf(),
        ensures
            match r {
                Ok(v) => self@.segments.contains_key(segment_id) && v == lookup(
                    self@.points_of(segment_id),
                    point_id,
                ),
                Err(e) => e == OperationError::SegmentNotFound && !self@.segments.contains_key(segment_id),
            },
    {
        match self.segments.get(&segment_id) {
            None => Err(OperationError::SegmentNotFound),
            Some(LockedSegment::Original(segment)) => Ok(segment.point_version(point_id)),
            Some(LockedSegment::Proxy(proxy)) => {
                let w = proxy.window();
                assert(self@.segments.contains_key(segment_id));
                // A proxy is held only while its window is open.
                match self.windows.get(&w) {
                    Some(shared) => Ok(proxy.point_version(shared, point_id)),
                    None => Err(OperationError::WindowNotFound),
                }
            },
        }
    }

    /// A copy of the segment `segment_id` as a reader finds it: of a segment of
    /// its own a plain copy, of a proxy a segment that holds what the proxy
    /// shows. The holder is only read. It fails with `SegmentNotFound` if there
    /// is no such segment, and with `SnapshotFailed` if a segment fails.
    pub fn snapshot(&self, segment_id: SegmentId) -> (r: OperationResult<S>)
        requires
            self.wf(),
        ensures
            S::never_fails() && self@.segments.contains_key(segment_id) ==> r is Ok,
            match r {
                Ok(copy) => {
                    &&& self@.segments.contains_key(segment_id)
                    &&& copy.wf()
                    &&& copy.points() == self@.points_of(segment_id)
                    &&& copy.spec_version() == self@.version_of(segment_id)
                },
                Err(e) => {
                    &&& e == OperationError::SegmentNotFound || e == OperationError::SnapshotFailed
                    &&& e == OperationError::SegmentNotFound <==> !self@.segments.contains_key(segment_id)
                },
            },
    {
        match self.segments.get(&segment_id) {
            None => Err(OperationError::SegmentNotFound),
            Some(LockedSegment::Original(segment)) => match segment.mk_copy() {
                Ok(copy) => Ok(copy),
                Err(_) => Err(OperationError::SnapshotFailed),
            },
            Some(LockedSegment::Proxy(proxy)) => {
                let w = proxy.window();
                assert(self@.segments.contains_key(segment_id));
                // A proxy is held only while its window is open.
                match self.windows.get(&w) {
                    Some(shared) => match proxy.snapshot(shared) {
                        Ok(copy) => Ok(copy),
                        Err(_) => Err(OperationError::SnapshotFailed),
                    },
                    None => Err(OperationError::SnapshotFailed),
                }
            },
        }
    }

    /// Writes a point through the segment `segment_id`. Returns whether the
    /// write took effect. On a proxy the write goes to the window's write
    /// segment. It fails with `SegmentNotFound` if there is no such segment,
    /// and with `ServiceError` if the segment written to fails. A failure
    /// changes nothing.
    pub fn upsert_point(&mut self, segment_id: SegmentId, op_num: SeqNumberType, point_id: PointIdType) -> (r:
        OperationResult<bool>)
        requires
            old(self).wf(),
        ensures
            final(self).wf(),
            S::never_fails() && old(self)@.segments.contains_key(segment_id) ==> r is Ok,
            match r {
                Ok(applied) => {
                    &&& old(self)@.segments.contains_key(segment_id)
                    &&& applied == upsert_applies(old(self)@.write_target(segment_id), op_num, point_id)
                    &&& final(self)@ == old(self)@.apply(segment_id, ClientOp::Upsert { op_num, point_id })
                },
                Err(e) => {
                    &&& final(self)@ == old(self)@
                    &&& e == OperationError::SegmentNotFound || e == OperationError::ServiceError
                    &&& e == OperationError::SegmentNotFound <==> !old(self)@.segments.contains_key(segment_id)
                },
            },
    {
        let ghost before = self@;
        match self.segments.remove(&segment_id) {
            None => {
                assert(self@ =~= before);
                Err(OperationError::SegmentNotFound)
            },
            Some(LockedSegment::Original(mut segment)) => {
                assert(before.segments.contains_key(segment_id));
                let r = segment.upsert_point(op_num, point_id);
                self.segments.insert(segment_id, LockedSegment::Original(segment));
                match r {
                    Ok(applied) => {
                        assert(self@ =~= before.apply(segment_id, ClientOp::Upsert { op_num, point_id }));
                        Ok(applied)
                    },
                    Err(_) => {
                        assert(self@ =~= before);
                        Err(OperationError::ServiceError)
                    },
                }
            },
            Some(LockedSegment::Proxy(proxy)) => {
                assert(before.segments.contains_key(segment_id));
                let w = proxy.window();
                // A proxy is held only while its window is open.
                let mut shared = match self.windows.remove(&w) {
                    Some(shared) => shared,
                    None => {
                        self.segments.insert(segment_id, LockedSegment::Proxy(proxy));
                        return Err(OperationError::WindowNotFound);
                    },
                };
                let r = proxy.upsert_point(&mut shared, op_num, point_id);
                self.windows.insert(w, shared);
                self.segments.insert(segment_id, LockedSegment::Proxy(proxy));
                match r {
                    Ok(applied) => {
                        assert(self@ =~= before.apply(segment_id, ClientOp::Upsert { op_num, point_id }));
                        Ok(applied)
                    },
                    Err(_) => {
                        assert(self@ =~= before);
                        Err(OperationError::ServiceError)
                    },
                }
            },
        }
    }

    /// Deletes a point through the segment `segment_id`. Returns whether a
    /// reader who found the point in the segment before no longer finds it. On
    /// a proxy the delete is recorded in the window and carried out on the
    /// write segment. It fails with `SegmentNotFound` if there is no such
    /// segment, and with `ServiceError` if the segment deleted from fails,
    /// which it does not on a point that it does not hold. A failure changes
    /// nothing.
    pub fn delete_point(&mut self, segment_id: SegmentId, op_num: SeqNumberType, point_id: PointIdType) -> (r:
        OperationResult<bool>)
        requires
            old(self).wf(),
        ensures
            final(self).wf(),
            S::never_fails() && old(self)@.segments.contains_key(segment_id) ==> r is Ok,
            old(self)@.segments.contains_key(segment_id) && !old(self)@.write_target(segment_id).contains_key(
                point_id,
            ) ==> r is Ok,
            match r {
                Ok(gone) => {
                    &&& old(self)@.segments.contains_key(segment_id)
                    &&& gone == (old(self)@.points_of(segment_id).contains_key(point_id) && !final(self)@.points_of(
                        segment_id,
                    ).contains_key(point_id))
                    &&& final(self)@ == old(self)@.apply(segment_id, ClientOp::Delete { op_num, point_id })
                },
                Err(e) => {
                    &&& final(self)@ == old(self)@
                    &&& e == OperationError::SegmentNotFound || e == OperationError::ServiceError
                    &&& e == OperationError::SegmentNotFound <==> !old(self)@.segments.contains_key(segment_id)
                },
            },
    {
        let ghost before = self@;
        match self.segments.remove(&segment_id) {
            None => {
                assert(self@ =~= before);
                Err(OperationError::SegmentNotFound)
            },
            Some(LockedSegment::Original(mut segment)) => {
                assert(before.segments.contains_key(segment_id));
                let r = segment.delete_point(op_num, point_id);
                self.segments.insert(segment_id, LockedSegment::Original(segment));
                match r {
                    Ok(applied) => {
                        assert(self@ =~= before.apply(segment_id, ClientOp::Delete { op_num, point_id }));
                        Ok(applied)
                    },
                    Err(_) => {
                        assert(self@ =~= before);
                        Err(OperationError::ServiceError)
                    },
                }
            },
            Some(LockedSegment::Proxy(proxy)) => {
                assert(before.segments.contains_key(segment_id));
                let w = proxy.window();
                // A proxy is held only while its window is open.
                let mut shared = match self.windows.remove(&w) {
                    Some(shared) => shared,
                    None => {
                        self.segments.insert(segment_id, LockedSegment::Proxy(proxy));
                        return Err(OperationError::WindowNotFound);
                    },
                };
                let r = proxy.delete_point(&mut shared, op_num, point_id);
                self.windows.insert(w, shared);
                self.segments.insert(segment_id, LockedSegment::Proxy(proxy));
                match r {
                    Ok(gone) => {
                        assert(self@ =~= before.apply(segment_id, ClientOp::Delete { op_num, point_id }));
                        Ok(gone)
                    },
                    Err(_) => {
                        assert(self@ =~= before);
                        Err(OperationError::ServiceError)
                    },
                }
            },
        }
    }

    /// Opens a write window over `write_segment`, and returns its id.
    pub fn open_window(&mut self, write_segment: S) -> (window: WindowId)
        requires
            old(self).wf(),
            write_segment.wf(),
            old(self)@.has_room(1),
        ensures
            final(self).wf(),
            window == old(self)@.next_id,
            final(self)@ == old(self)@.open_window(write_segment.points(), write_segment.spec_version()),
    {
        let window = self.id_source;
        self.id_source = self.id_source + 1;
        self.windows.insert(window, WriteWindow::new(write_segment));
        assert(self@ =~= old(self)@.open_window(write_segment.points(), write_segment.spec_version()));
        window
    }

    /// A copy of the deletion set of `window` as it is now.
    pub fn deleted_points(&self, window: WindowId) -> (r: OperationResult<HashSet<PointIdType>>)
        requires
            self.wf(),
        ensures
            match r {
                Ok(snapshot) => self@.windows.contains_key(window) && snapshot@ == self@.windows[window].deleted,
                Err(e) => e == OperationError::WindowNotFound && !self@.windows.contains_key(window),
            },
    {
        match self.windows.get(&window) {
            Some(shared) => Ok(shared.deleted_points()),
            None => Err(OperationError::WindowNotFound),
        }
    }

    /// Closes `window` and hands back its write segment. No proxy may write to
    /// the window any more.
    pub fn close_window(&mut self, window: WindowId) -> (r: OperationResult<S>)
        requires
            old(self).wf(),
            old(self)@.proxies_of(window) == Set::<SegmentId>::empty(),
        ensures
            final(self).wf(),
            match r {
                Ok(write_segment) => {
                    &&& old(self)@.windows.contains_key(window)
                    &&& write_segment.wf()
                    &&& write_segment.points() == old(self)@.windows[window].written
                    &&& write_segment.spec_version() == old(self)@.windows[window].version
                    &&& final(self)@ == old(self)@.close_window(window)
                },
                Err(e) => {
                    &&& e == OperationError::WindowNotFound
                    &&& !old(self)@.windows.contains_key(window)
                    &&& final(self)@ == old(self)@
                },
            },
    {
        let ghost before = self@;
        match self.windows.remove(&window) {
            Some(shared) => {
                assert(self@ =~= before.close_window(window));
                assert forall|id: SegmentId| #[trigger] self@.segments.contains_key(id) implies self@.admits(
                    self@.segments[id],
                ) by {
                    assert(before.segments.contains_key(id));
                    assert(!before.proxies_of(window).contains(id));
                }
                Ok(shared.into_write_segment())
            },
            None => {
                assert(self@ =~= before);
                Err(OperationError::WindowNotFound)
            },
        }
    }

    /// The ids of the proxies that write to `window`, each once.
    pub fn proxies_of(&self, window: WindowId) -> (ids: Vec<SegmentId>)
        requires
            self.wf(),
        ensures
            ids@.to_set() == self@.proxies_of(window),
            ids@.no_duplicates(),
    {
        let all = keys_of(&self.segments);
        let mut ids: Vec<SegmentId> = Vec::new();
        let mut i: usize = 0;
        proof {
            lemma_take_ends(all@);
        }
        while i < all.len()
            invariant
                i <= all.len(),
                all@.to_set() == self.segments@.dom(),
                all@.no_duplicates(),
                ids@.no_duplicates(),
                forall|id: SegmentId| #[trigger]
                    ids@.contains(id) <==> all@.take(i as int).contains(id) && self@.is_proxy_of(id, window),
            decreases all.len() - i,
        {
            let id = all[i];
            proof {
                lemma_take_step(all@, i as int);
                assert(all@.to_set().contains(id));
                assert(!all@.take(i as int).contains(id));
            }
            let is_proxy = match self.segments.get(&id) {
                Some(LockedSegment::Proxy(proxy)) => proxy.window() == window,
                _ => false,
            };
            proof {
                assert(self.segments@.contains_key(id));
                assert(self@.segments[id] == self.segments@[id]@);
                assert(is_proxy == self@.is_proxy_of(id, window));
            }
            let ghost found = ids@;
            if is_proxy {
                proof {
                    lemma_push_fresh(ids@, id);
                }
                ids.push(id);
            }
            assert forall|x: SegmentId| #[trigger]
                ids@.contains(x) <==> all@.take(i + 1).contains(x) && self@.is_proxy_of(x, window) by {
                assert(all@.take(i + 1).contains(x) <==> all@.take(i as int).contains(x) || x == id);
                assert(found.contains(x) <==> all@.take(i as int).contains(x) && self@.is_proxy_of(x, window));
                if is_proxy {
                    assert(ids@.contains(x) <==> found.contains(x) || x == id);
                }
            }
            i += 1;
        }
        proof {
            lemma_take_ends(all@);
            assert(ids@.to_set() =~= self@.proxies_of(window));
        }
        ids
    }
}

} // verus!
