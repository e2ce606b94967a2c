//! The merge protocol: the steps of an optimization run, and the run as a whole.
//!
//! A run goes through these steps. Between any two of them clients may go on
//! writing and deleting through the holder.
//!
//! 1. [`snapshot_segments`] copies the segments to merge.
//! 2. [`install_proxies`] opens a write window and puts a proxy in front of
//!    each of them.
//! 3. [`merge_segments`] fills the new segment from the copies.
//! 4. [`delete_points`] removes what was deleted up to now (the first pass),
//!    and the index is built.
//! 5. [`finalize_optimization`] removes what was deleted since (the second
//!    pass), and swaps the new segment in for the proxies.

use vstd::prelude::*;
use std::collections::HashSet;
use crate::types::{
    PointIdType, SeqNumberType, SegmentId, WindowId, SegmentError, OperationError, OperationResult,
};
use crate::point_map::{PointMap, latest, merge_all};
use crate::model::{
    SegmentView, contents, finalized, installed, lemma_installed, lemma_quiet_run, lemma_targets, lemma_targets_grow,
    optimized, reconcile, targets, versions,
};
use crate::entry::SegmentEntry;
use crate::proxy_segment::{LockedSegment, ProxySegment};
use crate::segment_holder::SegmentHolder;
use crate::listing::{listing, lemma_take_step, lemma_take_ends, lemma_push_fresh};

verus! {

broadcast use vstd::std_specs::hash::group_hash_axioms;

/// A copy of a segment, taken for a run, with the id of the segment.
pub struct Snapshot<S> {
    pub id: SegmentId,
    pub segment: S,
}

/// The ids that `snapshots` were taken of.
pub open spec fn snapshot_ids<S>(snapshots: Seq<Snapshot<S>>) -> Seq<SegmentId> {
    Seq::new(snapshots.len(), |k: int| snapshots[k].id)
}

/// The points that `snapshots` hold.
pub open spec fn snapshot_points<S: SegmentEntry>(snapshots: Seq<Snapshot<S>>) -> Seq<PointMap> {
    Seq::new(snapshots.len(), |k: int| snapshots[k].segment.points())
}

/// The versions of `snapshots`.
pub open spec fn snapshot_versions<S: SegmentEntry>(snapshots: Seq<Snapshot<S>>) -> Seq<SeqNumberType> {
    Seq::new(snapshots.len(), |k: int| snapshots[k].segment.spec_version())
}

pub open spec fn snapshots_wf<S: SegmentEntry>(snapshots: Seq<Snapshot<S>>) -> bool {
    forall|k: int| 0 <= k < snapshots.len() ==> (#[trigger] snapshots[k]).segment.wf()
}

/// Whether one of `snapshots` was taken of `id`.
fn has_snapshot<S>(snapshots: &Vec<Snapshot<S>>, id: SegmentId) -> (b: bool)
    ensures
        b == snapshot_ids(snapshots@).contains(id),
{
    let mut i: usize = 0;
    while i < snapshots.len()
        invariant
            i <= snapshots.len(),
            forall|k: int| 0 <= k < i ==> snapshots[k].id != id,
        decreases snapshots.len() - i,
    {
        if snapshots[i].id == id {
            assert(snapshot_ids(snapshots@)[i as int] == id);
            return true;
        }
        i += 1;
    }
    false
}

/// Copies the segments to merge: of the ids given, those under which the holder
/// has a segment, each once. Each copy holds what a reader finds in the
/// segment, so a proxy that an earlier run left behind is taken with the writes
/// and deletes that went through it. The holder is only read.
///
/// Fails if a segment cannot be copied.
pub fn snapshot_segments<S: SegmentEntry>(segments: &SegmentHolder<S>, ids: &Vec<SegmentId>) -> (r: OperationResult<
    Vec<Snapshot<S>>,
>)
    requires
        segments.wf(),
    ensures
        S::never_fails() ==> r is Ok,
        match r {
            Ok(snapshots) => {
                &&& snapshot_ids(snapshots@) == targets(segments@, ids@)
                &&& snapshot_points(snapshots@) == contents(segments@, targets(segments@, ids@))
                &&& snapshot_versions(snapshots@) == versions(segments@, targets(segments@, ids@))
                &&& snapshots_wf(snapshots@)
            },
            Err(e) => e == OperationError::SnapshotFailed && targets(segments@, ids@).len() > 0,
        },
{
    let mut snapshots: Vec<Snapshot<S>> = Vec::new();
    let mut i: usize = 0;
    proof {
        lemma_take_ends(ids@);
        assert(snapshot_ids(snapshots@) =~= targets(segments@, ids@.take(0)));
        assert(snapshot_points(snapshots@) =~= contents(segments@, targets(segments@, ids@.take(0))));
        assert(snapshot_versions(snapshots@) =~= versions(segments@, targets(segments@, ids@.take(0))));
    }
    while i < ids.len()
        invariant
            i <= ids.len(),
            segments.wf(),
            snapshot_ids(snapshots@) == targets(segments@, ids@.take(i as int)),
            snapshot_points(snapshots@) == contents(segments@, targets(segments@, ids@.take(i as int))),
            snapshot_versions(snapshots@) == versions(segments@, targets(segments@, ids@.take(i as int))),
            snapshots_wf(snapshots@),
        decreases ids.len() - i,
    {
        let id = ids[i];
        let ghost taken = targets(segments@, ids@.take(i as int));
        proof {
            lemma_take_step(ids@, i as int);
            assert(ids@.take(i + 1).drop_last() =~= ids@.take(i as int));
        }
        if !has_snapshot(&snapshots, id) {
            match segments.snapshot(id) {
                Ok(copy) => {
                    let ghost before = snapshots@;
                    snapshots.push(Snapshot { id, segment: copy });
                    proof {
                        assert(snapshot_ids(snapshots@) =~= snapshot_ids(before).push(id));
                        assert forall|k: int| 0 <= k < snapshots@.len() implies snapshot_points(snapshots@)[k]
                            == contents(segments@, taken.push(id))[k] by {
                            if k < before.len() {
                                assert(snapshots@[k] == before[k]);
                                assert(snapshot_points(before)[k] == contents(segments@, taken)[k]);
                            }
                        }
                        assert(snapshot_points(snapshots@) =~= contents(segments@, taken.push(id)));
                        assert forall|k: int| 0 <= k < snapshots@.len() implies snapshot_versions(snapshots@)[k]
                            == versions(segments@, taken.push(id))[k] by {
                            if k < before.len() {
                                assert(snapshots@[k] == before[k]);
                                assert(snapshot_versions(before)[k] == versions(segments@, taken)[k]);
                            }
                        }
                        assert(snapshot_versions(snapshots@) =~= versions(segments@, taken.push(id)));
                    }
                },
                Err(OperationError::SegmentNotFound) => {},
                Err(_) => {
                    proof {
                        lemma_targets_grow(segments@, ids@.take(i + 1), ids@);
                    }
                    return Err(OperationError::SnapshotFailed);
                },
            }
        }
        i += 1;
    }
    proof {
        lemma_take_ends(ids@);
    }
    Ok(snapshots)
}

/// Opens a write window over `temp_segment` and swaps a proxy in for each of
/// the segments that `snapshots` were taken of. Each proxy holds a copy of its
/// snapshot. Returns the id of the window.
///
/// All copies are made before the holder is touched: if one fails, nothing was
/// installed.
pub fn install_proxies<S: SegmentEntry>(
    segments: &mut SegmentHolder<S>,
    temp_segment: S,
    snapshots: &Vec<Snapshot<S>>,
) -> (r: OperationResult<WindowId>)
    requires
        old(segments).wf(),
        temp_segment.wf(),
        snapshots_wf(snapshots@),
        old(segments)@.has_room(snapshots.len() + 1),
    ensures
        final(segments).wf(),
        S::never_fails() ==> r is Ok,
        match r {
            Ok(window) => {
                &&& window == old(segments)@.next_id
                &&& final(segments)@ == installed(
                    old(segments)@,
                    snapshot_ids(snapshots@),
                    snapshot_points(snapshots@),
                    snapshot_versions(snapshots@),
                    temp_segment.points(),
                    temp_segment.spec_version(),
                )
            },
            Err(e) => e == OperationError::SnapshotFailed && final(segments)@ == old(segments)@ && snapshots.len() > 0,
        },
{
    let n = snapshots.len();
    // The copies, last snapshot first, so that they can be taken off the end in order.
    let mut copies: Vec<S> = Vec::new();
    let mut j: usize = n;
    while j > 0
        invariant
            j <= n,
            n == snapshots.len(),
            snapshots_wf(snapshots@),
            segments.wf(),
            segments@ == old(segments)@,
            copies.len() == n - j,
            forall|m: int|
                0 <= m < copies.len() ==> {
                    &&& (#[trigger] copies[m]).wf()
                    &&& copies[m].points() == snapshots[n - 1 - m].segment.points()
                    &&& copies[m].spec_version() == snapshots[n - 1 - m].segment.spec_version()
                },
        decreases j,
    {
        j -= 1;
        assert(snapshots@[j as int].segment.wf());
        match snapshots[j].segment.mk_copy() {
            Ok(copy) => {
                copies.push(copy);
            },
            Err(_) => {
                return Err(OperationError::SnapshotFailed);
            },
        }
    }
    let ghost ids = snapshot_ids(snapshots@);
    let ghost wrapped = snapshot_points(snapshots@);
    let ghost wrapped_versions = snapshot_versions(snapshots@);
    let window = segments.open_window(temp_segment);
    let mut k: usize = 0;
    proof {
        lemma_take_ends(ids);
        lemma_take_ends(wrapped);
        lemma_take_ends(wrapped_versions);
    }
    while k < n
        invariant
            k <= n,
            n == snapshots.len(),
            ids == snapshot_ids(snapshots@),
            wrapped == snapshot_points(snapshots@),
            wrapped_versions == snapshot_versions(snapshots@),
            segments.wf(),
            window == old(segments)@.next_id,
            segments@ == installed(
                old(segments)@,
                ids.take(k as int),
                wrapped.take(k as int),
                wrapped_versions.take(k as int),
                temp_segment.points(),
                temp_segment.spec_version(),
            ),
            segments@.windows.contains_key(window),
            segments@.next_id == old(segments)@.next_id + 1 + k,
            old(segments)@.has_room(n + 1),
            copies.len() == n - k,
            forall|m: int|
                0 <= m < copies.len() ==> {
                    &&& (#[trigger] copies[m]).wf()
                    &&& copies[m].points() == snapshots[n - 1 - m].segment.points()
                    &&& copies[m].spec_version() == snapshots[n - 1 - m].segment.spec_version()
                },
        decreases n - k,
    {
        let id = snapshots[k].id;
        let copy = copies.pop().unwrap();
        let proxy = LockedSegment::Proxy(ProxySegment::new(copy, window));
        let remove_ids: Vec<SegmentId> = vec![id];
        proof {
            assert(remove_ids@.to_set() =~= set![id]);
            assert(ids.take(k + 1).drop_last() =~= ids.take(k as int));
            assert(wrapped.take(k + 1).drop_last() =~= wrapped.take(k as int));
            assert(wrapped_versions.take(k + 1).drop_last() =~= wrapped_versions.take(k as int));
            assert(proxy@ == SegmentView::Proxy {
                wrapped: wrapped.take(k + 1).last(),
                wrapped_version: wrapped_versions.take(k + 1).last(),
                window,
            });
        }
        segments.swap(proxy, &remove_ids);
        k += 1;
    }
    proof {
        lemma_take_ends(ids);
        lemma_take_ends(wrapped);
        lemma_take_ends(wrapped_versions);
    }
    Ok(window)
}

/// Merges the points of all `snapshots` into `optimized_segment`, in order. The
/// segment ends at the latest of its own version and theirs.
pub fn merge_segments<S: SegmentEntry>(optimized_segment: &mut S, snapshots: &Vec<Snapshot<S>>)
    requires
        old(optimized_segment).wf(),
        snapshots_wf(snapshots@),
    ensures
        final(optimized_segment).wf(),
        final(optimized_segment).points() == merge_all(old(optimized_segment).points(), snapshot_points(snapshots@)),
        final(optimized_segment).spec_version() == latest(
            old(optimized_segment).spec_version(),
            snapshot_versions(snapshots@),
        ),
{
    let ghost parts = snapshot_points(snapshots@);
    let ghost versions = snapshot_versions(snapshots@);
    let mut i: usize = 0;
    proof {
        lemma_take_ends(parts);
        lemma_take_ends(versions);
    }
    while i < snapshots.len()
        invariant
            i <= snapshots.len(),
            parts == snapshot_points(snapshots@),
            versions == snapshot_versions(snapshots@),
            snapshots_wf(snapshots@),
            optimized_segment.wf(),
            optimized_segment.points() == merge_all(old(optimized_segment).points(), parts.take(i as int)),
            optimized_segment.spec_version() == latest(old(optimized_segment).spec_version(), versions.take(i as int)),
        decreases snapshots.len() - i,
    {
        proof {
            assert(parts.take(i + 1).drop_last() =~= parts.take(i as int));
            assert(versions.take(i + 1).drop_last() =~= versions.take(i as int));
            assert(snapshots@[i as int].segment.wf());
        }
        optimized_segment.update_from(&snapshots[i].segment);
        i += 1;
    }
    proof {
        lemma_take_ends(parts);
        lemma_take_ends(versions);
    }
}

/// Deletes each of `points` from `segment`, under the segment's own version, so
/// that the delete takes effect on every point that is there. A point that is
/// not there is passed over. The version of the segment stays as it is.
///
/// It fails only if the segment fails to delete a point that it holds. It
/// stops at the first failure: the points before it are deleted by then, and
/// no other point is touched.
pub fn delete_points<S: SegmentEntry>(segment: &mut S, points: &Vec<PointIdType>) -> (r: Result<(), SegmentError>)
    requires
        old(segment).wf(),
    ensures
        final(segment).wf(),
        S::never_fails() ==> r is Ok,
        (forall|i: int| 0 <= i < points.len() ==> !old(segment).points().contains_key(#[trigger] points[i])) ==> r is Ok,
        r is Ok ==> final(segment).points() == old(segment).points().remove_keys(points@.to_set()),
        final(segment).points().submap_of(old(segment).points()),
        forall|p: PointIdType|
            !points@.contains(p) ==> (final(segment).points().contains_key(p) <==> old(segment).points().contains_key(
                p,
            )),
        final(segment).spec_version() == old(segment).spec_version(),
{
    let mut i: usize = 0;
    proof {
        lemma_take_ends(points@);
        assert(segment.points() =~= old(segment).points().remove_keys(points@.take(0).to_set()));
    }
    while i < points.len()
        invariant
            i <= points.len(),
            segment.wf(),
            segment.points() == old(segment).points().remove_keys(points@.take(i as int).to_set()),
            segment.spec_version() == old(segment).spec_version(),
        decreases points.len() - i,
    {
        let version = segment.version();
        let ghost before = segment.points();
        match segment.delete_point(version, points[i]) {
            Ok(_) => {
                proof {
                    lemma_take_step(points@, i as int);
                    assert(segment.points() =~= before.remove(points@[i as int]));
                    assert(segment.points() =~= old(segment).points().remove_keys(points@.take(i + 1).to_set()));
                }
            },
            Err(e) => {
                proof {
                    assert forall|p: PointIdType| !points@.contains(p) implies !points@.take(i as int).to_set().contains(
                        p,
                    ) by {
                        if points@.take(i as int).contains(p) {
                            let k = choose|k: int| 0 <= k < i && points@.take(i as int)[k] == p;
                            assert(points@[k] == p);
                        }
                    }
                }
                return Err(e);
            },
        }
        i += 1;
    }
    proof {
        lemma_take_ends(points@);
        assert forall|p: PointIdType| !points@.contains(p) implies !points@.to_set().contains(p) by {}
    }
    Ok(())
}

/// The ids that are in `now` and not in `snapshot`, each once.
pub fn deleted_since(snapshot: &HashSet<PointIdType>, now: &HashSet<PointIdType>) -> (ids: Vec<PointIdType>)
    ensures
        ids@.to_set() == now@.difference(snapshot@),
        ids@.no_duplicates(),
{
    let all = listing(now);
    let mut ids: Vec<PointIdType> = Vec::new();
    let mut i: usize = 0;
    proof {
        lemma_take_ends(all@);
    }
    while i < all.len()
        invariant
            i <= all.len(),
            all@.to_set() == now@,
            all@.no_duplicates(),
            ids@.no_duplicates(),
            forall|id: PointIdType| #[trigger]
                ids@.contains(id) <==> all@.take(i as int).contains(id) && !snapshot@.contains(id),
        decreases all.len() - i,
    {
        let id = all[i];
        let ghost found = ids@;
        proof {
            lemma_take_step(all@, i as int);
            assert(!all@.take(i as int).contains(id));
        }
        let late = !snapshot.contains(&id);
        if late {
            proof {
                lemma_push_fresh(ids@, id);
            }
            ids.push(id);
        }
        assert forall|x: PointIdType| #[trigger]
            ids@.contains(x) <==> all@.take(i + 1).contains(x) && !snapshot@.contains(x) by {
            assert(all@.take(i + 1).contains(x) <==> all@.take(i as int).contains(x) || x == id);
            assert(found.contains(x) <==> all@.take(i as int).contains(x) && !snapshot@.contains(x));
            if late {
                assert(ids@.contains(x) <==> found.contains(x) || x == id);
            }
        }
        i += 1;
    }
    proof {
        lemma_take_ends(all@);
        assert(ids@.to_set() =~= now@.difference(snapshot@));
    }
    ids
}

/// Ends the run of `window`. Under the holder's exclusive lock it deletes from
/// `optimized_segment` what was deleted since `deleted_snapshot` was taken,
/// swaps the segment in for the proxies of the window, publishes the write
/// segment as a segment of its own if anything was written to it, and closes
/// the window.
///
/// It fails with `WindowNotFound` if the window is not open, and with
/// `BuildFailed` if the segment fails to delete a point that it holds and that
/// was deleted since the snapshot. The holder then stays as it was: the proxies
/// are still live, and the run can be tried again.
pub fn finalize_optimization<S: SegmentEntry>(
    segments: &mut SegmentHolder<S>,
    window: WindowId,
    optimized_segment: S,
    deleted_snapshot: &HashSet<PointIdType>,
) -> (r: OperationResult<bool>)
    requires
        old(segments).wf(),
        optimized_segment.wf(),
        old(segments)@.has_room(2),
    ensures
        final(segments).wf(),
        S::never_fails() && old(segments)@.windows.contains_key(window) ==> r is Ok,
        match r {
            Ok(done) => {
                &&& done
                &&& old(segments)@.windows.contains_key(window)
                &&& final(segments)@ == finalized(
                    old(segments)@,
                    window,
                    reconcile(
                        optimized_segment.points(),
                        deleted_snapshot@,
                        old(segments)@.windows[window].deleted,
                    ),
                    optimized_segment.spec_version(),
                )
            },
            Err(e) => {
                &&& final(segments)@ == old(segments)@
                &&& e == OperationError::WindowNotFound || e == OperationError::BuildFailed
                &&& e == OperationError::WindowNotFound <==> !old(segments)@.windows.contains_key(window)
                &&& e == OperationError::BuildFailed ==> exists|p: PointIdType|
                    #[trigger] optimized_segment.points().contains_key(p) && old(
                        segments,
                    )@.windows[window].deleted.contains(p) && !deleted_snapshot@.contains(p)
            },
        },
{
    let ghost merged = optimized_segment.points();
    let ghost merged_version = optimized_segment.spec_version();
    let mut optimized_segment = optimized_segment;
    let deleted_points = match segments.deleted_points(window) {
        Ok(deleted_points) => deleted_points,
        Err(_) => {
            return Err(OperationError::WindowNotFound);
        },
    };
    let points_diff = deleted_since(deleted_snapshot, &deleted_points);
    if delete_points(&mut optimized_segment, &points_diff).is_err() {
        proof {
            let i = choose|i: int| 0 <= i < points_diff.len() && merged.contains_key(#[trigger] points_diff[i]);
            assert(points_diff@.to_set().contains(points_diff@[i]));
        }
        return Err(OperationError::BuildFailed);
    }
    let proxy_ids = segments.proxies_of(window);
    let ghost swapped = segments@.swap(
        SegmentView::Original { points: optimized_segment.points(), version: optimized_segment.spec_version() },
        segments@.proxies_of(window),
    );
    segments.swap(LockedSegment::Original(optimized_segment), &proxy_ids);
    proof {
        assert(segments@ == swapped);
        assert(segments@.proxies_of(window) =~= Set::<SegmentId>::empty());
    }
    match segments.close_window(window) {
        Ok(tmp_segment) => {
            // The write segment is kept only if a point was written to it.
            let written = tmp_segment.vectors_count();
            proof {
                if written == 0 {
                    tmp_segment.points().dom().lemma_len0_is_empty();
                }
            }
            if written > 0 {
                segments.add_locked(LockedSegment::Original(tmp_segment));
            }
            proof {
                assert(segments@ =~= finalized(
                    old(segments)@,
                    window,
                    reconcile(merged, deleted_snapshot@, old(segments)@.windows[window].deleted),
                    merged_version,
                ));
            }
            Ok(true)
        },
        Err(e) => Err(e),
    }
}

/// Decides which segments to merge, supplies the segments a run needs, and runs
/// the merge.
pub trait SegmentOptimizer {
    /// The kind of segment that this optimizer works on.
    type Segment: SegmentEntry;

    /// The segments that should be merged now, if any.
    fn check_condition(&self, segments: &SegmentHolder<Self::Segment>) -> (ids: Vec<SegmentId>)
        requires
            segments.wf(),
    ;

    /// An empty segment to take the writes that arrive during a run.
    fn temp_segment(&self) -> (segment: Self::Segment)
        ensures
            segment.wf(),
            segment.points() == PointMap::empty(),
    ;

    /// A new segment to merge into: empty, and at version 0, having seen no
    /// write. The merged segment then ends at the latest version of its parts.
    fn optimized_segment(&self) -> (segment: Self::Segment)
        ensures
            segment.wf(),
            segment.points() == PointMap::empty(),
            segment.spec_version() == 0,
    ;

    /// Merges the segments `ids` into one, in one go.
    ///
    /// Of `ids` it takes those under which the holder has a segment, each once;
    /// a proxy that an earlier run left behind is taken like any other
    /// segment. Where there is none, it leaves the holder as it is. Else the
    /// segments make way for one segment that holds all the points that a
    /// reader found in them. The window of the earlier run stays open; once no
    /// proxy writes to it, the holder's `close_window` gives it up.
    ///
    /// A run uses up one id for its window, one for each proxy, and up to two
    /// for the segments it leaves behind. Where the holder cannot give out
    /// that many, the run is not begun, and fails with `OutOfIds`.
    ///
    /// It fails with `SnapshotFailed` if a segment could not be copied. It
    /// cannot fail otherwise: with no client in between, there is nothing to
    /// delete from the merged segment. So on segments of a kind that never
    /// fails, a run that has the ids it needs succeeds. A run that fails leaves
    /// the holder unchanged.
    fn optimize(&self, segments: &mut SegmentHolder<Self::Segment>, ids: Vec<SegmentId>) -> (r: OperationResult<bool>)
        requires
            old(segments).wf(),
        ensures
            final(segments).wf(),
            targets(old(segments)@, ids@).len() == 0 ==> r == Ok::<bool, OperationError>(true),
            Self::Segment::never_fails() && old(segments)@.has_room(targets(old(segments)@, ids@).len() as int + 3)
                ==> r is Ok,
            Self::Segment::never_fails() && targets(old(segments)@, ids@).len() > 0 && !old(segments)@.has_room(
                targets(old(segments)@, ids@).len() as int + 3,
            ) ==> r == Err::<bool, OperationError>(OperationError::OutOfIds),
            match r {
                Ok(done) => {
                    &&& done
                    &&& final(segments)@ == if targets(old(segments)@, ids@).len() == 0 {
                        old(segments)@
                    } else {
                        optimized(old(segments)@, targets(old(segments)@, ids@))
                    }
                    &&& targets(old(segments)@, ids@).len() > 0 ==> old(segments)@.has_room(
                        targets(old(segments)@, ids@).len() as int + 3,
                    )
                },
                Err(e) => {
                    &&& final(segments)@ == old(segments)@
                    &&& e == OperationError::SnapshotFailed || e == OperationError::OutOfIds
                    &&& e == OperationError::OutOfIds ==> !old(segments)@.has_room(
                        targets(old(segments)@, ids@).len() as int + 3,
                    )
                },
            },
    {
        let ghost before = segments@;
        let ghost taken = targets(before, ids@);
        proof {
            segments.lemma_wf();
            lemma_targets(before, ids@);
        }
        let tmp_segment = self.temp_segment();
        let ghost tmp_version = tmp_segment.spec_version();

        let optimizing_segments = match snapshot_segments(segments, &ids) {
            Ok(snapshots) => snapshots,
            Err(e) => {
                return Err(e);
            },
        };
        if optimizing_segments.len() == 0 {
            return Ok(true);
        }
        if optimizing_segments.len() > usize::MAX - 3 || !segments.has_room(optimizing_segments.len() + 3) {
            return Err(OperationError::OutOfIds);
        }
        let window = match install_proxies(segments, tmp_segment, &optimizing_segments) {
            Ok(window) => window,
            Err(e) => {
                return Err(e);
            },
        };
        let ghost started = segments@;
        proof {
            assert forall|k: int| 0 <= k < taken.len() implies before.segments.contains_key(#[trigger] taken[k]) by {
                assert(taken.contains(taken[k]));
            }
            segments.lemma_wf();
            lemma_installed(before, taken, contents(before, taken), versions(before, taken), Map::empty(), tmp_version);
            lemma_quiet_run(before, taken, tmp_version);
        }

        let mut optimized_segment = self.optimized_segment();

        // The slow part: the merge works on the copies, not on the holder.
        merge_segments(&mut optimized_segment, &optimizing_segments);

        // Points are deleted in two passes: here what was deleted up to now,
        // and at the end, with the holder held, what was deleted since.
        let deleted_points_snapshot = match segments.deleted_points(window) {
            Ok(snapshot) => snapshot,
            Err(e) => {
                return Err(e);
            },
        };
        let first_pass = listing(&deleted_points_snapshot);
        proof {
            if first_pass.len() > 0 {
                assert(first_pass@.to_set().contains(first_pass@[0]));
            }
            assert(first_pass.len() == 0);
        }
        if delete_points(&mut optimized_segment, &first_pass).is_err() {
            return Err(OperationError::BuildFailed);
        }
        optimized_segment.build_index();
        proof {
            let merged = optimized_segment.points();
            assert(merged =~= merge_all(Map::empty(), contents(before, taken)));
            assert(reconcile(merged, deleted_points_snapshot@, started.windows[window].deleted) =~= merged);
        }

        // This step holds off all operations on the collection. It is short.
        finalize_optimization(segments, window, optimized_segment, &deleted_points_snapshot)
    }
}

} // verus!
