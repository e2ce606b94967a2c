use segment_optimizer::entry::SegmentEntry;
use segment_optimizer::listing::listing;
use segment_optimizer::proxy_segment::LockedSegment;
use segment_optimizer::segment::Segment;
use segment_optimizer::segment_holder::SegmentHolder;
use segment_optimizer::segment_optimizer::{
    delete_points, deleted_since, finalize_optimization, install_proxies, merge_segments, snapshot_segments,
    SegmentOptimizer, Snapshot,
};
use segment_optimizer::types::{OperationError, SegmentError};
use std::cell::Cell;
use std::collections::HashSet;

fn segment_of(points: &[(u64, u64)]) -> Segment {
    let mut segment = Segment::new();
    for (id, version) in points {
        segment.upsert_point(*version, *id).unwrap();
    }
    segment
}

fn sorted<T: Ord>(mut ids: Vec<T>) -> Vec<T> {
    ids.sort();
    ids
}

fn points_of(holder: &SegmentHolder<Segment>, id: usize) -> Vec<u64> {
    match holder.get(id) {
        Some(LockedSegment::Original(segment)) => sorted(segment.point_ids()),
        _ => panic!("no segment of its own under that id"),
    }
}

fn is_proxy(holder: &SegmentHolder<Segment>, id: usize) -> bool {
    matches!(holder.get(id), Some(LockedSegment::Proxy(_)))
}

/// Holder with segment 0 = {1, 2, 3} and segment 1 = {4, 5}, all at version 1.
fn two_segments() -> SegmentHolder<Segment> {
    let mut holder = SegmentHolder::new();
    holder.add_locked(LockedSegment::new(segment_of(&[(1, 1), (2, 1), (3, 1)])));
    holder.add_locked(LockedSegment::new(segment_of(&[(4, 1), (5, 1)])));
    holder
}

/// Merges everything once the holder has at least `threshold` segments.
struct MergeAll {
    threshold: usize,
}

impl SegmentOptimizer for MergeAll {
    type Segment = Segment;

    fn check_condition(&self, segments: &SegmentHolder<Segment>) -> Vec<usize> {
        if segments.len() >= self.threshold {
            sorted(segments.segment_ids())
        } else {
            Vec::new()
        }
    }

    fn temp_segment(&self) -> Segment {
        Segment::new()
    }

    fn optimized_segment(&self) -> Segment {
        Segment::new()
    }
}

#[test]
fn optimize_merges_targets_into_one_segment() {
    let mut holder = two_segments();
    holder.add_locked(LockedSegment::new(segment_of(&[(9, 1)])));
    let optimizer = MergeAll { threshold: 2 };
    assert_eq!(optimizer.optimize(&mut holder, vec![0, 1]), Ok(true));
    // ids 3 (window), 4 and 5 (proxies) were used up; the merged segment is 6
    assert_eq!(sorted(holder.segment_ids()), vec![2, 6]);
    assert_eq!(points_of(&holder, 6), vec![1, 2, 3, 4, 5]);
    assert_eq!(points_of(&holder, 2), vec![9]);
    assert_eq!(holder.point_version(6, 4), Ok(Some(1)));
    assert_eq!(holder.add_locked(LockedSegment::new(Segment::new())), 7);
}

#[test]
fn optimize_follows_check_condition() {
    let mut holder = two_segments();
    let eager = MergeAll { threshold: 2 };
    let lazy = MergeAll { threshold: 3 };
    assert_eq!(lazy.check_condition(&holder), Vec::<usize>::new());
    let ids = eager.check_condition(&holder);
    assert_eq!(ids, vec![0, 1]);
    assert_eq!(eager.optimize(&mut holder, ids), Ok(true));
    assert_eq!(holder.len(), 1);
    assert_eq!(eager.check_condition(&holder), Vec::<usize>::new());
}

#[test]
fn optimize_keeps_later_version_of_a_point_held_twice() {
    let mut holder = SegmentHolder::new();
    holder.add_locked(LockedSegment::new(segment_of(&[(1, 8)])));
    holder.add_locked(LockedSegment::new(segment_of(&[(1, 3), (2, 3)])));
    let optimizer = MergeAll { threshold: 2 };
    assert_eq!(optimizer.optimize(&mut holder, vec![0, 1]), Ok(true));
    assert_eq!(holder.point_version(5, 1), Ok(Some(8)));
    assert_eq!(holder.point_version(5, 2), Ok(Some(3)));
}

#[test]
fn optimize_with_concurrent_delete_and_insert() {
    let mut holder = two_segments();
    let optimizer = MergeAll { threshold: 2 };

    let snapshots = snapshot_segments(&holder, &vec![0, 1]).ok().unwrap();
    let window = install_proxies(&mut holder, optimizer.temp_segment(), &snapshots).unwrap();
    assert_eq!(window, 2);
    assert_eq!(sorted(holder.segment_ids()), vec![3, 4]);
    assert!(is_proxy(&holder, 3) && is_proxy(&holder, 4));

    let mut optimized = optimizer.optimized_segment();
    merge_segments(&mut optimized, &snapshots);
    // a delete arrives in the middle of the merge
    assert_eq!(holder.delete_point(3, 10, 3), Ok(true));
    assert_eq!(holder.point_version(3, 3), Ok(None));

    let deleted_snapshot = holder.deleted_points(window).unwrap();
    assert_eq!(delete_points(&mut optimized, &listing(&deleted_snapshot)), Ok(()));
    optimized.build_index();
    // an insert arrives while the index is built
    assert_eq!(holder.upsert_point(4, 11, 6), Ok(true));
    assert_eq!(holder.point_version(4, 6), Ok(Some(11)));
    assert_eq!(holder.point_version(3, 6), Ok(Some(11)));

    assert_eq!(finalize_optimization(&mut holder, window, optimized, &deleted_snapshot), Ok(true));
    assert_eq!(sorted(holder.segment_ids()), vec![5, 6]);
    assert_eq!(points_of(&holder, 5), vec![1, 2, 4, 5]);
    assert_eq!(points_of(&holder, 6), vec![6]);
    assert_eq!(holder.point_version(5, 3), Ok(None));
    assert_eq!(holder.point_version(6, 3), Ok(None));
    assert_eq!(holder.point_version(6, 6), Ok(Some(11)));
    assert_eq!(holder.deleted_points(window).err(), Some(OperationError::WindowNotFound));
}

#[test]
fn delete_after_first_pass_is_not_lost() {
    let mut holder = two_segments();
    let snapshots = snapshot_segments(&holder, &vec![0, 1]).ok().unwrap();
    let window = install_proxies(&mut holder, Segment::new(), &snapshots).unwrap();
    let mut optimized = Segment::new();
    merge_segments(&mut optimized, &snapshots);
    assert_eq!(holder.delete_point(3, 10, 1), Ok(true));
    let deleted_snapshot = holder.deleted_points(window).unwrap();
    delete_points(&mut optimized, &listing(&deleted_snapshot)).unwrap();
    assert_eq!(sorted(optimized.point_ids()), vec![2, 3, 4, 5]);
    optimized.build_index();
    // these arrive after the first pass; one of them through the other proxy
    assert_eq!(holder.delete_point(3, 11, 5), Ok(false));
    assert_eq!(holder.delete_point(4, 12, 2), Ok(false));
    assert_eq!(holder.point_version(4, 5), Ok(None));
    assert_eq!(holder.point_version(3, 2), Ok(None));
    assert_eq!(finalize_optimization(&mut holder, window, optimized, &deleted_snapshot), Ok(true));
    // nothing was written, so no second segment appears
    assert_eq!(holder.segment_ids(), vec![5]);
    assert_eq!(points_of(&holder, 5), vec![3, 4]);
}

#[test]
fn write_during_run_is_not_lost() {
    let mut holder = two_segments();
    let snapshots = snapshot_segments(&holder, &vec![0, 1]).ok().unwrap();
    let window = install_proxies(&mut holder, Segment::new(), &snapshots).unwrap();
    let mut optimized = Segment::new();
    merge_segments(&mut optimized, &snapshots);
    assert_eq!(holder.upsert_point(3, 20, 7), Ok(true));
    assert_eq!(holder.upsert_point(4, 21, 2), Ok(true));
    assert_eq!(holder.upsert_point(3, 22, 7), Ok(true));
    let deleted_snapshot = holder.deleted_points(window).unwrap();
    delete_points(&mut optimized, &listing(&deleted_snapshot)).unwrap();
    assert_eq!(finalize_optimization(&mut holder, window, optimized, &deleted_snapshot), Ok(true));
    assert_eq!(points_of(&holder, 6), vec![2, 7]);
    assert_eq!(holder.point_version(6, 7), Ok(Some(22)));
    assert_eq!(holder.point_version(6, 2), Ok(Some(21)));
    // the frozen copy of point 2 went into the merged segment
    assert_eq!(holder.point_version(5, 2), Ok(Some(1)));
}

#[test]
fn write_after_delete_brings_point_back() {
    let mut holder = two_segments();
    let snapshots = snapshot_segments(&holder, &vec![0, 1]).ok().unwrap();
    let window = install_proxies(&mut holder, Segment::new(), &snapshots).unwrap();
    let mut optimized = Segment::new();
    merge_segments(&mut optimized, &snapshots);
    let deleted_snapshot = holder.deleted_points(window).unwrap();
    assert_eq!(holder.delete_point(3, 10, 3), Ok(true));
    assert_eq!(holder.upsert_point(3, 11, 3), Ok(true));
    assert_eq!(finalize_optimization(&mut holder, window, optimized, &deleted_snapshot), Ok(true));
    assert_eq!(points_of(&holder, 5), vec![1, 2, 4, 5]);
    assert_eq!(points_of(&holder, 6), vec![3]);
    assert_eq!(holder.point_version(6, 3), Ok(Some(11)));
}

#[test]
fn point_deleted_before_run_does_not_come_back() {
    let mut holder = two_segments();
    assert_eq!(holder.delete_point(0, 5, 2), Ok(true));
    let optimizer = MergeAll { threshold: 2 };
    assert_eq!(optimizer.optimize(&mut holder, vec![0, 1]), Ok(true));
    assert_eq!(points_of(&holder, 5), vec![1, 3, 4, 5]);
    assert_eq!(holder.point_version(5, 2), Ok(None));
}

#[test]
fn optimize_on_empty_target_list() {
    let mut holder = two_segments();
    let optimizer = MergeAll { threshold: 2 };
    assert_eq!(optimizer.optimize(&mut holder, vec![]), Ok(true));
    assert_eq!(sorted(holder.segment_ids()), vec![0, 1]);
    assert_eq!(points_of(&holder, 0), vec![1, 2, 3]);
    assert_eq!(points_of(&holder, 1), vec![4, 5]);
    // no id was used up: no window, no proxy, no new segment
    assert_eq!(holder.add_locked(LockedSegment::new(Segment::new())), 2);
}

#[test]
fn optimize_skips_removed_target() {
    let mut holder = two_segments();
    holder.add_locked(LockedSegment::new(segment_of(&[(6, 1)])));
    // another run has removed segment 1 in the meantime
    holder.remove(&vec![1]);
    let optimizer = MergeAll { threshold: 2 };
    assert_eq!(optimizer.optimize(&mut holder, vec![0, 1, 2]), Ok(true));
    assert_eq!(holder.segment_ids(), vec![6]);
    assert_eq!(points_of(&holder, 6), vec![1, 2, 3, 6]);
}

#[test]
fn optimize_with_only_absent_targets() {
    let mut holder = two_segments();
    let optimizer = MergeAll { threshold: 2 };
    assert_eq!(optimizer.optimize(&mut holder, vec![7, 8]), Ok(true));
    assert_eq!(sorted(holder.segment_ids()), vec![0, 1]);
    assert_eq!(holder.add_locked(LockedSegment::new(Segment::new())), 2);
}

#[test]
fn optimize_takes_each_target_once() {
    let mut holder = two_segments();
    let optimizer = MergeAll { threshold: 2 };
    assert_eq!(optimizer.optimize(&mut holder, vec![1, 0, 1, 1]), Ok(true));
    // window 2, proxies 3 and 4, merged segment 5
    assert_eq!(holder.segment_ids(), vec![5]);
    assert_eq!(points_of(&holder, 5), vec![1, 2, 3, 4, 5]);
}

#[test]
fn optimize_of_a_single_segment() {
    let mut holder = two_segments();
    let optimizer = MergeAll { threshold: 1 };
    assert_eq!(optimizer.optimize(&mut holder, vec![1]), Ok(true));
    assert_eq!(sorted(holder.segment_ids()), vec![0, 4]);
    assert_eq!(points_of(&holder, 4), vec![4, 5]);
}

#[test]
fn optimize_takes_up_proxies_left_behind() {
    let mut holder = two_segments();
    // a run installs its proxies and is given up
    let snapshots = snapshot_segments(&holder, &vec![0, 1]).ok().unwrap();
    let given_up = install_proxies(&mut holder, Segment::new(), &snapshots).unwrap();
    assert_eq!(given_up, 2);
    assert!(is_proxy(&holder, 3) && is_proxy(&holder, 4));
    assert_eq!(holder.delete_point(3, 10, 2), Ok(true));
    assert_eq!(holder.upsert_point(4, 11, 6), Ok(true));
    assert_eq!(holder.upsert_point(4, 12, 5), Ok(true));
    // a later run merges the proxies as readers see them
    let optimizer = MergeAll { threshold: 1 };
    assert_eq!(optimizer.optimize(&mut holder, vec![3, 4]), Ok(true));
    // window 5, proxies 6 and 7, merged segment 8
    assert_eq!(holder.segment_ids(), vec![8]);
    assert_eq!(points_of(&holder, 8), vec![1, 3, 4, 5, 6]);
    assert_eq!(holder.point_version(8, 5), Ok(Some(12)));
    assert_eq!(holder.point_version(8, 6), Ok(Some(11)));
    assert_eq!(holder.point_version(8, 1), Ok(Some(1)));
    assert_eq!(holder.point_version(8, 2), Ok(None));
    // the window of the run that was given up has no proxy left and can be closed
    assert_eq!(holder.proxies_of(given_up), Vec::<usize>::new());
    assert_eq!(sorted(holder.close_window(given_up).unwrap().point_ids()), vec![5, 6]);
}

#[test]
fn optimize_takes_a_proxy_together_with_a_segment_of_its_own() {
    let mut holder = two_segments();
    let snapshots = snapshot_segments(&holder, &vec![0]).ok().unwrap();
    install_proxies(&mut holder, Segment::new(), &snapshots).unwrap();
    assert!(is_proxy(&holder, 3));
    assert_eq!(holder.delete_point(3, 10, 1), Ok(true));
    let optimizer = MergeAll { threshold: 1 };
    assert_eq!(optimizer.optimize(&mut holder, vec![1, 3]), Ok(true));
    // window 4, proxies 5 and 6, merged segment 7
    assert_eq!(holder.segment_ids(), vec![7]);
    assert_eq!(points_of(&holder, 7), vec![2, 3, 4, 5]);
}

#[test]
fn snapshot_of_a_proxy_holds_what_a_reader_sees() {
    let mut holder = SegmentHolder::new();
    holder.add_locked(LockedSegment::new(segment_of(&[(1, 5), (2, 5), (3, 5)])));
    let snapshots = snapshot_segments(&holder, &vec![0]).ok().unwrap();
    install_proxies(&mut holder, Segment::new(), &snapshots).unwrap();
    assert_eq!(holder.delete_point(2, 6, 1), Ok(true));
    // a write with an earlier version than the frozen copy's still wins
    assert_eq!(holder.upsert_point(2, 4, 2), Ok(true));
    assert_eq!(holder.upsert_point(2, 7, 9), Ok(true));
    assert_eq!(holder.point_version(2, 2), Ok(Some(4)));
    let copy = holder.snapshot(2).ok().unwrap();
    assert_eq!(sorted(copy.point_ids()), vec![2, 3, 9]);
    assert_eq!(copy.point_version(2), Some(4));
    assert_eq!(copy.point_version(3), Some(5));
    assert_eq!(copy.point_version(9), Some(7));
    // the copy is independent of the proxy
    assert_eq!(holder.delete_point(2, 8, 3), Ok(true));
    assert_eq!(copy.point_version(3), Some(5));
    let taken = snapshot_segments(&holder, &vec![2]).ok().unwrap();
    assert_eq!(taken.len(), 1);
    assert_eq!(sorted(taken[0].segment.point_ids()), vec![2, 9]);
}

#[test]
fn snapshot_of_a_segment_of_its_own_and_of_none() {
    let holder = two_segments();
    let copy = holder.snapshot(1).ok().unwrap();
    assert_eq!(sorted(copy.point_ids()), vec![4, 5]);
    assert_eq!(holder.snapshot(7).err(), Some(OperationError::SegmentNotFound));
}

#[test]
fn snapshot_takes_segments_in_order_given() {
    let holder = two_segments();
    let snapshots = snapshot_segments(&holder, &vec![1, 5, 0, 1]).ok().unwrap();
    assert_eq!(snapshots.len(), 2);
    assert_eq!(snapshots[0].id, 1);
    assert_eq!(sorted(snapshots[0].segment.point_ids()), vec![4, 5]);
    assert_eq!(snapshots[1].id, 0);
    assert_eq!(sorted(snapshots[1].segment.point_ids()), vec![1, 2, 3]);
}

#[test]
fn snapshot_is_frozen() {
    let mut holder = two_segments();
    let snapshots = snapshot_segments(&holder, &vec![0]).ok().unwrap();
    holder.delete_point(0, 9, 1).unwrap();
    assert_eq!(sorted(snapshots[0].segment.point_ids()), vec![1, 2, 3]);
}

#[test]
fn proxies_are_installed_for_absent_ids_too() {
    let mut holder = two_segments();
    let snapshots = snapshot_segments(&holder, &vec![0, 1]).ok().unwrap();
    holder.remove(&vec![1]);
    let window = install_proxies(&mut holder, Segment::new(), &snapshots).unwrap();
    assert_eq!(window, 2);
    assert_eq!(sorted(holder.segment_ids()), vec![3, 4]);
    assert_eq!(sorted(holder.proxies_of(window)), vec![3, 4]);
    assert_eq!(holder.point_version(4, 5), Ok(Some(1)));
}

#[test]
fn install_without_snapshots_opens_a_window() {
    let mut holder = two_segments();
    let window = install_proxies(&mut holder, Segment::new(), &Vec::new()).unwrap();
    assert_eq!(window, 2);
    assert_eq!(sorted(holder.segment_ids()), vec![0, 1]);
    assert_eq!(holder.proxies_of(window), Vec::<usize>::new());
    assert_eq!(holder.deleted_points(window).unwrap().len(), 0);
}

#[test]
fn merge_segments_fills_in_order() {
    let snapshots = vec![
        Snapshot { id: 0, segment: segment_of(&[(1, 5), (2, 5)]) },
        Snapshot { id: 1, segment: segment_of(&[(2, 7), (3, 2)]) },
    ];
    let mut optimized = segment_of(&[(9, 1)]);
    merge_segments(&mut optimized, &snapshots);
    assert_eq!(sorted(optimized.point_ids()), vec![1, 2, 3, 9]);
    assert_eq!(optimized.point_version(2), Some(7));
    assert_eq!(optimized.version(), 7);
    merge_segments(&mut optimized, &Vec::new());
    assert_eq!(sorted(optimized.point_ids()), vec![1, 2, 3, 9]);
}

#[test]
fn delete_points_deletes_whatever_the_version() {
    let mut segment = segment_of(&[(1, 5), (2, 9), (3, 1)]);
    assert_eq!(delete_points(&mut segment, &vec![2, 7, 1, 2]), Ok(()));
    assert_eq!(segment.point_ids(), vec![3]);
    assert_eq!(segment.version(), 9);
    assert_eq!(delete_points(&mut segment, &vec![]), Ok(()));
    assert_eq!(segment.point_ids(), vec![3]);
}

#[test]
fn delete_points_keeps_the_version() {
    let mut segment = segment_of(&[(1, 5), (2, 9), (3, 1)]);
    delete_points(&mut segment, &vec![3, 1]).unwrap();
    assert_eq!(segment.version(), 9);
    assert_eq!(segment.point_version(2), Some(9));
}

#[test]
fn merge_segments_ends_at_the_latest_version() {
    let snapshots = vec![
        Snapshot { id: 0, segment: segment_of(&[(1, 5)]) },
        Snapshot { id: 1, segment: segment_of(&[(2, 3)]) },
    ];
    let mut low = Segment::new();
    merge_segments(&mut low, &snapshots);
    assert_eq!(low.version(), 5);
    let mut high = segment_of(&[(9, 8)]);
    merge_segments(&mut high, &snapshots);
    assert_eq!(high.version(), 8);
}

#[test]
fn delete_points_twice_changes_nothing_more() {
    let mut segment = segment_of(&[(1, 5), (2, 9), (3, 1)]);
    delete_points(&mut segment, &vec![1, 2]).unwrap();
    let once = sorted(segment.point_ids());
    delete_points(&mut segment, &vec![1, 2]).unwrap();
    assert_eq!(sorted(segment.point_ids()), once);
    assert_eq!(once, vec![3]);
}

#[test]
fn deleted_since_is_the_difference() {
    let snapshot: HashSet<u64> = [1, 2].into_iter().collect();
    let now: HashSet<u64> = [1, 2, 3, 4].into_iter().collect();
    assert_eq!(sorted(deleted_since(&snapshot, &now)), vec![3, 4]);
    assert_eq!(deleted_since(&now, &snapshot), Vec::<u64>::new());
    assert_eq!(deleted_since(&now, &now), Vec::<u64>::new());
    assert_eq!(sorted(deleted_since(&HashSet::new(), &snapshot)), vec![1, 2]);
}

#[test]
fn finalize_with_unknown_window() {
    let mut holder = two_segments();
    let r = finalize_optimization(&mut holder, 9, Segment::new(), &HashSet::new());
    assert_eq!(r, Err(OperationError::WindowNotFound));
    assert_eq!(sorted(holder.segment_ids()), vec![0, 1]);
    assert_eq!(holder.add_locked(LockedSegment::new(Segment::new())), 2);
}

#[test]
fn finalize_twice_fails_the_second_time() {
    let mut holder = two_segments();
    let snapshots = snapshot_segments(&holder, &vec![0, 1]).ok().unwrap();
    let window = install_proxies(&mut holder, Segment::new(), &snapshots).unwrap();
    let mut optimized = Segment::new();
    merge_segments(&mut optimized, &snapshots);
    let again = optimized.mk_copy().unwrap();
    let deleted_snapshot = holder.deleted_points(window).unwrap();
    assert_eq!(finalize_optimization(&mut holder, window, optimized, &deleted_snapshot), Ok(true));
    assert_eq!(
        finalize_optimization(&mut holder, window, again, &deleted_snapshot),
        Err(OperationError::WindowNotFound)
    );
    assert_eq!(holder.segment_ids(), vec![5]);
}

/// A segment whose storage can be made to fail.
struct Flaky {
    inner: Segment,
    fail_copy: bool,
    fail_delete: bool,
    deletes: Cell<usize>,
}

impl Flaky {
    fn new(inner: Segment, fail_copy: bool, fail_delete: bool) -> Flaky {
        Flaky { inner, fail_copy, fail_delete, deletes: Cell::new(0) }
    }
}

impl SegmentEntry for Flaky {
    fn wf(&self) -> bool {
        unreachable!()
    }

    fn points(&self) -> vstd::map::Map<u64, u64> {
        unreachable!()
    }

    fn spec_version(&self) -> u64 {
        unreachable!()
    }

    fn never_fails() -> bool {
        unreachable!()
    }

    fn version(&self) -> u64 {
        self.inner.version()
    }

    fn vectors_count(&self) -> usize {
        self.inner.vectors_count()
    }

    fn has_point(&self, point_id: u64) -> bool {
        self.inner.has_point(point_id)
    }

    fn point_version(&self, point_id: u64) -> Option<u64> {
        self.inner.point_version(point_id)
    }

    fn upsert_point(&mut self, op_num: u64, point_id: u64) -> Result<bool, SegmentError> {
        if self.fail_delete {
            Err(SegmentError::ServiceError)
        } else {
            self.inner.upsert_point(op_num, point_id)
        }
    }

    fn point_ids(&self) -> Vec<u64> {
        self.inner.point_ids()
    }

    fn delete_point(&mut self, op_num: u64, point_id: u64) -> Result<bool, SegmentError> {
        self.deletes.set(self.deletes.get() + 1);
        if self.fail_delete && self.inner.has_point(point_id) {
            Err(SegmentError::ServiceError)
        } else {
            self.inner.delete_point(op_num, point_id)
        }
    }

    fn update_from(&mut self, other: &Self) {
        self.inner.update_from(&other.inner)
    }

    fn build_index(&mut self) {
        self.inner.build_index()
    }

    fn mk_copy(&self) -> Result<Self, SegmentError> {
        if self.fail_copy {
            Err(SegmentError::ServiceError)
        } else {
            Ok(Flaky::new(self.inner.mk_copy()?, self.fail_copy, self.fail_delete))
        }
    }
}

struct FlakyOptimizer;

impl SegmentOptimizer for FlakyOptimizer {
    type Segment = Flaky;

    fn check_condition(&self, segments: &SegmentHolder<Flaky>) -> Vec<usize> {
        segments.segment_ids()
    }

    fn temp_segment(&self) -> Flaky {
        Flaky::new(Segment::new(), false, false)
    }

    fn optimized_segment(&self) -> Flaky {
        Flaky::new(Segment::new(), false, false)
    }
}

fn flaky_ids(holder: &SegmentHolder<Flaky>, id: usize) -> Vec<u64> {
    match holder.get(id) {
        Some(LockedSegment::Original(segment)) => sorted(segment.inner.point_ids()),
        _ => panic!("no segment of its own under that id"),
    }
}

#[test]
fn failed_copy_leaves_holder_unchanged() {
    let mut holder = SegmentHolder::new();
    holder.add_locked(LockedSegment::new(Flaky::new(segment_of(&[(1, 1)]), false, false)));
    holder.add_locked(LockedSegment::new(Flaky::new(segment_of(&[(2, 1)]), true, false)));
    assert_eq!(FlakyOptimizer.optimize(&mut holder, vec![0, 1]), Err(OperationError::SnapshotFailed));
    assert_eq!(sorted(holder.segment_ids()), vec![0, 1]);
    assert_eq!(flaky_ids(&holder, 0), vec![1]);
    assert_eq!(flaky_ids(&holder, 1), vec![2]);
    assert_eq!(holder.proxies_of(2), Vec::<usize>::new());
    // the segment that cannot be copied is no obstacle where it is no target
    assert_eq!(FlakyOptimizer.optimize(&mut holder, vec![0]), Ok(true));
    assert_eq!(sorted(holder.segment_ids()), vec![1, 4]);
    assert_eq!(flaky_ids(&holder, 4), vec![1]);
}

#[test]
fn snapshot_fails_when_a_copy_fails() {
    let mut holder = SegmentHolder::new();
    holder.add_locked(LockedSegment::new(Flaky::new(segment_of(&[(2, 1)]), true, false)));
    assert_eq!(snapshot_segments(&holder, &vec![0]).err(), Some(OperationError::SnapshotFailed));
    assert!(snapshot_segments(&holder, &vec![3]).is_ok());
}

#[test]
fn failed_proxy_copy_installs_nothing() {
    let mut holder = SegmentHolder::new();
    holder.add_locked(LockedSegment::new(Flaky::new(segment_of(&[(1, 1)]), false, false)));
    let snapshots = vec![
        Snapshot { id: 0, segment: Flaky::new(segment_of(&[(1, 1)]), false, false) },
        Snapshot { id: 0, segment: Flaky::new(segment_of(&[(1, 1)]), true, false) },
    ];
    let r = install_proxies(&mut holder, Flaky::new(Segment::new(), false, false), &snapshots);
    assert_eq!(r, Err(OperationError::SnapshotFailed));
    assert_eq!(holder.segment_ids(), vec![0]);
    assert_eq!(holder.add_locked(LockedSegment::new(Flaky::new(Segment::new(), false, false))), 1);
}

#[test]
fn failed_delete_keeps_proxies_live() {
    let mut holder = SegmentHolder::new();
    holder.add_locked(LockedSegment::new(Flaky::new(segment_of(&[(1, 1), (2, 1)]), false, false)));
    let snapshots = snapshot_segments(&holder, &vec![0]).ok().unwrap();
    let window = install_proxies(&mut holder, Flaky::new(Segment::new(), false, false), &snapshots).unwrap();
    let deleted_snapshot = holder.deleted_points(window).unwrap();
    assert_eq!(holder.delete_point(2, 5, 1), Ok(true));
    let broken = Flaky::new(segment_of(&[(1, 1), (2, 1)]), false, true);
    let r = finalize_optimization(&mut holder, window, broken, &deleted_snapshot);
    assert_eq!(r, Err(OperationError::BuildFailed));
    assert_eq!(holder.segment_ids(), vec![2]);
    assert_eq!(holder.proxies_of(window), vec![2]);
    assert_eq!(holder.point_version(2, 1), Ok(None));
    assert_eq!(holder.point_version(2, 2), Ok(Some(1)));
    // the run can be finished with a segment that works
    let sound = Flaky::new(segment_of(&[(1, 1), (2, 1)]), false, false);
    assert_eq!(finalize_optimization(&mut holder, window, sound, &deleted_snapshot), Ok(true));
    assert_eq!(holder.segment_ids(), vec![3]);
    assert_eq!(flaky_ids(&holder, 3), vec![2]);
}

#[test]
fn finalize_deletes_only_what_came_after_the_snapshot() {
    let mut holder = SegmentHolder::new();
    holder.add_locked(LockedSegment::new(Flaky::new(segment_of(&[(1, 1), (2, 1), (3, 1)]), false, false)));
    let snapshots = snapshot_segments(&holder, &vec![0]).ok().unwrap();
    let window = install_proxies(&mut holder, Flaky::new(Segment::new(), false, false), &snapshots).unwrap();
    holder.delete_point(2, 5, 1).unwrap();
    let deleted_snapshot = holder.deleted_points(window).unwrap();
    holder.delete_point(2, 6, 2).unwrap();
    let merged = Flaky::new(segment_of(&[(2, 1), (3, 1)]), false, false);
    assert_eq!(finalize_optimization(&mut holder, window, merged, &deleted_snapshot), Ok(true));
    match holder.get(3) {
        Some(LockedSegment::Original(segment)) => {
            assert_eq!(segment.inner.point_ids(), vec![3]);
            assert_eq!(segment.deletes.get(), 1);
        }
        _ => panic!("the merged segment is held under id 3"),
    }
}

#[test]
fn failed_write_through_holder_changes_nothing() {
    let mut holder = SegmentHolder::new();
    holder.add_locked(LockedSegment::new(Flaky::new(segment_of(&[(1, 1)]), false, true)));
    assert_eq!(holder.upsert_point(0, 5, 2), Err(OperationError::ServiceError));
    assert_eq!(holder.delete_point(0, 5, 1), Err(OperationError::ServiceError));
    assert_eq!(flaky_ids(&holder, 0), vec![1]);
    let window = holder.open_window(Flaky::new(segment_of(&[(7, 1)]), false, true));
    let proxy = holder.swap(
        LockedSegment::Proxy(segment_optimizer::proxy_segment::ProxySegment::new(
            Flaky::new(segment_of(&[(1, 1)]), false, false),
            window,
        )),
        &vec![0],
    );
    assert_eq!(holder.upsert_point(proxy, 5, 2), Err(OperationError::ServiceError));
    assert_eq!(holder.delete_point(proxy, 5, 7), Err(OperationError::ServiceError));
    assert_eq!(holder.point_version(proxy, 7), Ok(Some(1)));
    assert_eq!(holder.point_version(proxy, 1), Ok(Some(1)));
    assert_eq!(holder.deleted_points(window).unwrap().len(), 0);
}

#[test]
fn delete_of_an_absent_point_does_not_fail() {
    let mut holder = SegmentHolder::new();
    holder.add_locked(LockedSegment::new(Flaky::new(segment_of(&[(1, 1)]), false, true)));
    // the storage fails on every point that is there, but point 9 is not
    assert_eq!(holder.delete_point(0, 5, 9), Ok(false));
    let window = holder.open_window(Flaky::new(segment_of(&[(7, 1)]), false, true));
    let proxy = holder.swap(
        LockedSegment::Proxy(segment_optimizer::proxy_segment::ProxySegment::new(
            Flaky::new(segment_of(&[(1, 1)]), false, false),
            window,
        )),
        &vec![0],
    );
    // the write segment does not hold point 1: the delete is recorded and hides the frozen copy
    assert_eq!(holder.delete_point(proxy, 5, 1), Ok(true));
    assert_eq!(holder.point_version(proxy, 1), Ok(None));
    assert_eq!(sorted(listing(&holder.deleted_points(window).unwrap())), vec![1]);
    let mut broken = Flaky::new(segment_of(&[(1, 1), (2, 1)]), false, true);
    assert_eq!(delete_points(&mut broken, &vec![8, 9]), Ok(()));
    assert_eq!(sorted(broken.inner.point_ids()), vec![1, 2]);
}

#[test]
fn failed_snapshot_of_a_proxy() {
    let mut holder = SegmentHolder::new();
    holder.add_locked(LockedSegment::new(Flaky::new(segment_of(&[(1, 1), (2, 1)]), false, false)));
    let snapshots = snapshot_segments(&holder, &vec![0]).ok().unwrap();
    // the proxy wraps a copy that cannot be copied again
    let window = holder.open_window(Flaky::new(Segment::new(), false, false));
    let proxy = holder.swap(
        LockedSegment::Proxy(segment_optimizer::proxy_segment::ProxySegment::new(
            Flaky::new(segment_of(&[(1, 1), (2, 1)]), true, false),
            window,
        )),
        &vec![0],
    );
    assert_eq!(snapshots.len(), 1);
    assert_eq!(holder.snapshot(proxy).err(), Some(OperationError::SnapshotFailed));
    assert_eq!(FlakyOptimizer.optimize(&mut holder, vec![proxy]), Err(OperationError::SnapshotFailed));
    assert_eq!(holder.segment_ids(), vec![proxy]);
    assert_eq!(holder.point_version(proxy, 2), Ok(Some(1)));
}

#[test]
fn delete_points_stops_at_failure() {
    let mut broken = Flaky::new(segment_of(&[(1, 1), (2, 1)]), false, true);
    assert_eq!(delete_points(&mut broken, &vec![1, 2]), Err(SegmentError::ServiceError));
    assert_eq!(broken.deletes.get(), 1);
    assert_eq!(sorted(broken.inner.point_ids()), vec![1, 2]);
    assert_eq!(delete_points(&mut broken, &vec![]), Ok(()));
}

#[test]
fn optimize_is_not_begun_without_ids_to_give_out() {
    let mut holder = SegmentHolder::with_first_id(usize::MAX - 3);
    assert_eq!(holder.add_locked(LockedSegment::new(segment_of(&[(1, 1)]))), usize::MAX - 3);
    assert_eq!(holder.add_locked(LockedSegment::new(segment_of(&[(2, 1)]))), usize::MAX - 2);
    // one id is left; a run over two segments may need five
    assert!(holder.has_room(1));
    assert!(!holder.has_room(2));
    let optimizer = MergeAll { threshold: 2 };
    let r = optimizer.optimize(&mut holder, vec![usize::MAX - 3, usize::MAX - 2]);
    assert_eq!(r, Err(OperationError::OutOfIds));
    assert_eq!(sorted(holder.segment_ids()), vec![usize::MAX - 3, usize::MAX - 2]);
    assert_eq!(points_of(&holder, usize::MAX - 3), vec![1]);
    assert_eq!(holder.add_locked(LockedSegment::new(Segment::new())), usize::MAX - 1);
    assert!(!holder.has_room(1));
    assert!(holder.has_room(0));
}

#[test]
fn optimize_with_just_enough_ids() {
    let mut holder = SegmentHolder::with_first_id(usize::MAX - 7);
    holder.add_locked(LockedSegment::new(segment_of(&[(1, 1)])));
    holder.add_locked(LockedSegment::new(segment_of(&[(2, 1)])));
    assert!(holder.has_room(5));
    assert!(!holder.has_room(6));
    let optimizer = MergeAll { threshold: 2 };
    assert_eq!(optimizer.optimize(&mut holder, vec![usize::MAX - 7, usize::MAX - 6]), Ok(true));
    // the window, two proxies and the merged segment took four ids
    assert_eq!(holder.segment_ids(), vec![usize::MAX - 2]);
    assert_eq!(points_of(&holder, usize::MAX - 2), vec![1, 2]);
    assert!(holder.has_room(1));
    assert!(!holder.has_room(2));
}

#[test]
fn optimize_without_targets_needs_no_ids() {
    let mut holder: SegmentHolder<Segment> = SegmentHolder::with_first_id(usize::MAX);
    assert!(!holder.has_room(1));
    let optimizer = MergeAll { threshold: 2 };
    assert_eq!(optimizer.optimize(&mut holder, vec![]), Ok(true));
    assert_eq!(optimizer.optimize(&mut holder, vec![1, 2, 3]), Ok(true));
    assert_eq!(holder.len(), 0);
}

fn version_of(holder: &SegmentHolder<Segment>, id: usize) -> u64 {
    match holder.get(id) {
        Some(LockedSegment::Original(segment)) => segment.version(),
        _ => panic!("no segment of its own under that id"),
    }
}

#[test]
fn merged_segment_is_at_the_latest_version_of_its_parts() {
    let mut holder = SegmentHolder::new();
    holder.add_locked(LockedSegment::new(segment_of(&[(1, 3)])));
    holder.add_locked(LockedSegment::new(segment_of(&[(2, 7), (3, 5)])));
    let optimizer = MergeAll { threshold: 2 };
    assert_eq!(optimizer.optimize(&mut holder, vec![0, 1]), Ok(true));
    assert_eq!(version_of(&holder, 5), 7);
}

#[test]
fn segments_left_by_a_run_keep_their_versions() {
    let mut holder = SegmentHolder::new();
    holder.add_locked(LockedSegment::new(segment_of(&[(1, 3), (2, 4)])));
    let snapshots = snapshot_segments(&holder, &vec![0]).ok().unwrap();
    let window = install_proxies(&mut holder, Segment::new(), &snapshots).unwrap();
    let mut optimized = Segment::new();
    merge_segments(&mut optimized, &snapshots);
    assert_eq!(optimized.version(), 4);
    let deleted_snapshot = holder.deleted_points(window).unwrap();
    assert_eq!(holder.upsert_point(2, 9, 6), Ok(true));
    assert_eq!(holder.delete_point(2, 8, 1), Ok(true));
    // the snapshot of the proxy is at the later of the two versions
    assert_eq!(holder.snapshot(2).ok().unwrap().version(), 9);
    assert_eq!(finalize_optimization(&mut holder, window, optimized, &deleted_snapshot), Ok(true));
    // the delete of the second pass is made under the merged segment's own version
    assert_eq!(version_of(&holder, 3), 4);
    assert_eq!(points_of(&holder, 3), vec![2]);
    assert_eq!(version_of(&holder, 4), 9);
    assert_eq!(points_of(&holder, 4), vec![6]);
}
