//! The state of a holder as mathematics, and the steps it can take.
//!
//! The executable types of this crate have views of the types below, and state
//! what they do as functions on them. The laws of the protocol are proved over
//! these functions alone.

use vstd::prelude::*;
use crate::types::{PointIdType, SeqNumberType, SegmentId, WindowId};
use crate::point_map::{
    PointMap, delete, delete_applies, later, latest, merge_all, upsert, upsert_applies, version_after,
};

verus! {

/// What one optimization run shares among its proxies: the points written
/// since the proxies were installed, the version of the write segment that
/// holds them, and the ids deleted since then.
#[verifier::ext_equal]
pub struct WindowView {
    pub written: PointMap,
    pub version: SeqNumberType,
    pub deleted: Set<PointIdType>,
}

/// A write or a delete that a client issues against a segment.
pub enum ClientOp {
    Upsert { op_num: SeqNumberType, point_id: PointIdType },
    Delete { op_num: SeqNumberType, point_id: PointIdType },
}

impl ClientOp {
    pub open spec fn point(self) -> PointIdType {
        match self {
            ClientOp::Upsert { point_id, .. } => point_id,
            ClientOp::Delete { point_id, .. } => point_id,
        }
    }
}

impl WindowView {
    /// A window that nobody has deleted through yet.
    pub open spec fn fresh(written: PointMap, version: SeqNumberType) -> WindowView {
        WindowView { written, version, deleted: Set::empty() }
    }

    /// A write goes to the write segment and nowhere else.
    pub open spec fn upsert(self, op_num: SeqNumberType, id: PointIdType) -> WindowView {
        WindowView {
            written: upsert(self.written, op_num, id),
            version: version_after(self.version, op_num, upsert_applies(self.written, op_num, id)),
            deleted: self.deleted,
        }
    }

    /// A delete is recorded for all proxies of the run, and carried out on the
    /// write segment in case the point was written there.
    pub open spec fn delete(self, op_num: SeqNumberType, id: PointIdType) -> WindowView {
        WindowView {
            written: delete(self.written, op_num, id),
            version: version_after(self.version, op_num, delete_applies(self.written, op_num, id)),
            deleted: self.deleted.insert(id),
        }
    }

    pub open spec fn apply(self, op: ClientOp) -> WindowView {
        match op {
            ClientOp::Upsert { op_num, point_id } => self.upsert(op_num, point_id),
            ClientOp::Delete { op_num, point_id } => self.delete(op_num, point_id),
        }
    }

}

/// What a reader sees through a proxy over `wrapped`: the write segment first,
/// then what the frozen copy holds and nobody has deleted.
pub open spec fn proxy_points(wrapped: PointMap, window: WindowView) -> PointMap {
    Map::new(
        |id: PointIdType|
            window.written.contains_key(id) || (wrapped.contains_key(id) && !window.deleted.contains(id)),
        |id: PointIdType|
            if window.written.contains_key(id) {
                window.written[id]
            } else {
                wrapped[id]
            },
    )
}

/// The merged segment after the first pass: without the ids deleted so far.
pub open spec fn first_pass(merged: PointMap, deleted_snapshot: Set<PointIdType>) -> PointMap {
    merged.remove_keys(deleted_snapshot)
}

/// The merged segment after the second pass: also without the ids that were
/// deleted after the first snapshot was taken.
pub open spec fn reconcile(
    merged: PointMap,
    deleted_snapshot: Set<PointIdType>,
    deleted_now: Set<PointIdType>,
) -> PointMap {
    merged.remove_keys(deleted_now.difference(deleted_snapshot))
}

/// A segment as the holder keeps it.
#[verifier::ext_equal]
pub enum SegmentView {
    /// A segment of its own, with its version.
    Original { points: PointMap, version: SeqNumberType },
    /// A stand-in for a segment that is being merged. `wrapped` is the frozen
    /// copy, at `wrapped_version`; writes and deletes go to the window.
    Proxy { wrapped: PointMap, wrapped_version: SeqNumberType, window: WindowId },
}

#[verifier::ext_equal]
pub struct HolderView {
    pub segments: Map<SegmentId, SegmentView>,
    pub windows: Map<WindowId, WindowView>,
    /// The id that the next segment or window gets.
    pub next_id: usize,
}

impl HolderView {
    pub open spec fn empty() -> HolderView {
        HolderView { segments: Map::empty(), windows: Map::empty(), next_id: 0 }
    }

    /// Ids in use are below `next_id`, and every proxy has its window.
    pub open spec fn wf(self) -> bool {
        &&& forall|id: SegmentId| #[trigger] self.segments.contains_key(id) ==> id < self.next_id
        &&& forall|w: WindowId| #[trigger] self.windows.contains_key(w) ==> w < self.next_id
        &&& forall|id: SegmentId| #[trigger] self.segments.contains_key(id) ==> self.admits(self.segments[id])
    }

    /// A proxy can be held only while its window is open.
    pub open spec fn admits(self, segment: SegmentView) -> bool {
        segment matches SegmentView::Proxy { window, .. } ==> self.windows.contains_key(window)
    }

    /// Whether `n` more ids can be given out.
    pub open spec fn has_room(self, n: int) -> bool {
        self.next_id + n <= usize::MAX
    }

    pub open spec fn is_proxy_of(self, id: SegmentId, window: WindowId) -> bool {
        self.segments.contains_key(id) && match self.segments[id] {
            SegmentView::Proxy { window: w, .. } => w == window,
            SegmentView::Original { .. } => false,
        }
    }

    /// The proxies that write to `window`.
    pub open spec fn proxies_of(self, window: WindowId) -> Set<SegmentId> {
        Set::new(|id: SegmentId| self.is_proxy_of(id, window))
    }

    /// The points that a reader finds in the segment `id`.
    pub open spec fn points_of(self, id: SegmentId) -> PointMap {
        match self.segments[id] {
            SegmentView::Original { points, .. } => points,
            SegmentView::Proxy { wrapped, window, .. } => proxy_points(wrapped, self.windows[window]),
        }
    }

    /// The version of the segment `id`: its own, or for a proxy the later of
    /// the frozen copy's and the write segment's.
    pub open spec fn version_of(self, id: SegmentId) -> SeqNumberType {
        match self.segments[id] {
            SegmentView::Original { version, .. } => version,
            SegmentView::Proxy { wrapped_version, window, .. } => later(wrapped_version, self.windows[window].version),
        }
    }

    /// The points that a write against the segment `id` is measured against: the
    /// segment's own, or for a proxy those of the write segment.
    pub open spec fn write_target(self, id: SegmentId) -> PointMap {
        match self.segments[id] {
            SegmentView::Original { points, .. } => points,
            SegmentView::Proxy { window, .. } => self.windows[window].written,
        }
    }

    pub open spec fn add_locked(self, segment: SegmentView) -> HolderView {
        HolderView {
            segments: self.segments.insert(self.next_id, segment),
            windows: self.windows,
            next_id: (self.next_id + 1) as usize,
        }
    }

    pub open spec fn remove(self, ids: Set<SegmentId>) -> HolderView {
        HolderView { segments: self.segments.remove_keys(ids), windows: self.windows, next_id: self.next_id }
    }

    /// `ids` leave, `segment` comes in under a new id.
    pub open spec fn swap(self, segment: SegmentView, ids: Set<SegmentId>) -> HolderView {
        self.remove(ids).add_locked(segment)
    }

    pub open spec fn open_window(self, written: PointMap, version: SeqNumberType) -> HolderView {
        HolderView {
            segments: self.segments,
            windows: self.windows.insert(self.next_id, WindowView::fresh(written, version)),
            next_id: (self.next_id + 1) as usize,
        }
    }

    pub open spec fn close_window(self, window: WindowId) -> HolderView {
        HolderView { segments: self.segments, windows: self.windows.remove(window), next_id: self.next_id }
    }

    /// A client operation against the segment `id`. On a segment of its own it
    /// changes that segment; on a proxy it changes the window and leaves the
    /// frozen copy alone.
    pub open spec fn apply(self, id: SegmentId, op: ClientOp) -> HolderView {
        match self.segments[id] {
            SegmentView::Original { points, version } => HolderView {
                segments: self.segments.insert(
                    id,
                    match op {
                        ClientOp::Upsert { op_num, point_id } => SegmentView::Original {
                            points: upsert(points, op_num, point_id),
                            version: version_after(version, op_num, upsert_applies(points, op_num, point_id)),
                        },
                        ClientOp::Delete { op_num, point_id } => SegmentView::Original {
                            points: delete(points, op_num, point_id),
                            version: version_after(version, op_num, delete_applies(points, op_num, point_id)),
                        },
                    },
                ),
                windows: self.windows,
                next_id: self.next_id,
            },
            SegmentView::Proxy { window, .. } => HolderView {
                segments: self.segments,
                windows: self.windows.insert(window, self.windows[window].apply(op)),
                next_id: self.next_id,
            },
        }
    }
}

/// A client operation together with the segment it is issued against.
pub struct Routed {
    pub segment: SegmentId,
    pub op: ClientOp,
}

impl HolderView {
    /// One client operation. Against an id without a segment it does nothing.
    pub open spec fn step(self, routed: Routed) -> HolderView {
        if self.segments.contains_key(routed.segment) {
            self.apply(routed.segment, routed.op)
        } else {
            self
        }
    }

    /// The holder after all of `ops`, in order.
    pub open spec fn run(self, ops: Seq<Routed>) -> HolderView
        decreases ops.len(),
    {
        if ops.len() == 0 {
            self
        } else {
            self.run(ops.drop_last()).step(ops.last())
        }
    }

    /// Whether `routed` is a write of `point` that goes through a proxy of
    /// `window`.
    pub open spec fn writes(self, routed: Routed, window: WindowId, point: PointIdType) -> bool {
        self.is_proxy_of(routed.segment, window) && routed.op is Upsert && routed.op.point() == point
    }

    /// Whether `routed` is a delete of `point` that goes through a proxy of
    /// `window`.
    pub open spec fn deletes(self, routed: Routed, window: WindowId, point: PointIdType) -> bool {
        self.is_proxy_of(routed.segment, window) && routed.op is Delete && routed.op.point() == point
    }
}

/// The ids of `ids` that the optimizer takes: those under which the holder has
/// a segment, each once, in the order given. An id without a segment is passed
/// over. A proxy that an earlier run has left behind is taken like any other
/// segment.
pub open spec fn targets(holder: HolderView, ids: Seq<SegmentId>) -> Seq<SegmentId>
    decreases ids.len(),
{
    if ids.len() == 0 {
        Seq::empty()
    } else {
        let before = targets(holder, ids.drop_last());
        if holder.segments.contains_key(ids.last()) && !before.contains(ids.last()) {
            before.push(ids.last())
        } else {
            before
        }
    }
}

/// The points that a reader finds in the segments `ids`, in that order.
pub open spec fn contents(holder: HolderView, ids: Seq<SegmentId>) -> Seq<PointMap> {
    Seq::new(ids.len(), |k: int| holder.points_of(ids[k]))
}

/// The versions of the segments `ids`, in that order.
pub open spec fn versions(holder: HolderView, ids: Seq<SegmentId>) -> Seq<SeqNumberType> {
    Seq::new(ids.len(), |k: int| holder.version_of(ids[k]))
}

/// The holder after proxies were installed over `ids` with frozen copies
/// `wrapped` at `wrapped_versions`: a new window holds `written` at
/// `written_version`, then the segments make way one after the other, each for
/// a proxy under a new id. An id without a segment gets its proxy all the same.
pub open spec fn installed(
    holder: HolderView,
    ids: Seq<SegmentId>,
    wrapped: Seq<PointMap>,
    wrapped_versions: Seq<SeqNumberType>,
    written: PointMap,
    written_version: SeqNumberType,
) -> HolderView
    decreases ids.len(),
{
    if ids.len() == 0 {
        holder.open_window(written, written_version)
    } else {
        installed(
            holder,
            ids.drop_last(),
            wrapped.drop_last(),
            wrapped_versions.drop_last(),
            written,
            written_version,
        ).swap(
            SegmentView::Proxy {
                wrapped: wrapped.last(),
                wrapped_version: wrapped_versions.last(),
                window: holder.next_id,
            },
            set![ids.last()],
        )
    }
}

/// The holder after the run of `window` was finalized with the segment
/// `merged` at `merged_version`: the proxies of the window make way for it,
/// what was written during the run becomes a segment of its own unless nothing
/// was written, and the window is closed.
pub open spec fn finalized(
    holder: HolderView,
    window: WindowId,
    merged: PointMap,
    merged_version: SeqNumberType,
) -> HolderView {
    let swapped = holder.swap(
        SegmentView::Original { points: merged, version: merged_version },
        holder.proxies_of(window),
    );
    let written = holder.windows[window].written;
    let published = if !written.dom().is_empty() {
        swapped.add_locked(SegmentView::Original { points: written, version: holder.windows[window].version })
    } else {
        swapped
    };
    published.close_window(window)
}

/// The holder after a whole run over the segments `ids` during which no
/// client operation arrived: the segments have made way for one segment that
/// holds all the points that a reader found in them, at the latest of their
/// versions. The run uses up one id for its window, one for each proxy, and one
/// for the merged segment.
pub open spec fn optimized(holder: HolderView, ids: Seq<SegmentId>) -> HolderView {
    HolderView {
        segments: holder.segments.remove_keys(ids.to_set()).insert(
            (holder.next_id + ids.len() + 1) as usize,
            SegmentView::Original {
                points: merge_all(Map::empty(), contents(holder, ids)),
                version: latest(0, versions(holder, ids)),
            },
        ),
        windows: holder.windows,
        next_id: (holder.next_id + ids.len() + 2) as usize,
    }
}


/// What `targets` picks: ids under which the holder has a segment, none of them twice.
pub proof fn lemma_targets(holder: HolderView, ids: Seq<SegmentId>)
    ensures
        targets(holder, ids).no_duplicates(),
        targets(holder, ids).len() <= ids.len(),
        forall|id: SegmentId| #[trigger]
            targets(holder, ids).contains(id) <==> ids.contains(id) && holder.segments.contains_key(id),
    decreases ids.len(),
{
    let picked = targets(holder, ids);
    if ids.len() == 0 {
        assert forall|id: SegmentId| #[trigger] picked.contains(id) <==> ids.contains(id) && holder.segments.contains_key(id) by {}
    } else {
        let before = targets(holder, ids.drop_last());
        let last = ids.last();
        lemma_targets(holder, ids.drop_last());
        assert forall|id: SegmentId| ids.contains(id) <==> ids.drop_last().contains(id) || id == last by {
            if ids.contains(id) {
                let k = choose|k: int| 0 <= k < ids.len() && ids[k] == id;
                if k < ids.len() - 1 {
                    assert(ids.drop_last()[k] == id);
                }
            }
            if ids.drop_last().contains(id) {
                let k = choose|k: int| 0 <= k < ids.drop_last().len() && ids.drop_last()[k] == id;
                assert(ids[k] == id);
            }
            assert(ids[ids.len() - 1] == last);
        }
        if holder.segments.contains_key(last) && !before.contains(last) {
            crate::listing::lemma_push_fresh(before, last);
        }
        assert forall|id: SegmentId| #[trigger] picked.contains(id) <==> ids.contains(id) && holder.segments.contains_key(id) by {
            assert(before.contains(id) <==> ids.drop_last().contains(id) && holder.segments.contains_key(id));
        }
    }
}

/// A longer list of ids yields no fewer targets.
pub proof fn lemma_targets_grow(holder: HolderView, shorter: Seq<SegmentId>, longer: Seq<SegmentId>)
    requires
        shorter.len() <= longer.len(),
        longer.take(shorter.len() as int) == shorter,
    ensures
        targets(holder, shorter).len() <= targets(holder, longer).len(),
    decreases longer.len(),
{
    if shorter.len() < longer.len() {
        assert(longer.drop_last().take(shorter.len() as int) =~= shorter);
        lemma_targets_grow(holder, shorter, longer.drop_last());
    } else {
        assert(longer.take(shorter.len() as int) =~= longer);
    }
}

/// Where every id of `ids` is in use, installing proxies over them comes to
/// this: the segments under `ids` leave, the window gets the first new id, and
/// the proxy over `wrapped[k]` gets the new id after that of the one before.
pub proof fn lemma_installed(
    holder: HolderView,
    ids: Seq<SegmentId>,
    wrapped: Seq<PointMap>,
    wrapped_versions: Seq<SeqNumberType>,
    written: PointMap,
    written_version: SeqNumberType,
)
    requires
        holder.wf(),
        ids.len() == wrapped.len(),
        ids.len() == wrapped_versions.len(),
        forall|k: int| 0 <= k < ids.len() ==> ids[k] < holder.next_id,
        holder.has_room(ids.len() as int + 1),
    ensures
        ({
            let after = installed(holder, ids, wrapped, wrapped_versions, written, written_version);
            let window = holder.next_id;
            &&& after.wf()
            &&& after.next_id == window + ids.len() + 1
            &&& after.windows == holder.windows.insert(window, WindowView::fresh(written, written_version))
            &&& after.segments == Map::new(
                |id: SegmentId|
                    (holder.segments.contains_key(id) && !ids.contains(id)) || window < id <= window + ids.len(),
                |id: SegmentId|
                    if window < id <= window + ids.len() {
                        SegmentView::Proxy {
                            wrapped: wrapped[id - window - 1],
                            wrapped_version: wrapped_versions[id - window - 1],
                            window,
                        }
                    } else {
                        holder.segments[id]
                    },
            )
        }),
    decreases ids.len(),
{
    let after = installed(holder, ids, wrapped, wrapped_versions, written, written_version);
    let window = holder.next_id;
    let direct = Map::new(
        |id: SegmentId| (holder.segments.contains_key(id) && !ids.contains(id)) || window < id <= window + ids.len(),
        |id: SegmentId|
            if window < id <= window + ids.len() {
                SegmentView::Proxy {
                    wrapped: wrapped[id - window - 1],
                    wrapped_version: wrapped_versions[id - window - 1],
                    window,
                }
            } else {
                holder.segments[id]
            },
    );
    if ids.len() == 0 {
        assert(after.segments =~= direct);
    } else {
        let fewer = ids.drop_last();
        lemma_installed(holder, fewer, wrapped.drop_last(), wrapped_versions.drop_last(), written, written_version);
        assert forall|id: SegmentId| ids.contains(id) <==> fewer.contains(id) || id == ids.last() by {
            if ids.contains(id) {
                let k = choose|k: int| 0 <= k < ids.len() && ids[k] == id;
                if k < ids.len() - 1 {
                    assert(fewer[k] == id);
                }
            }
            if fewer.contains(id) {
                let k = choose|k: int| 0 <= k < fewer.len() && fewer[k] == id;
                assert(ids[k] == id);
            }
            assert(ids[ids.len() - 1] == ids.last());
        }
        assert(after.segments =~= direct);
        assert(after.windows =~= holder.windows.insert(window, WindowView::fresh(written, written_version)));
    }
}

/// A run during which no client operation arrives replaces the segments it
/// merges by their union and leaves everything else as it was.
pub proof fn lemma_quiet_run(holder: HolderView, ids: Seq<SegmentId>, written_version: SeqNumberType)
    requires
        holder.wf(),
        forall|k: int| 0 <= k < ids.len() ==> holder.segments.contains_key(#[trigger] ids[k]),
        holder.has_room(ids.len() as int + 3),
    ensures
        finalized(
            installed(holder, ids, contents(holder, ids), versions(holder, ids), Map::empty(), written_version),
            holder.next_id,
            merge_all(Map::empty(), contents(holder, ids)),
            latest(0, versions(holder, ids)),
        ) == optimized(holder, ids),
        optimized(holder, ids).wf(),
{
    let window = holder.next_id;
    let started = installed(holder, ids, contents(holder, ids), versions(holder, ids), Map::empty(), written_version);
    let merged = merge_all(Map::empty(), contents(holder, ids));
    lemma_installed(holder, ids, contents(holder, ids), versions(holder, ids), Map::empty(), written_version);
    assert forall|id: SegmentId| started.proxies_of(window).contains(id) <==> window < id <= window + ids.len() by {
        if started.segments.contains_key(id) && !(window < id <= window + ids.len()) {
            assert(holder.segments.contains_key(id));
            assert(holder.admits(holder.segments[id]));
        }
    }
    let ended = finalized(started, window, merged, latest(0, versions(holder, ids)));
    let direct = optimized(holder, ids);
    assert(started.windows[window].written.dom().is_empty());
    assert forall|id: SegmentId| ids.to_set().contains(id) <==> ids.contains(id) by {}
    assert(ended.segments =~= direct.segments);
    assert(ended.windows =~= direct.windows);
}

} // verus!
