//! What the protocol guarantees, for every run and every interleaving of
//! client operations with its steps.
//!
//! The laws speak of a holder in which a run has installed its proxies, of the
//! client operations that arrive afterwards, in any number and against any
//! segments, and of the holder after [`finalized`].

use vstd::prelude::*;
use crate::types::{PointIdType, SeqNumberType, SegmentId, WindowId};
use crate::point_map::{PointMap, merge_all, lookup};
use crate::model::{
    ClientOp, HolderView, Routed, contents, finalized, first_pass, installed, lemma_installed, proxy_points, reconcile,
    versions,
};

verus! {

/// Client operations change neither which ids are in use nor what stands
/// behind a proxy, and they keep every window open. A deletion set only grows.
pub proof fn lemma_run_keeps_proxies(holder: HolderView, ops: Seq<Routed>)
    requires
        holder.wf(),
    ensures
        holder.run(ops).wf(),
        holder.run(ops).next_id == holder.next_id,
        holder.run(ops).segments.dom() == holder.segments.dom(),
        holder.run(ops).windows.dom() == holder.windows.dom(),
        forall|id: SegmentId| #[trigger]
            holder.segments.contains_key(id) && holder.segments[id] is Proxy ==> holder.run(ops).segments[id]
                == holder.segments[id],
        forall|id: SegmentId| #[trigger]
            holder.segments.contains_key(id) && holder.segments[id] is Original ==> holder.run(ops).segments[id] is Original,
        forall|w: WindowId| #[trigger]
            holder.windows.contains_key(w) ==> holder.windows[w].deleted.subset_of(holder.run(ops).windows[w].deleted),
    decreases ops.len(),
{
    if ops.len() > 0 {
        let before = holder.run(ops.drop_last());
        lemma_run_keeps_proxies(holder, ops.drop_last());
        let last = ops.last();
        let after = before.step(last);
        if before.segments.contains_key(last.segment) {
            assert(holder.segments.dom().contains(last.segment));
            assert(before.admits(before.segments[last.segment]));
            assert(after.segments.dom() =~= before.segments.dom());
            assert(after.windows.dom() =~= before.windows.dom());
            assert forall|id: SegmentId| #[trigger] after.segments.contains_key(id) implies after.admits(
                after.segments[id],
            ) by {
                assert(before.segments.contains_key(id));
                assert(before.admits(before.segments[id]));
            }
        }
        assert forall|w: WindowId| #[trigger] holder.windows.contains_key(w) implies holder.windows[w].deleted.subset_of(
            after.windows[w].deleted,
        ) by {
            assert(before.windows.dom().contains(w));
        }
    }
}

/// No lost write. Take a holder with an open window, and any client operations
/// after it. If one of them writes a point through a proxy of the window, and
/// no later one deletes that point through such a proxy, then after
/// finalization the holder has the point, in that version or a later one, in
/// the segment that the write segment was published as.
pub proof fn law_no_lost_write(
    holder: HolderView,
    window: WindowId,
    ops: Seq<Routed>,
    i: int,
    op_num: SeqNumberType,
    point_id: PointIdType,
    merged: PointMap,
    merged_version: SeqNumberType,
)
    requires
        holder.wf(),
        holder.windows.contains_key(window),
        holder.has_room(2),
        0 <= i < ops.len(),
        holder.is_proxy_of(ops[i].segment, window),
        ops[i].op == (ClientOp::Upsert { op_num, point_id }),
        forall|j: int| i < j < ops.len() ==> !holder.deletes(#[trigger] ops[j], window, point_id),
    ensures
        ({
            let after = finalized(holder.run(ops), window, merged, merged_version);
            let published = (holder.next_id + 1) as usize;
            &&& after.segments.contains_key(published)
            &&& after.segments[published] is Original
            &&& after.segments[published]->points.contains_key(point_id)
            &&& after.segments[published]->points[point_id] >= op_num
        }),
{
    lemma_run_keeps_proxies(holder, ops);
    lemma_written_stays(holder, window, ops, i, op_num, point_id);
    let at_end = holder.run(ops);
    assert(at_end.windows[window].written.dom().contains(point_id));
}

/// After the write `ops[i]`, and no delete of the point after it, the write
/// segment holds the point in the version written or a later one.
proof fn lemma_written_stays(
    holder: HolderView,
    window: WindowId,
    ops: Seq<Routed>,
    i: int,
    op_num: SeqNumberType,
    point_id: PointIdType,
)
    requires
        holder.wf(),
        holder.windows.contains_key(window),
        0 <= i < ops.len(),
        holder.is_proxy_of(ops[i].segment, window),
        ops[i].op == (ClientOp::Upsert { op_num, point_id }),
        forall|j: int| i < j < ops.len() ==> !holder.deletes(#[trigger] ops[j], window, point_id),
    ensures
        holder.run(ops).windows[window].written.contains_key(point_id),
        holder.run(ops).windows[window].written[point_id] >= op_num,
    decreases ops.len(),
{
    let before = holder.run(ops.drop_last());
    let last = ops.last();
    lemma_run_keeps_proxies(holder, ops.drop_last());
    assert(holder.segments.dom().contains(ops[i].segment));
    if i == ops.len() - 1 {
        assert(before.segments[last.segment] == holder.segments[last.segment]);
    } else {
        assert(ops.drop_last()[i] == ops[i]);
        assert forall|j: int| i < j < ops.drop_last().len() implies !holder.deletes(
            #[trigger] ops.drop_last()[j],
            window,
            point_id,
        ) by {
            assert(ops.drop_last()[j] == ops[j]);
        }
        lemma_written_stays(holder, window, ops.drop_last(), i, op_num, point_id);
        assert(!holder.deletes(ops[ops.len() - 1], window, point_id));
        if before.segments.contains_key(last.segment) {
            assert(holder.segments.dom().contains(last.segment));
            if holder.segments[last.segment] is Proxy {
                assert(before.segments[last.segment] == holder.segments[last.segment]);
            } else {
                assert(before.segments[last.segment] is Original);
            }
        }
    }
}

/// Once a delete through a proxy of the window has arrived, the deletion set
/// holds the point for good.
proof fn lemma_deleted_stays(holder: HolderView, window: WindowId, ops: Seq<Routed>, i: int, point_id: PointIdType)
    requires
        holder.wf(),
        holder.windows.contains_key(window),
        0 <= i < ops.len(),
        holder.is_proxy_of(ops[i].segment, window),
        ops[i].op is Delete,
        ops[i].op.point() == point_id,
    ensures
        holder.run(ops).windows[window].deleted.contains(point_id),
    decreases ops.len(),
{
    let before = holder.run(ops.drop_last());
    let last = ops.last();
    lemma_run_keeps_proxies(holder, ops.drop_last());
    assert(holder.segments.dom().contains(ops[i].segment));
    if i == ops.len() - 1 {
        assert(before.segments[last.segment] == holder.segments[last.segment]);
    } else {
        assert(ops.drop_last()[i] == ops[i]);
        lemma_deleted_stays(holder, window, ops.drop_last(), i, point_id);
        assert(before.windows.dom().contains(window));
        assert(before.windows[window].deleted.subset_of(before.step(last).windows[window].deleted));
    }
}

/// The two passes together delete exactly what was deleted by the end,
/// whenever the first snapshot was taken.
pub proof fn law_two_passes(merged: PointMap, deleted_snapshot: Set<PointIdType>, deleted_now: Set<PointIdType>)
    requires
        deleted_snapshot.subset_of(deleted_now),
    ensures
        reconcile(first_pass(merged, deleted_snapshot), deleted_snapshot, deleted_now) == merged.remove_keys(
            deleted_now,
        ),
{
    assert(reconcile(first_pass(merged, deleted_snapshot), deleted_snapshot, deleted_now) =~= merged.remove_keys(
        deleted_now,
    ));
}

/// No lost delete. Take a holder with an open window, and any client operations
/// after it, of which the first `first_pass_at` arrive before the first pass
/// takes its snapshot of the deletion set, and the others after. If one of
/// them, before or after, deletes a point through a proxy of the window, then
/// the merged segment that finalization swaps in does not hold the point.
pub proof fn law_no_lost_delete(
    holder: HolderView,
    window: WindowId,
    ops: Seq<Routed>,
    i: int,
    first_pass_at: int,
    point_id: PointIdType,
    merged: PointMap,
    merged_version: SeqNumberType,
)
    requires
        holder.wf(),
        holder.windows.contains_key(window),
        holder.has_room(2),
        0 <= i < ops.len(),
        0 <= first_pass_at <= ops.len(),
        holder.is_proxy_of(ops[i].segment, window),
        ops[i].op is Delete,
        ops[i].op.point() == point_id,
    ensures
        ({
            let snapshot = holder.run(ops.take(first_pass_at)).windows[window].deleted;
            let at_end = holder.run(ops);
            let after = finalized(
                at_end,
                window,
                reconcile(first_pass(merged, snapshot), snapshot, at_end.windows[window].deleted),
                merged_version,
            );
            &&& after.segments.contains_key(holder.next_id)
            &&& after.segments[holder.next_id] is Original
            &&& !after.segments[holder.next_id]->points.contains_key(point_id)
        }),
{
    lemma_run_keeps_proxies(holder, ops);
    lemma_deleted_stays(holder, window, ops, i, point_id);
}

/// A deleted point is gone. In the setting of [`law_no_lost_delete`], let no
/// later operation write the point through a proxy of the window, and let the
/// write segment hold no later version of the point when the delete arrives.
/// Then after finalization neither the merged segment nor the segment that the
/// write segment was published as holds the point.
///
/// Without the two conditions the point may rightly be there: a write after
/// the delete brings it back, and a delete does nothing to a later version.
pub proof fn law_deleted_point_gone(
    holder: HolderView,
    window: WindowId,
    ops: Seq<Routed>,
    i: int,
    first_pass_at: int,
    op_num: SeqNumberType,
    point_id: PointIdType,
    merged: PointMap,
    merged_version: SeqNumberType,
)
    requires
        holder.wf(),
        holder.windows.contains_key(window),
        holder.has_room(2),
        0 <= i < ops.len(),
        0 <= first_pass_at <= ops.len(),
        holder.is_proxy_of(ops[i].segment, window),
        ops[i].op == (ClientOp::Delete { op_num, point_id }),
        forall|j: int| i < j < ops.len() ==> !holder.writes(#[trigger] ops[j], window, point_id),
        match lookup(holder.run(ops.take(i)).windows[window].written, point_id) {
            Some(version) => version <= op_num,
            None => true,
        },
    ensures
        ({
            let snapshot = holder.run(ops.take(first_pass_at)).windows[window].deleted;
            let at_end = holder.run(ops);
            let after = finalized(
                at_end,
                window,
                reconcile(first_pass(merged, snapshot), snapshot, at_end.windows[window].deleted),
                merged_version,
            );
            let published = (holder.next_id + 1) as usize;
            &&& !after.segments[holder.next_id]->points.contains_key(point_id)
            &&& after.segments.contains_key(published) ==> after.segments[published] is Original
                && !after.segments[published]->points.contains_key(point_id)
        }),
{
    law_no_lost_delete(holder, window, ops, i, first_pass_at, point_id, merged, merged_version);
    lemma_run_keeps_proxies(holder, ops);
    lemma_unwritten_stays(holder, window, ops, i, op_num, point_id);
}

/// After the delete `ops[i]` has taken the point out of the write segment, and
/// no write of the point after it, the write segment does not hold the point.
proof fn lemma_unwritten_stays(
    holder: HolderView,
    window: WindowId,
    ops: Seq<Routed>,
    i: int,
    op_num: SeqNumberType,
    point_id: PointIdType,
)
    requires
        holder.wf(),
        holder.windows.contains_key(window),
        0 <= i < ops.len(),
        holder.is_proxy_of(ops[i].segment, window),
        ops[i].op == (ClientOp::Delete { op_num, point_id }),
        forall|j: int| i < j < ops.len() ==> !holder.writes(#[trigger] ops[j], window, point_id),
        match lookup(holder.run(ops.take(i)).windows[window].written, point_id) {
            Some(version) => version <= op_num,
            None => true,
        },
    ensures
        !holder.run(ops).windows[window].written.contains_key(point_id),
    decreases ops.len(),
{
    let before = holder.run(ops.drop_last());
    let last = ops.last();
    lemma_run_keeps_proxies(holder, ops.drop_last());
    assert(holder.segments.dom().contains(ops[i].segment));
    if i == ops.len() - 1 {
        assert(ops.take(i) =~= ops.drop_last());
        assert(before.segments[last.segment] == holder.segments[last.segment]);
    } else {
        assert(ops.drop_last()[i] == ops[i]);
        assert(ops.drop_last().take(i) =~= ops.take(i));
        assert forall|j: int| i < j < ops.drop_last().len() implies !holder.writes(
            #[trigger] ops.drop_last()[j],
            window,
            point_id,
        ) by {
            assert(ops.drop_last()[j] == ops[j]);
        }
        lemma_unwritten_stays(holder, window, ops.drop_last(), i, op_num, point_id);
        assert(!holder.writes(ops[ops.len() - 1], window, point_id));
        if before.segments.contains_key(last.segment) {
            assert(holder.segments.dom().contains(last.segment));
            if holder.segments[last.segment] is Proxy {
                assert(before.segments[last.segment] == holder.segments[last.segment]);
            } else {
                assert(before.segments[last.segment] is Original);
            }
        }
    }
}

/// What a merge holds came from one of its parts.
pub proof fn lemma_merge_all_contains(into: PointMap, parts: Seq<PointMap>, point_id: PointIdType)
    ensures
        merge_all(into, parts).contains_key(point_id) <==> into.contains_key(point_id) || exists|k: int|
            0 <= k < parts.len() && (#[trigger] parts[k]).contains_key(point_id),
    decreases parts.len(),
{
    if parts.len() > 0 {
        lemma_merge_all_contains(into, parts.drop_last(), point_id);
        if exists|k: int| 0 <= k < parts.len() && (#[trigger] parts[k]).contains_key(point_id) {
            let k = choose|k: int| 0 <= k < parts.len() && (#[trigger] parts[k]).contains_key(point_id);
            if k < parts.len() - 1 {
                assert(parts.drop_last()[k].contains_key(point_id));
            }
        }
        if exists|k: int| 0 <= k < parts.drop_last().len() && (#[trigger] parts.drop_last()[k]).contains_key(point_id) {
            let k = choose|k: int|
                0 <= k < parts.drop_last().len() && (#[trigger] parts.drop_last()[k]).contains_key(point_id);
            assert(parts[k].contains_key(point_id));
        }
        if parts.last().contains_key(point_id) {
            assert(parts[parts.len() - 1].contains_key(point_id));
        }
    }
}

/// No resurrection. A point that a reader finds in none of the segments to
/// merge when the run takes its copies is not in the merged segment that the
/// run swaps in:
/// whatever clients do in the meantime, and whenever the first pass takes its
/// snapshot of the deletion set.
pub proof fn law_no_resurrection(
    holder: HolderView,
    ids: Seq<SegmentId>,
    written: PointMap,
    written_version: SeqNumberType,
    ops: Seq<Routed>,
    deleted_snapshot: Set<PointIdType>,
    merged_version: SeqNumberType,
    point_id: PointIdType,
)
    requires
        holder.wf(),
        holder.has_room(ids.len() as int + 3),
        forall|k: int| 0 <= k < ids.len() ==> holder.segments.contains_key(#[trigger] ids[k]),
        forall|k: int| 0 <= k < ids.len() ==> !holder.points_of(#[trigger] ids[k]).contains_key(point_id),
    ensures
        ({
            let window = holder.next_id;
            let at_end = installed(
                holder,
                ids,
                contents(holder, ids),
                versions(holder, ids),
                written,
                written_version,
            ).run(ops);
            let merged = merge_all(Map::empty(), contents(holder, ids));
            let after = finalized(
                at_end,
                window,
                reconcile(first_pass(merged, deleted_snapshot), deleted_snapshot, at_end.windows[window].deleted),
                merged_version,
            );
            let merged_id = (holder.next_id + ids.len() + 1) as usize;
            &&& after.segments.contains_key(merged_id)
            &&& after.segments[merged_id] is Original
            &&& !after.segments[merged_id]->points.contains_key(point_id)
        }),
{
    let started = installed(holder, ids, contents(holder, ids), versions(holder, ids), written, written_version);
    lemma_installed(holder, ids, contents(holder, ids), versions(holder, ids), written, written_version);
    lemma_run_keeps_proxies(started, ops);
    lemma_merge_all_contains(Map::empty(), contents(holder, ids), point_id);
}

/// Idempotent finalize. Running the second pass again on its own result, with
/// the same two deletion sets, changes nothing.
pub proof fn law_finalize_idempotent(
    merged: PointMap,
    deleted_snapshot: Set<PointIdType>,
    deleted_now: Set<PointIdType>,
)
    ensures
        reconcile(reconcile(merged, deleted_snapshot, deleted_now), deleted_snapshot, deleted_now) == reconcile(
            merged,
            deleted_snapshot,
            deleted_now,
        ),
{
    assert(reconcile(reconcile(merged, deleted_snapshot, deleted_now), deleted_snapshot, deleted_now) =~= reconcile(
        merged,
        deleted_snapshot,
        deleted_now,
    ));
}

/// A run is finalized once. Finalization closes the window of the run, so a
/// second finalization of the same run finds no window; it then fails and
/// leaves the holder as the first one left it.
pub proof fn law_finalize_closes_window(
    holder: HolderView,
    window: WindowId,
    merged: PointMap,
    merged_version: SeqNumberType,
)
    ensures
        !finalized(holder, window, merged, merged_version).windows.contains_key(window),
{
}

/// Doing `ops` is doing the first `k` of them and then the rest.
proof fn lemma_run_split(holder: HolderView, ops: Seq<Routed>, k: int)
    requires
        0 <= k <= ops.len(),
    ensures
        holder.run(ops) == holder.run(ops.take(k)).run(ops.skip(k)),
    decreases ops.len() - k,
{
    if k == ops.len() {
        assert(ops.take(k) =~= ops);
        assert(ops.skip(k) =~= Seq::<Routed>::empty());
    } else {
        assert(ops.drop_last().take(k) =~= ops.take(k));
        assert(ops.drop_last().skip(k) =~= ops.skip(k).drop_last());
        assert(ops.skip(k).last() == ops.last());
        lemma_run_split(holder, ops.drop_last(), k);
    }
}

/// A client reads what it has written. After a write through a segment of the
/// holder, be it a proxy or not, a reader of that segment finds the point in the
/// version written, or in a later one that was there before.
pub proof fn law_read_your_write(
    holder: HolderView,
    segment: SegmentId,
    op_num: SeqNumberType,
    point_id: PointIdType,
)
    requires
        holder.wf(),
        holder.segments.contains_key(segment),
    ensures
        ({
            let after = holder.apply(segment, ClientOp::Upsert { op_num, point_id });
            &&& after.points_of(segment).contains_key(point_id)
            &&& after.points_of(segment)[point_id] >= op_num
        }),
{
    assert(holder.admits(holder.segments[segment]));
}

/// A delete is honoured at once, by every proxy of the run. After a delete
/// through one proxy of a window, a reader of any proxy of that window finds
/// the point only if the write segment holds it in a later version.
pub proof fn law_delete_is_seen_at_once(
    holder: HolderView,
    window: WindowId,
    through: SegmentId,
    reader: SegmentId,
    op_num: SeqNumberType,
    point_id: PointIdType,
)
    requires
        holder.wf(),
        holder.is_proxy_of(through, window),
        holder.is_proxy_of(reader, window),
    ensures
        ({
            let after = holder.apply(through, ClientOp::Delete { op_num, point_id });
            after.points_of(reader).contains_key(point_id) ==> after.points_of(reader)[point_id] > op_num
                && lookup(holder.windows[window].written, point_id) == Some(after.points_of(reader)[point_id])
        }),
{
    assert(holder.admits(holder.segments[through]));
}

/// Installing the proxies changes nothing for readers. Right after the
/// proxies are installed over segments of the holder with an empty write
/// segment, a reader finds in each proxy exactly the points, and the versions,
/// of the segment that made way for it.
pub proof fn law_install_is_invisible(holder: HolderView, ids: Seq<SegmentId>, written_version: SeqNumberType, k: int)
    requires
        holder.wf(),
        holder.has_room(ids.len() as int + 1),
        forall|j: int| 0 <= j < ids.len() ==> holder.segments.contains_key(#[trigger] ids[j]),
        0 <= k < ids.len(),
    ensures
        ({
            let after = installed(holder, ids, contents(holder, ids), versions(holder, ids), Map::empty(), written_version);
            let proxy = (holder.next_id + 1 + k) as usize;
            &&& after.is_proxy_of(proxy, holder.next_id)
            &&& after.points_of(proxy) == holder.points_of(ids[k])
        }),
{
    lemma_installed(holder, ids, contents(holder, ids), versions(holder, ids), Map::empty(), written_version);
    let after = installed(holder, ids, contents(holder, ids), versions(holder, ids), Map::empty(), written_version);
    let proxy = (holder.next_id + 1 + k) as usize;
    assert(holder.segments.contains_key(ids[k]));
    assert(after.points_of(proxy) =~= holder.points_of(ids[k]));
}

/// The swap changes nothing for readers. Take a run over segments of the
/// holder, with an empty write segment, and any client operations after the
/// proxies are installed, of which the first `first_pass_at` arrive before the
/// first pass takes its snapshot of the deletion set. Then a reader finds a
/// point in the segments that finalization leaves behind, the merged one or
/// the published write segment, exactly if a reader found it in one of the
/// proxies just before.
pub proof fn law_swap_is_invisible(
    holder: HolderView,
    ids: Seq<SegmentId>,
    written_version: SeqNumberType,
    ops: Seq<Routed>,
    first_pass_at: int,
    merged_version: SeqNumberType,
    point_id: PointIdType,
)
    requires
        holder.wf(),
        holder.has_room(ids.len() as int + 3),
        ids.len() > 0,
        forall|j: int| 0 <= j < ids.len() ==> holder.segments.contains_key(#[trigger] ids[j]),
        0 <= first_pass_at <= ops.len(),
    ensures
        ({
            let window = holder.next_id;
            let started = installed(holder, ids, contents(holder, ids), versions(holder, ids), Map::empty(), written_version);
            let at_end = started.run(ops);
            let snapshot = started.run(ops.take(first_pass_at)).windows[window].deleted;
            let merged = merge_all(Map::empty(), contents(holder, ids));
            let after = finalized(
                at_end,
                window,
                reconcile(first_pass(merged, snapshot), snapshot, at_end.windows[window].deleted),
                merged_version,
            );
            let merged_id = (holder.next_id + ids.len() + 1) as usize;
            let published = (merged_id + 1) as usize;
            &&& after.segments.contains_key(merged_id)
            &&& after.segments[merged_id] is Original
            &&& after.segments.contains_key(published) ==> after.segments[published] is Original
            &&& (exists|j: int|
                0 <= j < ids.len() && #[trigger] at_end.points_of((window + 1 + j) as usize).contains_key(point_id))
                <==> after.segments[merged_id]->points.contains_key(point_id) || (after.segments.contains_key(
                published,
            ) && after.segments[published]->points.contains_key(point_id))
        }),
{
    let window = holder.next_id;
    let parts = contents(holder, ids);
    let started = installed(holder, ids, parts, versions(holder, ids), Map::empty(), written_version);
    let middle = started.run(ops.take(first_pass_at));
    let at_end = started.run(ops);
    let snapshot = middle.windows[window].deleted;
    let now = at_end.windows[window].deleted;
    let written = at_end.windows[window].written;
    let merged = merge_all(Map::empty(), parts);
    lemma_installed(holder, ids, parts, versions(holder, ids), Map::empty(), written_version);
    lemma_run_keeps_proxies(started, ops);
    lemma_run_keeps_proxies(started, ops.take(first_pass_at));
    lemma_run_split(started, ops, first_pass_at);
    lemma_run_keeps_proxies(middle, ops.skip(first_pass_at));
    assert(middle.windows.dom().contains(window));
    assert(snapshot.subset_of(now));
    law_two_passes(merged, snapshot, now);
    lemma_merge_all_contains(Map::empty(), parts, point_id);
    assert forall|j: int| 0 <= j < ids.len() implies #[trigger] at_end.points_of((window + 1 + j) as usize)
        == proxy_points(parts[j], at_end.windows[window]) by {
        let proxy = (window + 1 + j) as usize;
        assert(started.segments.contains_key(proxy));
        assert(started.segments[proxy] is Proxy);
    }
    let seen = exists|j: int|
        0 <= j < ids.len() && #[trigger] at_end.points_of((window + 1 + j) as usize).contains_key(point_id);
    let held = merged.remove_keys(now).contains_key(point_id) || written.contains_key(point_id);
    if seen {
        let j = choose|j: int|
            0 <= j < ids.len() && #[trigger] at_end.points_of((window + 1 + j) as usize).contains_key(point_id);
        assert(proxy_points(parts[j], at_end.windows[window]).contains_key(point_id));
        assert(held);
    }
    if held {
        if written.contains_key(point_id) {
            assert(at_end.points_of((window + 1 + 0) as usize).contains_key(point_id));
        } else {
            let j = choose|j: int| 0 <= j < parts.len() && (#[trigger] parts[j]).contains_key(point_id);
            assert(at_end.points_of((window + 1 + j) as usize).contains_key(point_id));
        }
        assert(seen);
    }
    assert(written.contains_key(point_id) ==> !written.dom().is_empty());
}

} // verus!
