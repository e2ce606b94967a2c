//! The mathematical content of a segment: which points it holds, and for each
//! the version of the write that produced it.
//!
//! The version stands for the vector and payload that the write carried, so a
//! map from point id to version says both which points exist and which write
//! of each is the visible one.

use vstd::prelude::*;
use crate::types::{PointIdType, SeqNumberType};

verus! {

pub type PointMap = Map<PointIdType, SeqNumberType>;

/// The version under which `points` holds `id`, if it holds it.
pub open spec fn lookup(points: PointMap, id: PointIdType) -> Option<SeqNumberType> {
    if points.contains_key(id) {
        Some(points[id])
    } else {
        None
    }
}

/// A write takes effect unless the point is already there in a later version.
pub open spec fn upsert_applies(points: PointMap, op_num: SeqNumberType, id: PointIdType) -> bool {
    !points.contains_key(id) || points[id] <= op_num
}

pub open spec fn upsert(points: PointMap, op_num: SeqNumberType, id: PointIdType) -> PointMap {
    if upsert_applies(points, op_num, id) {
        points.insert(id, op_num)
    } else {
        points
    }
}

/// A delete takes effect on a point that is there in the same or an earlier
/// version. On an absent point, or on a later one, it does nothing.
pub open spec fn delete_applies(points: PointMap, op_num: SeqNumberType, id: PointIdType) -> bool {
    points.contains_key(id) && points[id] <= op_num
}

pub open spec fn delete(points: PointMap, op_num: SeqNumberType, id: PointIdType) -> PointMap {
    if delete_applies(points, op_num, id) {
        points.remove(id)
    } else {
        points
    }
}

/// The later of two versions.
pub open spec fn later(a: SeqNumberType, b: SeqNumberType) -> SeqNumberType {
    if a <= b {
        b
    } else {
        a
    }
}

/// The version of a segment after an operation with `op_num`.
pub open spec fn version_after(version: SeqNumberType, op_num: SeqNumberType, applied: bool) -> SeqNumberType {
    if applied {
        later(version, op_num)
    } else {
        version
    }
}

/// Whether `from`'s copy of `id` replaces what `into` holds when the two are
/// merged: it does when `into` lacks the point or holds no later version.
pub open spec fn merge_takes(into: PointMap, from: PointMap, id: PointIdType) -> bool {
    from.contains_key(id) && (!into.contains_key(id) || into[id] <= from[id])
}

/// All points of `from` merged into `into`; where both hold a point, the later
/// version stays.
pub open spec fn merge(into: PointMap, from: PointMap) -> PointMap {
    Map::new(
        |id: PointIdType| into.contains_key(id) || from.contains_key(id),
        |id: PointIdType| if merge_takes(into, from, id) { from[id] } else { into[id] },
    )
}

/// The segments of `parts`, merged one after the other into `into`.
pub open spec fn merge_all(into: PointMap, parts: Seq<PointMap>) -> PointMap
    decreases parts.len(),
{
    if parts.len() == 0 {
        into
    } else {
        merge(merge_all(into, parts.drop_last()), parts.last())
    }
}

/// The latest of `version` and all of `versions`.
pub open spec fn latest(version: SeqNumberType, versions: Seq<SeqNumberType>) -> SeqNumberType
    decreases versions.len(),
{
    if versions.len() == 0 {
        version
    } else {
        later(latest(version, versions.drop_last()), versions.last())
    }
}

/// Every version in `points` is at most `version`.
pub open spec fn bounded_by(points: PointMap, version: SeqNumberType) -> bool {
    forall|id: PointIdType| #[trigger] points.contains_key(id) ==> points[id] <= version
}

} // verus!
