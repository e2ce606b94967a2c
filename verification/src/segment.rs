//! A segment that keeps its points in memory.

use vstd::prelude::*;
use vstd::std_specs::iter::IteratorSpec;
use std::collections::HashMap;
use crate::types::{PointIdType, SeqNumberType, SegmentError};
use crate::point_map::{PointMap, bounded_by, later, merge, merge_takes};
use crate::entry::SegmentEntry;
use crate::listing::{lemma_take_step, lemma_take_ends};

verus! {

broadcast use vstd::std_specs::hash::group_hash_axioms;

/// A segment in memory. Its operations never fail.
pub struct Segment {
    points: HashMap<PointIdType, SeqNumberType>,
    version: SeqNumberType,
}

impl Segment {
    /// An empty segment at version 0.
    pub fn new() -> (s: Segment)
        ensures
            s.wf(),
            s.points() == PointMap::empty(),
            s.spec_version() == 0,
    {
        Segment { points: HashMap::new(), version: 0 }
    }
}

impl SegmentEntry for Segment {
    closed spec fn wf(&self) -> bool {
        bounded_by(self.points@, self.version)
    }

    closed spec fn points(&self) -> PointMap {
        self.points@
    }

    closed spec fn spec_version(&self) -> SeqNumberType {
        self.version
    }

    open spec fn never_fails() -> bool {
        true
    }

    fn version(&self) -> (v: SeqNumberType) {
        self.version
    }

    fn vectors_count(&self) -> (n: usize) {
        self.points.len()
    }

    fn has_point(&self, point_id: PointIdType) -> (b: bool) {
        self.points.contains_key(&point_id)
    }

    fn point_version(&self, point_id: PointIdType) -> (v: Option<SeqNumberType>) {
        match self.points.get(&point_id) {
            Some(v) => Some(*v),
            None => None,
        }
    }

    fn point_ids(&self) -> (ids: Vec<PointIdType>) {
        let mut ids: Vec<PointIdType> = Vec::new();
        let ghost all: Seq<&PointIdType> = self.points.keys().remaining();
        for id in it: self.points.keys()
            invariant
                it.seq() == all,
                ids@ == all.take(it.index()).unref(),
        {
            ids.push(*id);
        }
        assert(ids@ =~= all.unref());
        ids
    }

    fn upsert_point(&mut self, op_num: SeqNumberType, point_id: PointIdType) -> (r: Result<bool, SegmentError>) {
        let stale = match self.points.get(&point_id) {
            Some(v) => *v > op_num,
            None => false,
        };
        if stale {
            return Ok(false);
        }
        if self.version < op_num {
            self.version = op_num;
        }
        self.points.insert(point_id, op_num);
        Ok(true)
    }

    fn delete_point(&mut self, op_num: SeqNumberType, point_id: PointIdType) -> (r: Result<bool, SegmentError>) {
        let applies = match self.points.get(&point_id) {
            Some(v) => *v <= op_num,
            None => false,
        };
        if !applies {
            return Ok(false);
        }
        if self.version < op_num {
            self.version = op_num;
        }
        self.points.remove(&point_id);
        Ok(true)
    }

    fn update_from(&mut self, other: &Self) {
        let ghost before = self.points@;
        let ghost before_version = self.version;
        if self.version < other.version {
            self.version = other.version;
        }
        let ids = other.point_ids();
        let mut i: usize = 0;
        proof {
            lemma_take_ends(ids@);
        }
        while i < ids.len()
            invariant
                i <= ids.len(),
                ids@.to_set() == other.points@.dom(),
                bounded_by(other.points@, other.version),
                self.version == later(before_version, other.version),
                bounded_by(before, before_version),
                bounded_by(self.points@, self.version),
                forall|p: PointIdType| #[trigger]
                    self.points@.contains_key(p) <==> before.contains_key(p) || ids@.take(i as int).contains(p),
                forall|p: PointIdType| #[trigger]
                    self.points@.contains_key(p) ==> self.points@[p] == if ids@.take(i as int).contains(p) && merge_takes(
                        before,
                        other.points@,
                        p,
                    ) {
                        other.points@[p]
                    } else {
                        before[p]
                    },
            decreases ids.len() - i,
        {
            let id = ids[i];
            proof {
                assert(ids@.to_set().contains(id));
                lemma_take_step(ids@, i as int);
            }
            if let Some(incoming) = other.point_version(id) {
                let keep = match self.points.get(&id) {
                    Some(v) => *v > incoming,
                    None => false,
                };
                if !keep {
                    self.points.insert(id, incoming);
                }
            }
            i += 1;
        }
        proof {
            lemma_take_ends(ids@);
            assert(self.points@ =~= merge(before, other.points@));
        }
    }

    fn build_index(&mut self) {
    }

    fn mk_copy(&self) -> (r: Result<Self, SegmentError>) {
        Ok(Segment { points: self.points.clone(), version: self.version })
    }
}

} // verus!
