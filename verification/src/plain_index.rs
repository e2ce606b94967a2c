//! An index without a structure of its own: it checks every point.

use vstd::prelude::*;
use std::sync::Arc;
use atomic_refcell::AtomicRefCell;
use crate::index::{
    ConditionChecker, Distance, Index, IndexError, PayloadIndex, PointOffsetType, ScoredPointOffset, SearchParams,
    VectorMatcher, VectorStorage, drawn_from, is_top_list,
};
use crate::shared_cell::borrowed;
use crate::listing::{lemma_take_step, lemma_take_ends};

verus! {

/// Those of `ids` that `checker` accepts for `query`, in the order of `ids`.
pub open spec fn matching<C: ConditionChecker + ?Sized>(
    checker: &C,
    ids: Seq<PointOffsetType>,
    query: &C::Filter,
) -> Seq<PointOffsetType> {
    ids.filter(|id: PointOffsetType| checker.accepts(id, query))
}

/// The stored points that meet the filter, found by checking each of them.
pub fn query_points_in<C: ConditionChecker + ?Sized, S: VectorStorage + ?Sized>(
    condition_checker: &C,
    vector_storage: &S,
    query: &C::Filter,
) -> (matched_points: Vec<PointOffsetType>)
    ensures
        matched_points@ == matching(condition_checker, vector_storage.ids(), query),
{
    let ids = vector_storage.iter_ids();
    let ghost pred = |id: PointOffsetType| condition_checker.accepts(id, query);
    let mut matched_points: Vec<PointOffsetType> = Vec::new();
    let mut i: usize = 0;
    proof {
        lemma_take_ends(ids@);
        reveal(Seq::filter);
        assert(ids@.take(0).filter(pred) =~= Seq::<PointOffsetType>::empty());
    }
    while i < ids.len()
        invariant
            i <= ids.len(),
            pred == |id: PointOffsetType| condition_checker.accepts(id, query),
            matched_points@ == ids@.take(i as int).filter(pred),
        decreases ids.len() - i,
    {
        proof {
            lemma_take_step(ids@, i as int);
            ids@.take(i as int).lemma_filter_push(ids@[i as int], pred);
        }
        if condition_checker.check(ids[i], query) {
            matched_points.push(ids[i]);
        }
        i += 1;
    }
    proof {
        lemma_take_ends(ids@);
    }
    matched_points
}

/// The number of stored points that meet the filter, as the lower and as the
/// upper bound: checking every point gives the exact number.
pub fn estimate_cardinality_in<C: ConditionChecker + ?Sized, S: VectorStorage + ?Sized>(
    condition_checker: &C,
    vector_storage: &S,
    query: &C::Filter,
) -> (bounds: (usize, usize))
    ensures
        bounds.0 == matching(condition_checker, vector_storage.ids(), query).len(),
        bounds.1 == bounds.0,
{
    let ids = vector_storage.iter_ids();
    let ghost pred = |id: PointOffsetType| condition_checker.accepts(id, query);
    let mut matched_points: usize = 0;
    let mut i: usize = 0;
    proof {
        lemma_take_ends(ids@);
        reveal(Seq::filter);
        assert(ids@.take(0).filter(pred) =~= Seq::<PointOffsetType>::empty());
    }
    while i < ids.len()
        invariant
            i <= ids.len(),
            pred == |id: PointOffsetType| condition_checker.accepts(id, query),
            matched_points == ids@.take(i as int).filter(pred).len(),
            matched_points <= i,
        decreases ids.len() - i,
    {
        proof {
            lemma_take_step(ids@, i as int);
            ids@.take(i as int).lemma_filter_push(ids@[i as int], pred);
        }
        if condition_checker.check(ids[i], query) {
            matched_points += 1;
        }
        i += 1;
    }
    proof {
        lemma_take_ends(ids@);
    }
    (matched_points, matched_points)
}

/// A payload index that holds a condition checker and a vector storage, both
/// shared with the segment that owns them.
#[verifier::reject_recursive_types(C)]
#[verifier::reject_recursive_types(S)]
pub struct PlainPayloadIndex<C: ConditionChecker + ?Sized, S: VectorStorage + ?Sized> {
    condition_checker: Arc<AtomicRefCell<C>>,
    vector_storage: Arc<AtomicRefCell<S>>,
}

impl<C: ConditionChecker + ?Sized, S: VectorStorage + ?Sized> PlainPayloadIndex<C, S> {
    pub closed spec fn condition_checker(&self) -> Arc<AtomicRefCell<C>> {
        self.condition_checker
    }

    pub closed spec fn vector_storage(&self) -> Arc<AtomicRefCell<S>> {
        self.vector_storage
    }

    pub fn new(condition_checker: Arc<AtomicRefCell<C>>, vector_storage: Arc<AtomicRefCell<S>>) -> (index: Self)
        ensures
            index.condition_checker() == condition_checker,
            index.vector_storage() == vector_storage,
    {
        PlainPayloadIndex { condition_checker, vector_storage }
    }
}

impl<C: ConditionChecker + ?Sized, S: VectorStorage + ?Sized> PayloadIndex for PlainPayloadIndex<C, S> {
    type Filter = C::Filter;

    /// An answer is what checking every stored point gives for some state of
    /// the checker and of the storage.
    open spec fn answers(&self, query: &C::Filter, ids: Seq<PointOffsetType>) -> bool {
        exists|checker: &C, storage: &S| ids == #[trigger] matching(checker, storage.ids(), query)
    }

    /// Both bounds are the exact number of matches at the moment of the call.
    fn estimate_cardinality(&self, query: &C::Filter) -> (r: Result<(usize, usize), IndexError>)
        ensures
            r matches Ok(bounds) ==> bounds.0 == bounds.1 && exists|ids: Seq<PointOffsetType>|
                #[trigger] self.answers(query, ids) && bounds.0 == ids.len(),
    {
        let checker_guard = match self.condition_checker.try_borrow() {
            Ok(guard) => guard,
            Err(_) => {
                return Err(IndexError::BorrowFailed);
            },
        };
        let storage_guard = match self.vector_storage.try_borrow() {
            Ok(guard) => guard,
            Err(_) => {
                return Err(IndexError::BorrowFailed);
            },
        };
        let condition_checker = borrowed(&checker_guard);
        let vector_storage = borrowed(&storage_guard);
        let bounds = estimate_cardinality_in(condition_checker, vector_storage, query);
        proof {
            assert(self.answers(query, matching(condition_checker, vector_storage.ids(), query)));
        }
        Ok(bounds)
    }

    fn query_points(&self, query: &C::Filter) -> (r: Result<Vec<PointOffsetType>, IndexError>) {
        let checker_guard = match self.condition_checker.try_borrow() {
            Ok(guard) => guard,
            Err(_) => {
                return Err(IndexError::BorrowFailed);
            },
        };
        let storage_guard = match self.vector_storage.try_borrow() {
            Ok(guard) => guard,
            Err(_) => {
                return Err(IndexError::BorrowFailed);
            },
        };
        let condition_checker = borrowed(&checker_guard);
        let vector_storage = borrowed(&storage_guard);
        Ok(query_points_in(condition_checker, vector_storage, query))
    }
}

/// What a search answers once the matcher is at hand and the filter has been
/// evaluated: the best `top` of the points that met the filter, or of all
/// points where there was no filter.
pub fn search_in<M: VectorMatcher + ?Sized>(
    vector_matcher: &M,
    distance: &Distance,
    vector: &M::Vector,
    filtered_ids: Option<&Vec<PointOffsetType>>,
    top: usize,
) -> (scored: Vec<ScoredPointOffset>)
    ensures
        is_top_list(scored@, top),
        match filtered_ids {
            Some(ids) => scored@ == vector_matcher.scored_points(vector, ids@, top, *distance) && drawn_from(
                scored@,
                ids@,
            ),
            None => scored@ == vector_matcher.scored_all(vector, top, *distance),
        },
{
    match filtered_ids {
        Some(ids) => vector_matcher.score_points(vector, ids, top, distance),
        None => vector_matcher.score_all(vector, top, distance),
    }
}

/// An index that holds a vector matcher and a payload index, both shared.
#[verifier::reject_recursive_types(M)]
#[verifier::reject_recursive_types(P)]
pub struct PlainIndex<M: VectorMatcher + ?Sized, P: PayloadIndex + ?Sized> {
    vector_matcher: Arc<AtomicRefCell<M>>,
    payload_index: Arc<AtomicRefCell<P>>,
    distance: Distance,
}

impl<M: VectorMatcher + ?Sized, P: PayloadIndex + ?Sized> PlainIndex<M, P> {
    pub closed spec fn vector_matcher(&self) -> Arc<AtomicRefCell<M>> {
        self.vector_matcher
    }

    pub closed spec fn payload_index(&self) -> Arc<AtomicRefCell<P>> {
        self.payload_index
    }

    pub closed spec fn distance(&self) -> Distance {
        self.distance
    }

    pub fn new(vector_matcher: Arc<AtomicRefCell<M>>, payload_index: Arc<AtomicRefCell<P>>, distance: Distance) -> (index:
        PlainIndex<M, P>)
        ensures
            index.vector_matcher() == vector_matcher,
            index.payload_index() == payload_index,
            index.distance() == distance,
    {
        PlainIndex { vector_matcher, payload_index, distance }
    }
}

impl<M: VectorMatcher + ?Sized, P: PayloadIndex + ?Sized> Index for PlainIndex<M, P> {
    type Vector = M::Vector;

    type Filter = P::Filter;

    /// The answer of [`search_in`] for the matcher as it is at the moment of
    /// the call, and for the points that the payload index gives for the
    /// filter at that moment. The payload index is consulted only where there
    /// is a filter.
    fn search(&self, vector: &M::Vector, filter: Option<&P::Filter>, top: usize, _params: Option<&SearchParams>) -> (r:
        Result<Vec<ScoredPointOffset>, IndexError>)
        ensures
            r matches Err(e) ==> e == IndexError::BorrowFailed,
            r matches Ok(scored) ==> (filter matches Some(query) ==> exists|
                matcher: &M,
                payload_index: &P,
                ids: Seq<PointOffsetType>,
            | #[trigger]
                filtered_answer(matcher, payload_index, self.distance(), vector, query, ids, top, scored@)),
            r matches Ok(scored) ==> (filter is None ==> exists|matcher: &M|
                scored@ == #[trigger] matcher.scored_all(vector, top, self.distance())),
    {
        let matcher_guard = match self.vector_matcher.try_borrow() {
            Ok(guard) => guard,
            Err(_) => {
                return Err(IndexError::BorrowFailed);
            },
        };
        let vector_matcher = borrowed(&matcher_guard);
        match filter {
            Some(query) => {
                let payload_guard = match self.payload_index.try_borrow() {
                    Ok(guard) => guard,
                    Err(_) => {
                        return Err(IndexError::BorrowFailed);
                    },
                };
                let payload_index = borrowed(&payload_guard);
                let filtered_ids = match payload_index.query_points(query) {
                    Ok(ids) => ids,
                    Err(_) => {
                        return Err(IndexError::BorrowFailed);
                    },
                };
                let scored = search_in(vector_matcher, &self.distance, vector, Some(&filtered_ids), top);
                proof {
                    assert(filtered_answer(
                        vector_matcher,
                        payload_index,
                        self.distance(),
                        vector,
                        query,
                        filtered_ids@,
                        top,
                        scored@,
                    ));
                }
                Ok(scored)
            },
            None => {
                let scored = search_in(vector_matcher, &self.distance, vector, None, top);
                proof {
                    assert(scored@ == vector_matcher.scored_all(vector, top, self.distance()));
                }
                Ok(scored)
            },
        }
    }

    /// There is nothing to build.
    fn build_index(&mut self)
        ensures
            *final(self) == *old(self),
    {
    }
}

/// Whether `scored` is what a search with a filter answers with these parts of
/// the index, if the payload index gives `ids` for the filter: the matcher's
/// choice among `ids`.
pub open spec fn filtered_answer<M: VectorMatcher + ?Sized, P: PayloadIndex + ?Sized>(
    vector_matcher: &M,
    payload_index: &P,
    distance: Distance,
    vector: &M::Vector,
    query: &P::Filter,
    ids: Seq<PointOffsetType>,
    top: usize,
    scored: Seq<ScoredPointOffset>,
) -> bool {
    &&& payload_index.answers(query, ids)
    &&& scored == vector_matcher.scored_points(vector, ids, top, distance)
    &&& drawn_from(scored, ids)
}

} // verus!
