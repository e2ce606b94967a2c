//! What an index is made of: the parts it consults, and what it answers.

use vstd::prelude::*;

verus! {

/// Position of a point inside a segment's storage.
pub type PointOffsetType = usize;

/// How well a point matches a query vector. A higher score is a better match.
pub type ScoreType = i64;

/// A point together with its score.
#[derive(Debug, Clone, Copy, PartialEq, Eq, Structural)]
pub struct ScoredPointOffset {
    pub idx: PointOffsetType,
    pub score: ScoreType,
}

/// The measure by which vectors are compared.
#[derive(Debug, Clone, Copy, PartialEq, Eq, Structural)]
pub enum Distance {
    Cosine,
    Euclid,
    Dot,
}

/// Tuning of a search. An index may ignore it.
#[derive(Debug, Clone, Copy, PartialEq, Eq, Structural)]
pub enum SearchParams {
    Hnsw { ef: usize },
}

/// Why an index could not answer.
#[derive(Debug, Clone, Copy, PartialEq, Eq, Structural)]
pub enum IndexError {
    /// A part of the index was being changed by another holder at that moment.
    BorrowFailed,
}

/// At most `top` points, the best first.
pub open spec fn is_top_list(scored: Seq<ScoredPointOffset>, top: usize) -> bool {
    &&& scored.len() <= top
    &&& forall|i: int, j: int| 0 <= i <= j < scored.len() ==> scored[i].score >= scored[j].score
}

/// Every point of `scored` is one of `points`.
pub open spec fn drawn_from(scored: Seq<ScoredPointOffset>, points: Seq<PointOffsetType>) -> bool {
    forall|i: int| 0 <= i < scored.len() ==> points.contains(#[trigger] scored[i].idx)
}

/// Decides whether a point meets a filter.
pub trait ConditionChecker {
    /// The filters that the checker understands.
    type Filter;

    /// Whether the point meets the filter, as the checker's state stands.
    spec fn accepts(&self, point_id: PointOffsetType, query: &Self::Filter) -> bool;

    fn check(&self, point_id: PointOffsetType, query: &Self::Filter) -> (b: bool)
        ensures
            b == self.accepts(point_id, query),
    ;
}

/// Knows which points a segment stores.
pub trait VectorStorage {
    /// The stored points, in the order in which the storage lists them.
    spec fn ids(&self) -> Seq<PointOffsetType>;

    fn iter_ids(&self) -> (ids: Vec<PointOffsetType>)
        ensures
            ids@ == self.ids(),
    ;
}

/// Scores stored points against a query vector.
pub trait VectorMatcher {
    /// The query vectors that the matcher takes.
    type Vector;

    /// What `score_points` answers, as the matcher's state stands.
    spec fn scored_points(
        &self,
        vector: &Self::Vector,
        points: Seq<PointOffsetType>,
        top: usize,
        distance: Distance,
    ) -> Seq<ScoredPointOffset>;

    /// What `score_all` answers, as the matcher's state stands.
    spec fn scored_all(&self, vector: &Self::Vector, top: usize, distance: Distance) -> Seq<ScoredPointOffset>;

    /// The best `top` of `points`, the best first.
    fn score_points(&self, vector: &Self::Vector, points: &Vec<PointOffsetType>, top: usize, distance: &Distance) -> (scored:
        Vec<ScoredPointOffset>)
        ensures
            scored@ == self.scored_points(vector, points@, top, *distance),
            is_top_list(scored@, top),
            drawn_from(scored@, points@),
    ;

    /// The best `top` of all points, the best first.
    fn score_all(&self, vector: &Self::Vector, top: usize, distance: &Distance) -> (scored: Vec<ScoredPointOffset>)
        ensures
            scored@ == self.scored_all(vector, top, *distance),
            is_top_list(scored@, top),
    ;
}

/// Finds the points that meet a filter.
pub trait PayloadIndex {
    /// The filters that the index understands.
    type Filter;

    /// Whether `ids` is an answer that the index can give to `query`.
    spec fn answers(&self, query: &Self::Filter, ids: Seq<PointOffsetType>) -> bool;

    /// Bounds on the number of points that meet the filter: at least the
    /// first, at most the second.
    fn estimate_cardinality(&self, query: &Self::Filter) -> (r: Result<(usize, usize), IndexError>)
        ensures
            r matches Ok(bounds) ==> bounds.0 <= bounds.1,
    ;

    /// The points that meet the filter.
    fn query_points(&self, query: &Self::Filter) -> (r: Result<Vec<PointOffsetType>, IndexError>)
        ensures
            r matches Ok(ids) ==> self.answers(query, ids@),
    ;
}

/// Searches for the points nearest to a vector, among those that meet a filter.
pub trait Index {
    type Vector;

    type Filter;

    /// At most `top` points, the best first.
    fn search(&self, vector: &Self::Vector, filter: Option<&Self::Filter>, top: usize, params: Option<&SearchParams>) -> (r: Result<
        Vec<ScoredPointOffset>,
        IndexError,
    >)
        ensures
            r matches Ok(scored) ==> is_top_list(scored@, top),
    ;

    fn build_index(&mut self)
    ;
}

} // verus!
