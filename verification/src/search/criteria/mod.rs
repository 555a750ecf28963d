//! The ranking pipeline: what its stages hand to each other.

use vstd::prelude::*;
use crate::bitmap::{
    bitmap_clone, bitmap_intersect_with, bitmap_set, canonical_copy, empty_bitmap, insert_all,
};
use crate::error::MilliError;

pub mod initial;

verus! {

/// What one stage of the pipeline hands to the next.
pub struct CriterionResult<Q> {
    /// The query expression, as far as it is still to be resolved.
    pub query_tree: Option<Q>,
    /// The documents that match, set only once the expression was resolved in full.
    pub candidates: Option<roaring::RoaringBitmap>,
    /// A restriction from outside, such as a filter, that holds for every stage.
    pub filtered_candidates: Option<roaring::RoaringBitmap>,
    /// The documents to count for the exact number of hits.
    pub bucket_candidates: Option<roaring::RoaringBitmap>,
}

/// What a pipeline invocation lends to each stage.
pub struct CriterionParameters<'a, W> {
    /// The word-distance cache, shared by the stages and the resolver.
    pub wdcache: &'a mut W,
    /// The documents that earlier buckets have returned already.
    pub excluded_candidates: &'a roaring::RoaringBitmap,
}

/// A read-only view of the indexed data, as far as this library needs it: the
/// means to resolve a query expression into the documents that match it.
pub trait Context<Q, W> {
    /// Evaluates `query_tree` in full against the index.
    fn resolve_query_tree(&self, query_tree: &Q, wdcache: &mut W) -> Result<
        roaring::RoaringBitmap,
        MilliError,
    >;
}

/// A stage of the ranking pipeline.
pub trait Criterion<Q, W> {
    /// The next bucket of this stage, or `None` once it has no more.
    fn next(&mut self, params: &mut CriterionParameters<W>) -> Result<
        Option<CriterionResult<Q>>,
        MilliError,
    >;
}

/// The resolved documents that pass the filter: all of them where there is none.
pub open spec fn within_filter(
    resolved: Set<u32>,
    filter: Option<roaring::RoaringBitmap>,
) -> Set<u32> {
    match filter {
        Some(allowed) => resolved.intersect(bitmap_set(allowed)),
        None => resolved,
    }
}

/// The documents to count: the representatives where a distinct capability
/// gave some, else the candidates themselves.
pub open spec fn counted(candidates: Set<u32>, representatives: Option<Seq<u32>>) -> Set<u32> {
    match representatives {
        Some(ids) => ids.to_set(),
        None => candidates,
    }
}

/// The ids that a distinct capability yielded, as a sequence.
pub open spec fn yielded_ids(representatives: Option<Vec<u32>>) -> Option<Seq<u32>> {
    match representatives {
        Some(ids) => Some(ids@),
        None => None,
    }
}

/// `after` is `before` with the outcome of a full resolution stored in it:
/// `resolved` is what the expression resolved to, `representatives` what the
/// distinct capability yielded, if one was driven.
pub open spec fn exhaustively_resolved<Q>(
    before: CriterionResult<Q>,
    after: CriterionResult<Q>,
    resolved: Set<u32>,
    representatives: Option<Seq<u32>>,
) -> bool {
    &&& after.query_tree == before.query_tree
    &&& after.filtered_candidates == before.filtered_candidates
    &&& after.candidates matches Some(candidates)
    &&& bitmap_set(candidates) == within_filter(resolved, before.filtered_candidates)
    &&& after.bucket_candidates matches Some(bucket)
    &&& bitmap_set(bucket) == counted(bitmap_set(candidates), representatives)
}

impl<Q> CriterionResult<Q> {
    /// Narrows what the expression resolved to by the filter of this result.
    ///
    /// Both bitmaps come from outside and are intersected as canonical copies.
    pub fn filter_candidates(&self, resolved: roaring::RoaringBitmap) -> (candidates:
        roaring::RoaringBitmap)
        ensures
            bitmap_set(candidates) == within_filter(bitmap_set(resolved), self.filtered_candidates),
    {
        match &self.filtered_candidates {
            Some(filtered_candidates) => {
                let mut candidates = canonical_copy(&resolved);
                let allowed = canonical_copy(filtered_candidates);
                bitmap_intersect_with(&mut candidates, &allowed);
                candidates
            },
            None => resolved,
        }
    }

    /// Stores the outcome of a full resolution: the filtered candidates, and as
    /// bucket candidates every representative that the distinct capability
    /// yielded, or the candidates themselves where none was driven.
    pub fn with_candidates(
        self,
        candidates: roaring::RoaringBitmap,
        representatives: Option<Vec<u32>>,
    ) -> (sealed: Self)
        ensures
            sealed.query_tree == self.query_tree,
            sealed.filtered_candidates == self.filtered_candidates,
            sealed.candidates == Some(candidates),
            sealed.bucket_candidates matches Some(bucket) && bitmap_set(bucket) == counted(
                bitmap_set(candidates),
                yielded_ids(representatives),
            ),
    {
        let bucket_candidates = match representatives {
            Some(ids) => {
                let mut bucket_candidates = empty_bitmap();
                insert_all(&mut bucket_candidates, &ids);
                assert(Set::<u32>::empty().union(ids@.to_set()) =~= ids@.to_set());
                bucket_candidates
            },
            None => bitmap_clone(&candidates),
        };
        CriterionResult {
            query_tree: self.query_tree,
            candidates: Some(candidates),
            filtered_candidates: self.filtered_candidates,
            bucket_candidates: Some(bucket_candidates),
        }
    }
}

/// After a full resolution the candidates lie within what the expression
/// resolved to and within the filter. The bucket candidates are the candidates
/// themselves where no distinct capability was driven, and lie within them
/// where one was driven that yields none but candidates.
pub proof fn lemma_exhaustive_candidates_bounded<Q>(
    before: CriterionResult<Q>,
    after: CriterionResult<Q>,
    resolved: Set<u32>,
    representatives: Option<Seq<u32>>,
)
    requires
        exhaustively_resolved(before, after, resolved, representatives),
        representatives matches Some(ids) ==> ids.to_set().subset_of(
            within_filter(resolved, before.filtered_candidates),
        ),
    ensures
        after.candidates.is_some(),
        after.bucket_candidates.is_some(),
        bitmap_set(after.candidates.unwrap()).subset_of(resolved),
        before.filtered_candidates matches Some(allowed) ==> bitmap_set(
            after.candidates.unwrap(),
        ).subset_of(bitmap_set(allowed)),
        bitmap_set(after.bucket_candidates.unwrap()).subset_of(
            bitmap_set(after.candidates.unwrap()),
        ),
        representatives.is_none() ==> bitmap_set(after.bucket_candidates.unwrap()) == bitmap_set(
            after.candidates.unwrap(),
        ),
{
}

/// `picked` holds one document for each attribute value found among
/// `candidates`, and nothing else: every picked document is a candidate, no two
/// of them share a value, and every candidate's value is that of a picked one.
pub open spec fn one_per_value<V>(
    picked: Set<u32>,
    candidates: Set<u32>,
    value_of: spec_fn(u32) -> V,
) -> bool {
    &&& picked.subset_of(candidates)
    &&& forall|a: u32, b: u32|
        picked.contains(a) && picked.contains(b) && value_of(a) == value_of(b) ==> a == b
    &&& forall|c: u32| #[trigger]
        candidates.contains(c) ==> exists|p: u32|
            picked.contains(p) && #[trigger] value_of(p) == value_of(c)
}

/// The stage drives the distinct capability to its end and drops nothing of
/// what it yields: where the capability yields one document for each attribute
/// value among the candidates it was given, the bucket candidates hold one
/// document for each attribute value among the candidates of the result.
pub proof fn lemma_distinct_exhaustive<Q, V>(
    before: CriterionResult<Q>,
    after: CriterionResult<Q>,
    resolved: Set<u32>,
    ids: Seq<u32>,
    value_of: spec_fn(u32) -> V,
)
    requires
        exhaustively_resolved(before, after, resolved, Some(ids)),
        one_per_value(
            ids.to_set(),
            within_filter(resolved, before.filtered_candidates),
            value_of,
        ),
    ensures
        after.candidates.is_some(),
        after.bucket_candidates.is_some(),
        one_per_value(
            bitmap_set(after.bucket_candidates.unwrap()),
            bitmap_set(after.candidates.unwrap()),
            value_of,
        ),
{
}

} // verus!
