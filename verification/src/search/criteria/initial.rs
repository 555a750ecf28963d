//! The first stage of the ranking pipeline.

use vstd::prelude::*;
use crate::bitmap::{bitmap_clone, bitmap_set, empty_bitmap};
use crate::error::MilliError;
use crate::search::criteria::{
    exhaustively_resolved, within_filter, yielded_ids, Context, Criterion, CriterionParameters, CriterionResult,
};
use crate::search::Distinct;

verus! {

/// The mandatory first stage: it yields the result that the other stages work
/// on, once, and nothing ever after.
pub struct Initial<'t, C, D, Q> {
    ctx: &'t C,
    answer: Option<CriterionResult<Q>>,
    exhaustive_number_hits: bool,
    distinct: Option<D>,
}

impl<'t, C, D, Q> Initial<'t, C, D, Q> {
    /// The result that the stage has still to yield; `None` once it is exhausted.
    pub closed spec fn pending(&self) -> Option<CriterionResult<Q>> {
        self.answer
    }

    /// Whether the stage resolves the expression in full for an exact count.
    pub closed spec fn exhaustive(&self) -> bool {
        self.exhaustive_number_hits
    }

    /// Whether the next advance resolves the query expression: the stage is
    /// pending, counts exhaustively and has an expression.
    pub open spec fn resolves(&self) -> bool {
        &&& self.exhaustive()
        &&& self.pending() matches Some(answer)
        &&& answer.query_tree.is_some()
    }

    /// The context that the stage resolves against.
    pub closed spec fn context(&self) -> &'t C {
        self.ctx
    }

    /// The distinct capability, as it stands.
    pub closed spec fn capability(&self) -> Option<D> {
        self.distinct
    }

    /// Whether a distinct capability was supplied.
    pub open spec fn has_distinct(&self) -> bool {
        self.capability().is_some()
    }

    /// A stage that has still to yield its one result: the query expression and
    /// the filter are set in it, the candidates are not.
    pub fn new(
        ctx: &'t C,
        query_tree: Option<Q>,
        filtered_candidates: Option<roaring::RoaringBitmap>,
        exhaustive_number_hits: bool,
        distinct: Option<D>,
    ) -> (stage: Self)
        ensures
            stage.pending() == Some(
                (CriterionResult {
                    query_tree,
                    candidates: None,
                    filtered_candidates,
                    bucket_candidates: None,
                }),
            ),
            stage.exhaustive() == exhaustive_number_hits,
            stage.context() == ctx,
            stage.capability() == distinct,
    {
        let answer = CriterionResult {
            query_tree,
            candidates: None,
            filtered_candidates,
            bucket_candidates: None,
        };
        Initial { ctx, answer: Some(answer), exhaustive_number_hits, distinct }
    }
}

/// What one advance of the stage does: `before` and `after` are the stage around
/// the call, `yielded` is what the call returned.
///
/// The stage is exhausted afterwards, whatever happened. An exhausted stage
/// yields nothing. A pending stage yields its result as it is, unless it counts
/// exhaustively and has a query expression: then the result comes with the
/// candidates and the bucket candidates of a full resolution, or the call fails
/// with the error of the resolver or of the distinct capability.
pub open spec fn advanced<'t, C, D, Q>(
    before: Initial<'t, C, D, Q>,
    after: Initial<'t, C, D, Q>,
    yielded: Result<Option<CriterionResult<Q>>, MilliError>,
) -> bool {
    &&& after.pending().is_none()
    &&& after.exhaustive() == before.exhaustive()
    &&& after.context() == before.context()
    &&& after.has_distinct() == before.has_distinct()
    &&& match before.pending() {
        None => yielded == Ok::<Option<CriterionResult<Q>>, MilliError>(None),
        Some(answer) => if before.exhaustive() && answer.query_tree.is_some() {
            match yielded {
                Ok(Some(sealed)) => exists|resolved: Set<u32>, representatives: Option<Seq<u32>>|
                    {
                        &&& #[trigger] exhaustively_resolved(
                            answer,
                            sealed,
                            resolved,
                            representatives,
                        )
                        &&& representatives.is_some() == before.has_distinct()
                    },
                Ok(None) => false,
                Err(_) => true,
            }
        } else {
            yielded == Ok::<Option<CriterionResult<Q>>, MilliError>(Some(answer))
        },
    }
}

impl<'t, C: Context<Q, W>, D: Distinct, Q, W> Criterion<Q, W> for Initial<'t, C, D, Q> {
    fn next(&mut self, params: &mut CriterionParameters<W>) -> (r: Result<
        Option<CriterionResult<Q>>,
        MilliError,
    >)
        ensures
            advanced(*old(self), *final(self), r),
            final(params).excluded_candidates == old(params).excluded_candidates,
            !old(self).resolves() ==> *final(params).wdcache == *old(params).wdcache,
            !old(self).resolves() ==> final(self).capability() == old(self).capability(),
            // A result of a full resolution is made of what the resolver returned for
            // the pending expression and, where there is a distinct capability, of
            // what it yielded for the filtered candidates and nothing seen.
            old(self).resolves() ==> (r matches Ok(Some(sealed)) ==> exists|
                cache: &mut W,
                found: roaring::RoaringBitmap,
            |
                {
                    &&& *cache == *old(params).wdcache
                    &&& *final(cache) == *final(params).wdcache
                    &&& #[trigger] call_ensures(
                        C::resolve_query_tree,
                        (
                            old(self).context(),
                            &old(self).pending().unwrap().query_tree.unwrap(),
                            cache,
                        ),
                        Ok::<roaring::RoaringBitmap, MilliError>(found),
                    )
                    &&& match old(self).capability() {
                        None => {
                            &&& final(self).capability().is_none()
                            &&& exhaustively_resolved(
                                old(self).pending().unwrap(),
                                sealed,
                                bitmap_set(found),
                                None,
                            )
                        },
                        Some(_) => exists|
                            policy: &mut D,
                            given: roaring::RoaringBitmap,
                            seen: roaring::RoaringBitmap,
                            ids: Vec<u32>,
                        |
                            {
                                &&& Some(*policy) == old(self).capability()
                                &&& Some(*final(policy)) == final(self).capability()
                                &&& bitmap_set(given) == within_filter(
                                    bitmap_set(found),
                                    old(self).pending().unwrap().filtered_candidates,
                                )
                                &&& bitmap_set(seen) == Set::<u32>::empty()
                                &&& #[trigger] call_ensures(
                                    D::distinct,
                                    (policy, given, seen),
                                    Ok::<Vec<u32>, MilliError>(ids),
                                )
                                &&& exhaustively_resolved(
                                    old(self).pending().unwrap(),
                                    sealed,
                                    bitmap_set(found),
                                    Some(ids@),
                                )
                            },
                    }
                }),
            // An error is the resolver's, or that of the distinct capability after
            // the resolver succeeded.
            old(self).resolves() ==> (r matches Err(error) ==> exists|
                cache: &mut W,
                resolved: Result<roaring::RoaringBitmap, MilliError>,
            |
                {
                    &&& *cache == *old(params).wdcache
                    &&& *final(cache) == *final(params).wdcache
                    &&& #[trigger] call_ensures(
                        C::resolve_query_tree,
                        (
                            old(self).context(),
                            &old(self).pending().unwrap().query_tree.unwrap(),
                            cache,
                        ),
                        resolved,
                    )
                    &&& match resolved {
                        Err(failure) => failure == error && final(self).capability() == old(
                            self,
                        ).capability(),
                        Ok(found) => exists|
                            policy: &mut D,
                            given: roaring::RoaringBitmap,
                            seen: roaring::RoaringBitmap,
                        |
                            {
                                &&& Some(*policy) == old(self).capability()
                                &&& Some(*final(policy)) == final(self).capability()
                                &&& bitmap_set(given) == within_filter(
                                    bitmap_set(found),
                                    old(self).pending().unwrap().filtered_candidates,
                                )
                                &&& bitmap_set(seen) == Set::<u32>::empty()
                                &&& #[trigger] call_ensures(
                                    D::distinct,
                                    (policy, given, seen),
                                    Err::<Vec<u32>, MilliError>(error),
                                )
                            },
                    }
                }),
    {
        let answer = match self.answer.take() {
            Some(answer) => answer,
            None => return Ok(None),
        };
        if self.exhaustive_number_hits && answer.query_tree.is_some() {
            // An exact count needs every matching document: resolve the expression in full.
            let resolved = match &answer.query_tree {
                Some(query_tree) => self.ctx.resolve_query_tree(query_tree, &mut *params.wdcache),
                None => return Ok(Some(answer)),
            };
            assert(exists|cache: &mut W|
                {
                    &&& *cache == *old(params).wdcache
                    &&& *final(cache) == *params.wdcache
                    &&& #[trigger] call_ensures(
                        C::resolve_query_tree,
                        (
                            old(self).context(),
                            &old(self).pending().unwrap().query_tree.unwrap(),
                            cache,
                        ),
                        resolved,
                    )
                });
            let resolved = match resolved {
                Ok(resolved) => resolved,
                Err(error) => return Err(error),
            };
            let ghost resolved_set = bitmap_set(resolved);
            let candidates = answer.filter_candidates(resolved);
            // The count is of distinct documents, so the capability runs now, on all of them.
            let representatives = match &mut self.distinct {
                Some(distinct) => {
                    match distinct.distinct(bitmap_clone(&candidates), empty_bitmap()) {
                        Ok(ids) => Some(ids),
                        Err(error) => return Err(error),
                    }
                },
                None => None,
            };
            let ghost yielded = yielded_ids(representatives);
            let ghost pending = answer;
            let sealed = answer.with_candidates(candidates, representatives);
            assert(exhaustively_resolved(pending, sealed, resolved_set, yielded));
            Ok(Some(sealed))
        } else {
            Ok(Some(answer))
        }
    }
}

/// The stage fires once. Of two advances in a row the second yields nothing
/// and leaves the stage exhausted, whatever the first one did; and the first,
/// on a stage that was pending, yields a result unless it fails.
pub proof fn lemma_single_fire<'t, C, D, Q>(
    start: Initial<'t, C, D, Q>,
    between: Initial<'t, C, D, Q>,
    end: Initial<'t, C, D, Q>,
    first: Result<Option<CriterionResult<Q>>, MilliError>,
    second: Result<Option<CriterionResult<Q>>, MilliError>,
)
    requires
        advanced(start, between, first),
        advanced(between, end, second),
    ensures
        second == Ok::<Option<CriterionResult<Q>>, MilliError>(None),
        end.pending().is_none(),
        start.pending().is_some() ==> (first matches Ok(yielded) ==> yielded.is_some()),
{
}

} // verus!
