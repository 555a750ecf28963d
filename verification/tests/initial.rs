use std::cell::Cell;

use milli::bitmap::{canonical_copy, insert_all};
use milli::error::MilliError;
use milli::search::criteria::initial::Initial;
use milli::search::criteria::{Context, Criterion, CriterionParameters, CriterionResult};
use milli::search::Distinct;
use roaring::RoaringBitmap;

fn bitmap(ids: &[u32]) -> RoaringBitmap {
    ids.iter().copied().collect()
}

fn ids(bitmap: &Option<RoaringBitmap>) -> Option<Vec<u32>> {
    bitmap.as_ref().map(|b| b.iter().collect())
}

// A context whose queries are the documents they match.
struct Documents {
    resolutions: Cell<u32>,
    fails: bool,
}

impl Documents {
    fn new() -> Documents {
        Documents { resolutions: Cell::new(0), fails: false }
    }
}

impl Context<Vec<u32>, u32> for Documents {
    fn resolve_query_tree(
        &self,
        query_tree: &Vec<u32>,
        wdcache: &mut u32,
    ) -> Result<RoaringBitmap, MilliError> {
        self.resolutions.set(self.resolutions.get() + 1);
        *wdcache += 1;
        if self.fails {
            Err(MilliError::Resolution("no such word".to_string()))
        } else {
            Ok(query_tree.iter().copied().collect())
        }
    }
}

// Documents stand for the same attribute value when they agree modulo ten; the least one is kept.
struct ByLastDigit {
    given: Vec<(Vec<u32>, Vec<u32>)>,
    fails: bool,
}

impl ByLastDigit {
    fn new() -> ByLastDigit {
        ByLastDigit { given: Vec::new(), fails: false }
    }
}

impl Distinct for ByLastDigit {
    fn distinct(
        &mut self,
        candidates: RoaringBitmap,
        excluded: RoaringBitmap,
    ) -> Result<Vec<u32>, MilliError> {
        self.given.push((candidates.iter().collect(), excluded.iter().collect()));
        if self.fails {
            return Err(MilliError::Distinct("attribute is missing".to_string()));
        }
        let mut seen = Vec::new();
        let mut picked = Vec::new();
        for id in candidates.iter() {
            if !seen.contains(&(id % 10)) {
                seen.push(id % 10);
                picked.push(id);
            }
        }
        picked.reverse();
        Ok(picked)
    }
}

fn advance<C: Context<Vec<u32>, u32>, D: Distinct>(
    stage: &mut Initial<C, D, Vec<u32>>,
    wdcache: &mut u32,
) -> Result<Option<CriterionResult<Vec<u32>>>, MilliError> {
    let excluded = RoaringBitmap::new();
    let mut params = CriterionParameters { wdcache, excluded_candidates: &excluded };
    stage.next(&mut params)
}

#[test]
fn the_stage_fires_once() {
    for exhaustive in [false, true] {
        for with_distinct in [false, true] {
            let ctx = Documents::new();
            let distinct = if with_distinct { Some(ByLastDigit::new()) } else { None };
            let mut stage =
                Initial::new(&ctx, Some(vec![1, 2]), Some(bitmap(&[2])), exhaustive, distinct);
            let mut wdcache = 0;
            assert!(advance(&mut stage, &mut wdcache).unwrap().is_some());
            assert!(advance(&mut stage, &mut wdcache).unwrap().is_none());
            assert!(advance(&mut stage, &mut wdcache).unwrap().is_none());
        }
    }
}

#[test]
fn without_exhaustive_counting_the_result_comes_as_it_was_made() {
    let ctx = Documents::new();
    let mut stage = Initial::new(
        &ctx,
        Some(vec![1, 2, 3]),
        Some(bitmap(&[2, 3, 4])),
        false,
        Some(ByLastDigit::new()),
    );
    let mut wdcache = 0;
    let answer = advance(&mut stage, &mut wdcache).unwrap().unwrap();
    assert_eq!(answer.query_tree, Some(vec![1, 2, 3]));
    assert_eq!(ids(&answer.filtered_candidates), Some(vec![2, 3, 4]));
    assert_eq!(ids(&answer.candidates), None);
    assert_eq!(ids(&answer.bucket_candidates), None);
    assert_eq!(ctx.resolutions.get(), 0);
    assert_eq!(wdcache, 0);
}

#[test]
fn without_a_query_the_result_comes_as_it_was_made() {
    let ctx = Documents::new();
    let mut stage: Initial<Documents, ByLastDigit, Vec<u32>> =
        Initial::new(&ctx, None, Some(bitmap(&[5])), true, Some(ByLastDigit::new()));
    let mut wdcache = 0;
    let answer = advance(&mut stage, &mut wdcache).unwrap().unwrap();
    assert_eq!(answer.query_tree, None);
    assert_eq!(ids(&answer.filtered_candidates), Some(vec![5]));
    assert_eq!(ids(&answer.candidates), None);
    assert_eq!(ids(&answer.bucket_candidates), None);
    assert_eq!(ctx.resolutions.get(), 0);
}

#[test]
fn exhaustive_counting_resolves_and_filters() {
    let ctx = Documents::new();
    let mut stage: Initial<Documents, ByLastDigit, Vec<u32>> =
        Initial::new(&ctx, Some(vec![1, 2, 3, 11]), Some(bitmap(&[2, 3, 4, 11])), true, None);
    let mut wdcache = 0;
    let answer = advance(&mut stage, &mut wdcache).unwrap().unwrap();
    assert_eq!(answer.query_tree, Some(vec![1, 2, 3, 11]));
    assert_eq!(ids(&answer.filtered_candidates), Some(vec![2, 3, 4, 11]));
    assert_eq!(ids(&answer.candidates), Some(vec![2, 3, 11]));
    assert_eq!(ids(&answer.bucket_candidates), Some(vec![2, 3, 11]));
    assert_eq!(ctx.resolutions.get(), 1);
    assert_eq!(wdcache, 1);
}

#[test]
fn exhaustive_counting_without_a_filter_keeps_all_that_resolved() {
    let ctx = Documents::new();
    let mut stage: Initial<Documents, ByLastDigit, Vec<u32>> =
        Initial::new(&ctx, Some(vec![9, 8]), None, true, None);
    let mut wdcache = 0;
    let answer = advance(&mut stage, &mut wdcache).unwrap().unwrap();
    assert_eq!(ids(&answer.filtered_candidates), None);
    assert_eq!(ids(&answer.candidates), Some(vec![8, 9]));
    assert_eq!(ids(&answer.bucket_candidates), Some(vec![8, 9]));
}

#[test]
fn a_distinct_capability_picks_the_bucket_candidates() {
    let ctx = Documents::new();
    let mut stage = Initial::new(
        &ctx,
        Some(vec![1, 2, 11, 12, 21, 33, 43]),
        Some(bitmap(&[1, 2, 11, 12, 21, 33])),
        true,
        Some(ByLastDigit::new()),
    );
    let mut wdcache = 0;
    let answer = advance(&mut stage, &mut wdcache).unwrap().unwrap();
    assert_eq!(ids(&answer.candidates), Some(vec![1, 2, 11, 12, 21, 33]));
    assert_eq!(ids(&answer.bucket_candidates), Some(vec![1, 2, 33]));
}

#[test]
fn the_distinct_capability_is_given_the_filtered_candidates_and_nothing_seen() {
    struct Recorder<'a>(&'a Cell<Option<(Vec<u32>, Vec<u32>)>>);
    impl Distinct for Recorder<'_> {
        fn distinct(
            &mut self,
            candidates: RoaringBitmap,
            excluded: RoaringBitmap,
        ) -> Result<Vec<u32>, MilliError> {
            self.0.set(Some((candidates.iter().collect(), excluded.iter().collect())));
            Ok(vec![7, 7, 3])
        }
    }
    let given = Cell::new(None);
    let ctx = Documents::new();
    let mut stage = Initial::new(
        &ctx,
        Some(vec![1, 2, 3]),
        Some(bitmap(&[2, 3, 4])),
        true,
        Some(Recorder(&given)),
    );
    let mut wdcache = 0;
    let answer = advance(&mut stage, &mut wdcache).unwrap().unwrap();
    assert_eq!(given.take(), Some((vec![2, 3], vec![])));
    assert_eq!(ids(&answer.candidates), Some(vec![2, 3]));
    assert_eq!(ids(&answer.bucket_candidates), Some(vec![3, 7]));
}

#[test]
fn a_failed_resolution_ends_the_call_and_the_stage() {
    let mut ctx = Documents::new();
    ctx.fails = true;
    let mut stage = Initial::new(&ctx, Some(vec![1]), None, true, Some(ByLastDigit::new()));
    let mut wdcache = 0;
    let outcome = advance(&mut stage, &mut wdcache);
    assert!(matches!(outcome, Err(MilliError::Resolution(message)) if message == "no such word"));
    assert!(advance(&mut stage, &mut wdcache).unwrap().is_none());
    assert_eq!(ctx.resolutions.get(), 1);
}

#[test]
fn a_failed_distinct_ends_the_call_and_the_stage() {
    let ctx = Documents::new();
    let mut distinct = ByLastDigit::new();
    distinct.fails = true;
    let mut stage = Initial::new(&ctx, Some(vec![1]), None, true, Some(distinct));
    let mut wdcache = 0;
    let outcome = advance(&mut stage, &mut wdcache);
    assert!(
        matches!(outcome, Err(MilliError::Distinct(message)) if message == "attribute is missing")
    );
    assert!(advance(&mut stage, &mut wdcache).unwrap().is_none());
}

#[test]
fn filter_candidates_intersects_with_the_filter() {
    let answer: CriterionResult<u8> = CriterionResult {
        query_tree: None,
        candidates: None,
        filtered_candidates: Some(bitmap(&[1, 3, 5, 100_000])),
        bucket_candidates: None,
    };
    assert_eq!(
        answer.filter_candidates(bitmap(&[3, 4, 5, 100_000, 200_000])),
        bitmap(&[3, 5, 100_000])
    );
    let open: CriterionResult<u8> = CriterionResult {
        query_tree: None,
        candidates: None,
        filtered_candidates: None,
        bucket_candidates: None,
    };
    assert_eq!(open.filter_candidates(bitmap(&[3, 4])), bitmap(&[3, 4]));
}

// Encoded bitmaps that decode to bitmaps whose containers are in falling order
// of their keys: {65536, 7} and {65537, 65536, 7}.
fn falling(first: &[u16], second: &[u16]) -> RoaringBitmap {
    let mut bytes = vec![0x3A, 0x30, 0, 0, 2, 0, 0, 0];
    bytes.extend_from_slice(&[1, 0, (first.len() - 1) as u8, 0, 0, 0, (second.len() - 1) as u8, 0]);
    let offset = 24u32;
    bytes.extend_from_slice(&offset.to_le_bytes());
    bytes.extend_from_slice(&(offset + 2 * first.len() as u32).to_le_bytes());
    for value in first.iter().chain(second.iter()) {
        bytes.extend_from_slice(&value.to_le_bytes());
    }
    RoaringBitmap::deserialize_from(&bytes[..]).unwrap()
}

#[test]
fn filter_candidates_takes_bitmaps_that_are_laid_out_oddly() {
    let filter = falling(&[0], &[7]);
    assert_eq!(filter.iter().collect::<Vec<u32>>(), vec![65536, 7]);
    let answer: CriterionResult<u8> = CriterionResult {
        query_tree: None,
        candidates: None,
        filtered_candidates: Some(filter),
        bucket_candidates: None,
    };
    let candidates = answer.filter_candidates(falling(&[0, 1], &[7]));
    assert_eq!(candidates.iter().collect::<Vec<u32>>(), vec![7, 65536]);
    assert_eq!(candidates, bitmap(&[7, 65536]));
    let candidates = answer.filter_candidates(bitmap(&[7, 8, 65536, 65537]));
    assert_eq!(candidates, bitmap(&[7, 65536]));
}

#[test]
fn canonical_copy_holds_the_same_documents_in_order() {
    let odd = falling(&[0, 1], &[7]);
    assert_ne!(odd, bitmap(&[7, 65536, 65537]));
    let copy = canonical_copy(&odd);
    assert_eq!(copy, bitmap(&[7, 65536, 65537]));
    assert_eq!(canonical_copy(&bitmap(&[])), bitmap(&[]));
}

#[test]
fn insert_all_adds_every_id() {
    let mut documents = bitmap(&[1, 2]);
    insert_all(&mut documents, &vec![2, 9, 9, 70_000]);
    assert_eq!(documents, bitmap(&[1, 2, 9, 70_000]));
    insert_all(&mut documents, &vec![]);
    assert_eq!(documents, bitmap(&[1, 2, 9, 70_000]));
}

#[test]
fn with_candidates_stores_candidates_and_bucket() {
    let answer = CriterionResult {
        query_tree: Some("query"),
        candidates: None,
        filtered_candidates: Some(bitmap(&[1])),
        bucket_candidates: None,
    };
    let sealed = answer.with_candidates(bitmap(&[4, 5, 6]), None);
    assert_eq!(sealed.query_tree, Some("query"));
    assert_eq!(ids(&sealed.filtered_candidates), Some(vec![1]));
    assert_eq!(ids(&sealed.candidates), Some(vec![4, 5, 6]));
    assert_eq!(ids(&sealed.bucket_candidates), Some(vec![4, 5, 6]));

    let answer: CriterionResult<u8> = CriterionResult {
        query_tree: None,
        candidates: None,
        filtered_candidates: None,
        bucket_candidates: None,
    };
    let sealed = answer.with_candidates(bitmap(&[4, 5, 6]), Some(vec![6, 4, 6]));
    assert_eq!(ids(&sealed.candidates), Some(vec![4, 5, 6]));
    assert_eq!(ids(&sealed.bucket_candidates), Some(vec![4, 6]));

    let answer: CriterionResult<u8> = CriterionResult {
        query_tree: None,
        candidates: None,
        filtered_candidates: None,
        bucket_candidates: None,
    };
    let sealed = answer.with_candidates(bitmap(&[4]), Some(vec![]));
    assert_eq!(ids(&sealed.bucket_candidates), Some(vec![]));
}
