//! Query-time pieces: the ranking pipeline's stages and what they lean on.

use vstd::prelude::*;
use crate::error::MilliError;
#[allow(unused_imports)]
use crate::bitmap::ExRoaringBitmap;

pub mod criteria;

verus! {

/// A deduplication policy. Given the candidates and the documents already seen,
/// it picks the documents that stand for the distinct attribute values among
/// the candidates, one document for each value.
pub trait Distinct {
    /// The representatives, in the order in which the policy finds them, or the
    /// error that stopped it.
    fn distinct(
        &mut self,
        candidates: roaring::RoaringBitmap,
        excluded: roaring::RoaringBitmap,
    ) -> Result<Vec<u32>, MilliError>;
}

} // verus!
