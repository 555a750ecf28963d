//! The errors of this library.

use vstd::prelude::*;
#[allow(unused_imports)]
use crate::store::ExStoreError;
#[allow(unused_imports)]
use crate::stream::ExStreamError;

verus! {

#[derive(Debug)]
pub enum MilliError {
    /// Two posting values stored under one key could not be merged: one of them
    /// is no encoded bitmap. `process` names the operation that failed.
    IndexingMergingKeys { process: &'static str },
    /// The posting store failed.
    Store(heed::Error),
    /// A posting stream could not be read.
    Stream(grenad::Error),
    /// A query expression could not be resolved.
    Resolution(String),
    /// The distinct capability failed while it was driven.
    Distinct(String),
}

} // verus!
