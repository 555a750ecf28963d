//! The core of a document search engine's prefix index and of its ranking
//! pipeline's first stage.
//!
//! At indexing time, [`update::prefix_word_pairs`] writes postings into an
//! ordered store: one at a time, merging document sets under a key, or a whole
//! sorted stream at once. At query time, [`search::criteria::initial`] turns a
//! query expression into the first set of candidates for the stages that rank.
//!
//! The store is `heed`'s, the streams are `grenad`'s and the document sets are
//! `roaring`'s. What is taken on trust of the three is stated in [`store`],
//! [`stream`] and [`bitmap`]; everything else is proved.

pub mod bitmap;
pub mod error;
pub mod keys;
pub mod search;
pub mod store;
pub mod stream;
pub mod update;
