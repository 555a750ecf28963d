//! Writing postings into the store: the point-wise merge, the bulk load, and the
//! builder of the two prefix databases.

use std::collections::HashSet;
use vstd::prelude::*;
use crate::bitmap::{decoded, merge_serialized_bitmaps};
use crate::error::MilliError;
use crate::stream::{
    cursor_move_on_next, cursor_rest, cursor_well_formed, reader_clone, reader_entries,
    reader_into_cursor, reader_well_formed, PostingReader,
};
use crate::keys::{
    key_lt, lemma_key_lt_asymmetric, lemma_key_lt_irreflexive, lemma_key_order_total,
    lemma_prefix_not_above, same_bytes,
};
use crate::store::{
    same_environment, txn_environment, store_append, store_entries, store_first_with_prefix,
    store_is_empty, store_put, store_put_current,
};

verus! {

/// What a successful merge-insert of `value` at `key` makes of a store. A key
/// that was absent holds `value` as it is. A key that was present holds bytes
/// that decode to the union of what was stored and what `value` decodes to.
/// Every other key is untouched.
pub open spec fn merge_inserted(
    before: Map<Seq<u8>, Seq<u8>>,
    after: Map<Seq<u8>, Seq<u8>>,
    key: Seq<u8>,
    value: Seq<u8>,
) -> bool {
    if before.dom().contains(key) {
        &&& decoded(before[key]) matches Some(stored)
        &&& decoded(value) matches Some(added)
        &&& after.dom().contains(key)
        &&& decoded(after[key]) == Some(stored.union(added))
        &&& after == before.insert(key, after[key])
    } else {
        after == before.insert(key, value)
    }
}

/// The inputs on which a merge-insert cannot merge: `key` is stored, and the
/// stored value or `value` is no encoded bitmap.
pub open spec fn merge_fails(before: Map<Seq<u8>, Seq<u8>>, key: Seq<u8>, value: Seq<u8>) -> bool {
    before.dom().contains(key) && (decoded(before[key]).is_none() || decoded(value).is_none())
}

/// Puts `new_value` at `new_key`, or merges it into the value stored there.
///
/// The entry is looked for with a prefix scan at `new_key`. Where the scan's
/// first entry has exactly that key, the stored and the new value are merged as
/// bitmaps and the entry is replaced in place, with the caller's key. Otherwise
/// the pair is inserted as a fresh entry.
pub fn insert_into_database(
    wtxn: &mut heed::RwTxn,
    database: heed::PolyDatabase,
    new_key: &[u8],
    new_value: &[u8],
) -> (r: Result<(), MilliError>)
    requires
        same_environment(*old(wtxn), database),
    ensures
        txn_environment(*final(wtxn)) == txn_environment(*old(wtxn)),
        merge_fails(store_entries(*old(wtxn), database), new_key@, new_value@) ==> r.is_err(),
        match r {
            Ok(()) => merge_inserted(
                store_entries(*old(wtxn), database),
                store_entries(*final(wtxn), database),
                new_key@,
                new_value@,
            ),
            Err(MilliError::IndexingMergingKeys { process }) => {
                &&& merge_fails(store_entries(*old(wtxn), database), new_key@, new_value@)
                &&& store_entries(*final(wtxn), database) == store_entries(*old(wtxn), database)
                &&& process@ == "get-put-merge"@
            },
            Err(MilliError::Store(_)) => true,
            Err(_) => false,
        },
{
    let ghost before = store_entries(*wtxn, database);
    let found = match store_first_with_prefix(wtxn, database, new_key) {
        Ok(found) => found,
        Err(error) => return Err(MilliError::Store(error)),
    };
    match found {
        Some((key, old_val)) => {
            if same_bytes(new_key, key.as_slice()) {
                let val = match merge_serialized_bitmaps(old_val.as_slice(), new_value) {
                    Ok(val) => val,
                    Err(_) => return Err(
                        MilliError::IndexingMergingKeys { process: "get-put-merge" },
                    ),
                };
                match store_put_current(wtxn, database, new_key, val.as_slice()) {
                    Ok(_) => Ok(()),
                    Err(error) => Err(MilliError::Store(error)),
                }
            } else {
                proof {
                    if before.dom().contains(new_key@) {
                        lemma_prefix_not_above(new_key@, key@);
                        lemma_key_order_total(new_key@, key@);
                    }
                }
                match store_put(wtxn, database, new_key, new_value) {
                    Ok(()) => Ok(()),
                    Err(error) => Err(MilliError::Store(error)),
                }
            }
        },
        None => {
            match store_put(wtxn, database, new_key, new_value) {
                Ok(()) => Ok(()),
                Err(error) => Err(MilliError::Store(error)),
            }
        },
    }
}

/// The store that holds `before` and then takes every entry of `entries` in
/// order, each written over whatever its key held.
pub open spec fn bulk_loaded(
    before: Map<Seq<u8>, Seq<u8>>,
    entries: Seq<(Seq<u8>, Seq<u8>)>,
) -> Map<Seq<u8>, Seq<u8>>
    decreases entries.len(),
{
    if entries.len() == 0 {
        before
    } else {
        bulk_loaded(before, entries.drop_last()).insert(entries.last().0, entries.last().1)
    }
}

/// The keys of `entries` grow: each is below every key that comes after it.
pub open spec fn keys_increasing(entries: Seq<(Seq<u8>, Seq<u8>)>) -> bool {
    forall|i: int, j: int|
        0 <= i < j < entries.len() ==> key_lt(#[trigger] entries[i].0, #[trigger] entries[j].0)
}

proof fn lemma_bulk_loaded_step(
    before: Map<Seq<u8>, Seq<u8>>,
    entries: Seq<(Seq<u8>, Seq<u8>)>,
    done: int,
)
    requires
        0 <= done < entries.len(),
    ensures
        bulk_loaded(before, entries.take(done + 1)) == bulk_loaded(
            before,
            entries.take(done),
        ).insert(entries[done].0, entries[done].1),
{
    assert(entries.take(done + 1).drop_last() =~= entries.take(done));
}

proof fn lemma_bulk_loaded_holds_keys(
    before: Map<Seq<u8>, Seq<u8>>,
    entries: Seq<(Seq<u8>, Seq<u8>)>,
    i: int,
)
    requires
        0 <= i < entries.len(),
    ensures
        bulk_loaded(before, entries).dom().contains(entries[i].0),
    decreases entries.len(),
{
    if i < entries.len() - 1 {
        lemma_bulk_loaded_holds_keys(before, entries.drop_last(), i);
    }
}

/// Writes a whole posting stream into a database, merging nothing.
///
/// Into an empty database every entry is appended behind the last one, which
/// the store accepts only while the keys grow. Into a database that holds
/// entries each pair is put at its key, over whatever was stored there: the
/// caller sees to it that the stream brings no key that is stored already.
///
/// The first error ends the load. Where the stream fails, the entries read
/// before stay written; it is for the caller to abort the transaction.
pub fn write_into_lmdb_database_without_merging(
    wtxn: &mut heed::RwTxn,
    database: heed::PolyDatabase,
    reader: PostingReader,
) -> (r: Result<(), MilliError>)
    requires
        same_environment(*old(wtxn), database),
        reader_well_formed(reader),
    ensures
        txn_environment(*final(wtxn)) == txn_environment(*old(wtxn)),
        match r {
            Ok(()) => {
                &&& store_entries(*final(wtxn), database) == bulk_loaded(
                    store_entries(*old(wtxn), database),
                    reader_entries(reader),
                )
                &&& store_entries(*old(wtxn), database).dom() =~= Set::<Seq<u8>>::empty()
                    ==> keys_increasing(reader_entries(reader))
            },
            Err(MilliError::Store(_)) => true,
            Err(MilliError::Stream(_)) => exists|read: int|
                {
                    &&& 0 <= read <= reader_entries(reader).len()
                    &&& store_entries(*final(wtxn), database) == bulk_loaded(
                        store_entries(*old(wtxn), database),
                        #[trigger] reader_entries(reader).take(read),
                    )
                },
            Err(_) => false,
        },
{
    let ghost before = store_entries(*wtxn, database);
    let ghost entries = reader_entries(reader);
    let ghost mut done: int = 0;
    let empty = match store_is_empty(wtxn, database) {
        Ok(empty) => empty,
        Err(error) => return Err(MilliError::Store(error)),
    };
    let mut cursor = match reader_into_cursor(reader) {
        Ok(cursor) => cursor,
        Err(error) => {
            assert(bulk_loaded(before, entries.take(0)) == before);
            return Err(MilliError::Stream(error));
        },
    };
    assert(entries.skip(0) =~= entries);
    if empty {
        loop
            invariant
                same_environment(*wtxn, database),
                txn_environment(*wtxn) == txn_environment(*old(wtxn)),
                before == store_entries(*old(wtxn), database),
                entries == reader_entries(reader),
                before.dom() =~= Set::<Seq<u8>>::empty(),
                0 <= done <= entries.len(),
                cursor_rest(cursor) == entries.skip(done),
                cursor_well_formed(cursor),
                store_entries(*wtxn, database) == bulk_loaded(before, entries.take(done)),
                keys_increasing(entries.take(done)),
            decreases entries.len() - done,
        {
            let next = match cursor_move_on_next(&mut cursor) {
                Ok(next) => next,
                Err(error) => return Err(MilliError::Stream(error)),
            };
            match next {
                Some((k, v)) => {
                    match store_append(wtxn, database, k.as_slice(), v.as_slice()) {
                        Ok(()) => {},
                        Err(error) => return Err(MilliError::Store(error)),
                    }
                    proof {
                        assert(entries.skip(done)[0] == entries[done]);
                        assert(entries.skip(done).skip(1) =~= entries.skip(done + 1));
                        lemma_bulk_loaded_step(before, entries, done);
                        assert forall|i: int, j: int| 0 <= i < j < done + 1 implies key_lt(
                            #[trigger] entries.take(done + 1)[i].0,
                            #[trigger] entries.take(done + 1)[j].0,
                        ) by {
                            if j < done {
                                assert(entries.take(done)[i].0 == entries[i].0);
                                assert(entries.take(done)[j].0 == entries[j].0);
                            } else {
                                lemma_bulk_loaded_holds_keys(before, entries.take(done), i);
                                assert(entries.take(done)[i].0 == entries[i].0);
                            }
                        }
                        done = done + 1;
                    }
                },
                None => {
                    assert(entries.take(done) =~= entries);
                    return Ok(());
                },
            }
        }
    } else {
        loop
            invariant
                same_environment(*wtxn, database),
                txn_environment(*wtxn) == txn_environment(*old(wtxn)),
                !(before.dom() =~= Set::<Seq<u8>>::empty()),
                before == store_entries(*old(wtxn), database),
                entries == reader_entries(reader),
                0 <= done <= entries.len(),
                cursor_rest(cursor) == entries.skip(done),
                cursor_well_formed(cursor),
                store_entries(*wtxn, database) == bulk_loaded(before, entries.take(done)),
            decreases entries.len() - done,
        {
            let next = match cursor_move_on_next(&mut cursor) {
                Ok(next) => next,
                Err(error) => return Err(MilliError::Stream(error)),
            };
            match next {
                Some((k, v)) => {
                    match store_put(wtxn, database, k.as_slice(), v.as_slice()) {
                        Ok(()) => {},
                        Err(error) => return Err(MilliError::Store(error)),
                    }
                    proof {
                        assert(entries.skip(done)[0] == entries[done]);
                        assert(entries.skip(done).skip(1) =~= entries.skip(done + 1));
                        lemma_bulk_loaded_step(before, entries, done);
                        done = done + 1;
                    }
                },
                None => {
                    assert(entries.take(done) =~= entries);
                    return Ok(());
                },
            }
        }
    }
}

/// The databases of an index that the builder reads and fills.
pub struct Index {
    /// Word pairs with their proximity: the base postings.
    pub word_pair_proximity_docids: heed::PolyDatabase,
    /// Derived: a word, a prefix and their proximity.
    pub word_prefix_pair_proximity_docids: heed::PolyDatabase,
    /// Derived: a prefix, a word and their proximity.
    pub prefix_word_pair_proximity_docids: heed::PolyDatabase,
}

/// What one sub-builder is given to derive one database: where the base
/// postings are, which database it fills, and the builder's settings.
pub struct Derivation {
    pub source: heed::PolyDatabase,
    pub destination: heed::PolyDatabase,
    /// Pairs farther apart than this are left out of the derived database.
    pub max_proximity: u8,
    /// Prefixes longer than this are left out of the derived database.
    pub max_prefix_length: usize,
    pub chunk_compression_type: grenad::CompressionType,
    pub chunk_compression_level: Option<u32>,
}

/// Builds the word-to-prefix and the prefix-to-word proximity databases from
/// the base postings, inside one write transaction.
pub struct PrefixWordPairsProximityDocids<'t, 'u, 'i> {
    wtxn: &'t mut heed::RwTxn<'i, 'u>,
    index: &'i Index,
    max_proximity: u8,
    max_prefix_length: usize,
    chunk_compression_type: grenad::CompressionType,
    chunk_compression_level: Option<u32>,
}

impl<'t, 'u, 'i> PrefixWordPairsProximityDocids<'t, 'u, 'i> {
    /// The write transaction as it stands.
    pub closed spec fn txn(&self) -> heed::RwTxn<'i, 'u> {
        *self.wtxn
    }

    /// The borrow of the caller's write transaction that the builder holds.
    pub closed spec fn txn_borrow(&self) -> &'t mut heed::RwTxn<'i, 'u> {
        self.wtxn
    }

    /// What the sub-builder of the word-to-prefix database is given.
    pub closed spec fn word_prefix_derivation(&self) -> Derivation {
        Derivation {
            source: self.index.word_pair_proximity_docids,
            destination: self.index.word_prefix_pair_proximity_docids,
            max_proximity: self.max_proximity,
            max_prefix_length: self.max_prefix_length,
            chunk_compression_type: self.chunk_compression_type,
            chunk_compression_level: self.chunk_compression_level,
        }
    }

    /// What the sub-builder of the prefix-to-word database is given.
    pub closed spec fn prefix_word_derivation(&self) -> Derivation {
        Derivation {
            source: self.index.word_pair_proximity_docids,
            destination: self.index.prefix_word_pair_proximity_docids,
            max_proximity: self.max_proximity,
            max_prefix_length: self.max_prefix_length,
            chunk_compression_type: self.chunk_compression_type,
            chunk_compression_level: self.chunk_compression_level,
        }
    }

    /// A builder with a maximum proximity of 4 and a maximum prefix length of 2.
    pub fn new(
        wtxn: &'t mut heed::RwTxn<'i, 'u>,
        index: &'i Index,
        chunk_compression_type: grenad::CompressionType,
        chunk_compression_level: Option<u32>,
    ) -> (builder: Self)
        ensures
            builder.txn() == *old(wtxn),
            *final(wtxn) == *final(builder.txn_borrow()),
            builder.word_prefix_derivation() == (Derivation {
                source: index.word_pair_proximity_docids,
                destination: index.word_prefix_pair_proximity_docids,
                max_proximity: 4,
                max_prefix_length: 2,
                chunk_compression_type,
                chunk_compression_level,
            }),
            builder.prefix_word_derivation() == (Derivation {
                source: index.word_pair_proximity_docids,
                destination: index.prefix_word_pair_proximity_docids,
                max_proximity: 4,
                max_prefix_length: 2,
                chunk_compression_type,
                chunk_compression_level,
            }),
    {
        Self {
            wtxn,
            index,
            max_proximity: 4,
            max_prefix_length: 2,
            chunk_compression_type,
            chunk_compression_level,
        }
    }

    /// Sets the maximum proximity of the pairs that enter the derived databases.
    ///
    /// The bound is at most 7: a larger `value` is brought down to 7.
    pub fn max_proximity(&mut self, value: u8) -> (builder: &mut Self)
        ensures
            builder.word_prefix_derivation() == (Derivation {
                max_proximity: if value > 7 { 7u8 } else { value },
                ..old(self).word_prefix_derivation()
            }),
            builder.prefix_word_derivation() == (Derivation {
                max_proximity: if value > 7 { 7u8 } else { value },
                ..old(self).prefix_word_derivation()
            }),
            builder.txn() == old(self).txn(),
            builder.txn_borrow() == old(self).txn_borrow(),
            *final(self) == *final(builder),
    {
        self.max_proximity = if value > 7 { 7 } else { value };
        self
    }

    /// Sets the maximum length of the prefixes that enter the derived databases.
    pub fn max_prefix_length(&mut self, value: usize) -> (builder: &mut Self)
        ensures
            builder.word_prefix_derivation() == (Derivation {
                max_prefix_length: value,
                ..old(self).word_prefix_derivation()
            }),
            builder.prefix_word_derivation() == (Derivation {
                max_prefix_length: value,
                ..old(self).prefix_word_derivation()
            }),
            builder.txn() == old(self).txn(),
            builder.txn_borrow() == old(self).txn_borrow(),
            *final(self) == *final(builder),
    {
        self.max_prefix_length = value;
        self
    }

    /// Derives both databases: first the word-to-prefix one, then the
    /// prefix-to-word one, each by its sub-builder, in the builder's transaction.
    ///
    /// Each sub-builder is given its [`Derivation`], a reader of its own over
    /// the base postings, and the prefix lists as they came. The first error
    /// ends the run: the second sub-builder is not called after a failure of
    /// the first.
    pub fn execute<F, G>(
        self,
        new_word_pair_proximity_docids: PostingReader,
        new_prefix_fst_words: &[String],
        common_prefix_fst_words: &[&[String]],
        del_prefix_fst_words: &HashSet<Vec<u8>>,
        index_word_prefix_database: F,
        index_prefix_word_database: G,
    ) -> (r: Result<(), MilliError>) where
        F: FnOnce(
            &mut heed::RwTxn,
            Derivation,
            PostingReader,
            &[String],
            &[&[String]],
            &HashSet<Vec<u8>>,
        ) -> Result<(), MilliError>,
        G: FnOnce(
            &mut heed::RwTxn,
            Derivation,
            PostingReader,
            &[String],
            &[&[String]],
            &HashSet<Vec<u8>>,
        ) -> Result<(), MilliError>,

        requires
            forall|wtxn: &mut heed::RwTxn, reader: PostingReader|
                *wtxn == self.txn() && same_stream(reader, new_word_pair_proximity_docids)
                    ==> call_requires(
                    index_word_prefix_database,
                    (
                        wtxn,
                        self.word_prefix_derivation(),
                        reader,
                        new_prefix_fst_words,
                        common_prefix_fst_words,
                        del_prefix_fst_words,
                    ),
                ),
            forall|
                wtxn: &mut heed::RwTxn,
                reader: PostingReader,
                first: Result<(), MilliError>,
                then: &mut heed::RwTxn,
                again: PostingReader,
            |
                {
                    &&& *wtxn == self.txn()
                    &&& same_stream(reader, new_word_pair_proximity_docids)
                    &&& #[trigger] call_ensures(
                        index_word_prefix_database,
                        (
                            wtxn,
                            self.word_prefix_derivation(),
                            reader,
                            new_prefix_fst_words,
                            common_prefix_fst_words,
                            del_prefix_fst_words,
                        ),
                        first,
                    )
                    &&& first.is_ok()
                    &&& *then == *final(wtxn)
                    &&& same_stream(again, new_word_pair_proximity_docids)
                } ==> #[trigger] call_requires(
                    index_prefix_word_database,
                    (
                        then,
                        self.prefix_word_derivation(),
                        again,
                        new_prefix_fst_words,
                        common_prefix_fst_words,
                        del_prefix_fst_words,
                    ),
                ),
        ensures
            exists|wtxn: &mut heed::RwTxn, reader: PostingReader, first: Result<(), MilliError>|
                {
                    &&& *wtxn == self.txn()
                    &&& same_stream(reader, new_word_pair_proximity_docids)
                    &&& #[trigger] call_ensures(
                        index_word_prefix_database,
                        (
                            wtxn,
                            self.word_prefix_derivation(),
                            reader,
                            new_prefix_fst_words,
                            common_prefix_fst_words,
                            del_prefix_fst_words,
                        ),
                        first,
                    )
                    &&& match first {
                        Err(error) => {
                            &&& r == Err::<(), MilliError>(error)
                            &&& *final(self.txn_borrow()) == *final(wtxn)
                        },
                        Ok(_) => exists|then: &mut heed::RwTxn, again: PostingReader|
                            {
                                &&& *then == *final(wtxn)
                                &&& *final(self.txn_borrow()) == *final(then)
                                &&& same_stream(again, new_word_pair_proximity_docids)
                                &&& #[trigger] call_ensures(
                                    index_prefix_word_database,
                                    (
                                        then,
                                        self.prefix_word_derivation(),
                                        again,
                                        new_prefix_fst_words,
                                        common_prefix_fst_words,
                                        del_prefix_fst_words,
                                    ),
                                    r,
                                )
                            },
                    }
                },
    {
        let word_prefix = Derivation {
            source: self.index.word_pair_proximity_docids,
            destination: self.index.word_prefix_pair_proximity_docids,
            max_proximity: self.max_proximity,
            max_prefix_length: self.max_prefix_length,
            chunk_compression_type: self.chunk_compression_type,
            chunk_compression_level: self.chunk_compression_level,
        };
        let prefix_word = Derivation {
            source: self.index.word_pair_proximity_docids,
            destination: self.index.prefix_word_pair_proximity_docids,
            max_proximity: self.max_proximity,
            max_prefix_length: self.max_prefix_length,
            chunk_compression_type: self.chunk_compression_type,
            chunk_compression_level: self.chunk_compression_level,
        };
        let first_reader = reader_clone(&new_word_pair_proximity_docids);
        let first = index_word_prefix_database(
            &mut *self.wtxn,
            word_prefix,
            first_reader,
            new_prefix_fst_words,
            common_prefix_fst_words,
            del_prefix_fst_words,
        );
        match first {
            Ok(done) => {
                assert(done == ());
            },
            Err(error) => return Err(error),
        }
        let second = index_prefix_word_database(
            &mut *self.wtxn,
            prefix_word,
            new_word_pair_proximity_docids,
            new_prefix_fst_words,
            common_prefix_fst_words,
            del_prefix_fst_words,
        );
        proof {
            if let Ok(done) = second {
                assert(done == ());
            }
        }
        second
    }
}

/// Two readers over the same entries, both well formed or neither.
pub open spec fn same_stream(a: PostingReader, b: PostingReader) -> bool {
    reader_entries(a) == reader_entries(b) && reader_well_formed(a) == reader_well_formed(b)
}

/// Whether `value` is an encoded bitmap that holds `id`.
pub open spec fn encodes(value: Seq<u8>, id: u32) -> bool {
    decoded(value) matches Some(ids) && ids.contains(id)
}

/// The documents of all the encoded bitmaps in `values` together.
pub open spec fn united(values: Seq<Seq<u8>>) -> Set<u32> {
    Set::new(
        |id: u32|
            exists|i: int|
                0 <= i < values.len() && encodes(#[trigger] values[i], id),
    )
}

/// The documents stored under `key`, none where the key is not stored.
pub open spec fn stored_postings(store: Map<Seq<u8>, Seq<u8>>, key: Seq<u8>) -> Option<Set<u32>> {
    if store.dom().contains(key) {
        decoded(store[key])
    } else {
        Some(Set::empty())
    }
}

/// `stores` is what a store goes through while `values` are merge-inserted at
/// `key` one after the other, each with success.
pub open spec fn merge_insert_run(
    stores: Seq<Map<Seq<u8>, Seq<u8>>>,
    key: Seq<u8>,
    values: Seq<Seq<u8>>,
) -> bool {
    &&& stores.len() == values.len() + 1
    &&& forall|i: int|
        0 <= i < values.len() ==> merge_inserted(
            #[trigger] stores[i],
            stores[i + 1],
            key,
            values[i],
        )
}

/// Merge-inserting encoded bitmaps at one key leaves under that key the union
/// of what was stored there and of all of them.
pub proof fn lemma_merge_inserts_unite(
    stores: Seq<Map<Seq<u8>, Seq<u8>>>,
    key: Seq<u8>,
    values: Seq<Seq<u8>>,
)
    requires
        merge_insert_run(stores, key, values),
        values.len() > 0,
        forall|i: int| 0 <= i < values.len() ==> decoded(#[trigger] values[i]).is_some(),
        stored_postings(stores[0], key).is_some(),
    ensures
        stores.last().dom().contains(key),
        decoded(stores.last()[key]) == Some(
            stored_postings(stores[0], key).unwrap().union(united(values)),
        ),
    decreases values.len(),
{
    let n = values.len() as int;
    let start = stored_postings(stores[0], key).unwrap();
    let last_ids = decoded(values[n - 1]).unwrap();
    assert(merge_inserted(stores[n - 1], stores[n], key, values[n - 1]));
    if n == 1 {
        assert(united(values) =~= last_ids) by {
            assert forall|id: u32| last_ids.contains(id) implies united(values).contains(id) by {
                assert(encodes(values[0], id));
            }
        }
        assert(start.union(united(values)) =~= start.union(last_ids));
        if !stores[0].dom().contains(key) {
            assert(start.union(last_ids) =~= last_ids);
        }
    } else {
        let earlier = values.drop_last();
        let earlier_stores = stores.drop_last();
        assert forall|i: int| 0 <= i < earlier.len() implies merge_inserted(
            #[trigger] earlier_stores[i],
            earlier_stores[i + 1],
            key,
            earlier[i],
        ) by {
            assert(merge_inserted(stores[i], stores[i + 1], key, values[i]));
        }
        assert forall|i: int| 0 <= i < earlier.len() implies decoded(
            #[trigger] earlier[i],
        ).is_some() by {
            assert(earlier[i] == values[i]);
        }
        lemma_merge_inserts_unite(earlier_stores, key, earlier);
        assert(earlier_stores.last() == stores[n - 1]);
        assert(united(values) =~= united(earlier).union(last_ids)) by {
            assert forall|id: u32| united(values).contains(id) implies united(earlier).union(
                last_ids,
            ).contains(id) by {
                let i = choose|i: int|
                    0 <= i < values.len() && encodes(#[trigger] values[i], id);
                if i < n - 1 {
                    assert(earlier[i] == values[i]);
                }
            }
            assert forall|id: u32| united(earlier).union(last_ids).contains(
                id,
            ) implies united(values).contains(id) by {
                if united(earlier).contains(id) {
                    let i = choose|i: int|
                        0 <= i < earlier.len() && encodes(#[trigger] earlier[i], id);
                    assert(earlier[i] == values[i]);
                } else {
                    assert(encodes(values[n - 1], id));
                }
            }
        }
        assert(start.union(united(earlier)).union(last_ids) =~= start.union(united(values)));
    }
}

/// After merge-inserts of encoded bitmaps at one key, one more encoded bitmap
/// merges too: the next merge-insert at that key fails for no other reason than
/// a failure of the store.
pub proof fn lemma_merge_error_cannot_come(
    stores: Seq<Map<Seq<u8>, Seq<u8>>>,
    key: Seq<u8>,
    values: Seq<Seq<u8>>,
    next: Seq<u8>,
)
    requires
        merge_insert_run(stores, key, values),
        forall|i: int| 0 <= i < values.len() ==> decoded(#[trigger] values[i]).is_some(),
        stored_postings(stores[0], key).is_some(),
        decoded(next).is_some(),
    ensures
        !merge_fails(stores.last(), key, next),
{
    if values.len() > 0 {
        lemma_merge_inserts_unite(stores, key, values);
    }
}

/// The order of the insertions does not matter: two runs of merge-inserts at
/// one key, from the same store and with the same values in any two orders,
/// leave the same documents under that key.
pub proof fn lemma_merge_inserts_any_order(
    first_run: Seq<Map<Seq<u8>, Seq<u8>>>,
    second_run: Seq<Map<Seq<u8>, Seq<u8>>>,
    key: Seq<u8>,
    values: Seq<Seq<u8>>,
    reordered: Seq<Seq<u8>>,
)
    requires
        merge_insert_run(first_run, key, values),
        merge_insert_run(second_run, key, reordered),
        first_run[0] == second_run[0],
        values.to_multiset() == reordered.to_multiset(),
        values.len() > 0,
        forall|i: int| 0 <= i < values.len() ==> decoded(#[trigger] values[i]).is_some(),
        stored_postings(first_run[0], key).is_some(),
    ensures
        decoded(first_run.last()[key]) == decoded(second_run.last()[key]),
        decoded(first_run.last()[key]) == Some(
            stored_postings(first_run[0], key).unwrap().union(united(values)),
        ),
{
    values.to_multiset_ensures();
    reordered.to_multiset_ensures();
    assert(reordered.len() == values.len());
    assert forall|i: int| 0 <= i < reordered.len() implies decoded(
        #[trigger] reordered[i],
    ).is_some() by {
        assert(reordered.contains(reordered[i]));
        assert(values.to_multiset().count(reordered[i]) > 0);
        assert(values.contains(reordered[i]));
    }
    lemma_merge_inserts_unite(first_run, key, values);
    lemma_merge_inserts_unite(second_run, key, reordered);
    assert(united(values) =~= united(reordered)) by {
        assert forall|id: u32| united(values).contains(id) implies united(reordered).contains(
            id,
        ) by {
            let i = choose|i: int|
                0 <= i < values.len() && encodes(#[trigger] values[i], id);
            assert(values.contains(values[i]));
            assert(reordered.to_multiset().count(values[i]) > 0);
            assert(reordered.contains(values[i]));
            let j = choose|j: int| 0 <= j < reordered.len() && reordered[j] == values[i];
            assert(encodes(reordered[j], id));
        }
        assert forall|id: u32| united(reordered).contains(id) implies united(values).contains(
            id,
        ) by {
            let i = choose|i: int|
                0 <= i < reordered.len() && encodes(#[trigger] reordered[i], id);
            assert(reordered.contains(reordered[i]));
            assert(values.to_multiset().count(reordered[i]) > 0);
            assert(values.contains(reordered[i]));
            let j = choose|j: int| 0 <= j < values.len() && values[j] == reordered[i];
            assert(encodes(values[j], id));
        }
    }
}

/// Loading a stream whose keys differ from each other and from every stored
/// key leaves exactly the entries that were stored and those of the stream.
pub proof fn lemma_bulk_load_disjoint_is_union(
    before: Map<Seq<u8>, Seq<u8>>,
    entries: Seq<(Seq<u8>, Seq<u8>)>,
)
    requires
        forall|i: int, j: int|
            0 <= i < j < entries.len() ==> #[trigger] entries[i].0 != #[trigger] entries[j].0,
        forall|i: int| 0 <= i < entries.len() ==> !before.dom().contains(#[trigger] entries[i].0),
    ensures
        forall|key: Seq<u8>, value: Seq<u8>| #[trigger]
            bulk_loaded(before, entries).contains_pair(key, value) <==> before.contains_pair(
                key,
                value,
            ) || entries.contains((key, value)),
    decreases entries.len(),
{
    if entries.len() > 0 {
        let earlier = entries.drop_last();
        let last = entries.last();
        lemma_bulk_load_disjoint_is_union(before, earlier);
        assert forall|key: Seq<u8>, value: Seq<u8>| #[trigger]
            bulk_loaded(before, entries).contains_pair(key, value) <==> before.contains_pair(
                key,
                value,
            ) || entries.contains((key, value)) by {
            let loaded = bulk_loaded(before, earlier);
            let n = entries.len() as int;
            assert(bulk_loaded(before, entries) == loaded.insert(last.0, last.1));
            assert(loaded.contains_pair(key, value) <==> before.contains_pair(key, value)
                || earlier.contains((key, value)));
            if key == last.0 {
                assert(!before.dom().contains(entries[n - 1].0));
                if value == last.1 {
                    assert(entries[n - 1] == (key, value));
                }
                if entries.contains((key, value)) {
                    let i = choose|i: int| 0 <= i < entries.len() && entries[i] == (key, value);
                    if i < n - 1 {
                        assert(entries[i].0 != entries[n - 1].0);
                    }
                }
            } else {
                if entries.contains((key, value)) {
                    let i = choose|i: int| 0 <= i < entries.len() && entries[i] == (key, value);
                    assert(earlier[i] == (key, value));
                }
                if earlier.contains((key, value)) {
                    let i = choose|i: int| 0 <= i < earlier.len() && earlier[i] == (key, value);
                    assert(entries[i] == (key, value));
                }
            }
        }
    }
}

/// Loading a stream whose keys differ from each other and from every stored
/// key adds one entry for each entry of the stream.
pub proof fn lemma_bulk_load_disjoint_counts(
    before: Map<Seq<u8>, Seq<u8>>,
    entries: Seq<(Seq<u8>, Seq<u8>)>,
)
    requires
        before.dom().finite(),
        forall|i: int, j: int|
            0 <= i < j < entries.len() ==> #[trigger] entries[i].0 != #[trigger] entries[j].0,
        forall|i: int| 0 <= i < entries.len() ==> !before.dom().contains(#[trigger] entries[i].0),
    ensures
        bulk_loaded(before, entries).dom().finite(),
        bulk_loaded(before, entries).dom().len() == before.dom().len() + entries.len(),
    decreases entries.len(),
{
    if entries.len() > 0 {
        let earlier = entries.drop_last();
        let last = entries.last();
        let loaded = bulk_loaded(before, earlier);
        lemma_bulk_load_disjoint_counts(before, earlier);
        lemma_bulk_load_disjoint_is_union(before, earlier);
        if loaded.dom().contains(last.0) {
            assert(loaded.contains_pair(last.0, loaded[last.0]));
            assert(!before.dom().contains(entries[entries.len() - 1].0));
            let i = choose|i: int|
                0 <= i < earlier.len() && earlier[i] == (last.0, loaded[last.0]);
            assert(entries[i].0 != entries[entries.len() - 1].0);
        }
        assert(bulk_loaded(before, entries).dom() =~= loaded.dom().insert(last.0));
    }
}

/// `entries` is what walking `store` in the order of its keys yields: the keys
/// grow, every entry is stored, and every stored key is listed.
pub open spec fn lists_in_order(
    entries: Seq<(Seq<u8>, Seq<u8>)>,
    store: Map<Seq<u8>, Seq<u8>>,
) -> bool {
    &&& keys_increasing(entries)
    &&& forall|i: int|
        0 <= i < entries.len() ==> store.contains_pair((#[trigger] entries[i]).0, entries[i].1)
    &&& forall|key: Seq<u8>| #[trigger]
        store.dom().contains(key) ==> exists|i: int|
            0 <= i < entries.len() && (#[trigger] entries[i]).0 == key
}

/// A store has one listing in the order of its keys, and no other.
pub proof fn lemma_listing_in_order_unique(
    a: Seq<(Seq<u8>, Seq<u8>)>,
    b: Seq<(Seq<u8>, Seq<u8>)>,
    store: Map<Seq<u8>, Seq<u8>>,
)
    requires
        lists_in_order(a, store),
        lists_in_order(b, store),
    ensures
        a == b,
    decreases a.len(),
{
    if a.len() == 0 || b.len() == 0 {
        if a.len() > 0 {
            assert(store.dom().contains(a[0].0));
        }
        if b.len() > 0 {
            assert(store.dom().contains(b[0].0));
        }
        assert(a =~= b);
    } else {
        let n = a.len() as int;
        let m = b.len() as int;
        let top = a[n - 1].0;
        let other_top = b[m - 1].0;
        assert(store.contains_pair(a[n - 1].0, a[n - 1].1));
        assert(store.contains_pair(b[m - 1].0, b[m - 1].1));
        assert(store.dom().contains(top));
        assert(store.dom().contains(other_top));
        let j = choose|j: int| 0 <= j < b.len() && (#[trigger] b[j]).0 == top;
        let i = choose|i: int| 0 <= i < a.len() && (#[trigger] a[i]).0 == other_top;
        if top != other_top {
            assert(key_lt(b[j].0, b[m - 1].0));
            assert(key_lt(a[i].0, a[n - 1].0));
            lemma_key_lt_asymmetric(top, other_top);
        }
        assert(a[n - 1] == b[m - 1]);
        let rest = store.remove(top);
        assert(lists_in_order(a.drop_last(), rest)) by {
            lemma_listing_without_top(a, store);
        }
        assert(lists_in_order(b.drop_last(), rest)) by {
            lemma_listing_without_top(b, store);
        }
        lemma_listing_in_order_unique(a.drop_last(), b.drop_last(), rest);
        assert(a =~= a.drop_last().push(a[n - 1]));
        assert(b =~= b.drop_last().push(b[m - 1]));
    }
}

proof fn lemma_listing_without_top(
    entries: Seq<(Seq<u8>, Seq<u8>)>,
    store: Map<Seq<u8>, Seq<u8>>,
)
    requires
        lists_in_order(entries, store),
        entries.len() > 0,
    ensures
        lists_in_order(entries.drop_last(), store.remove(entries.last().0)),
{
    let n = entries.len() as int;
    let top = entries[n - 1].0;
    let earlier = entries.drop_last();
    let rest = store.remove(top);
    assert forall|i: int, j: int| 0 <= i < j < earlier.len() implies key_lt(
        #[trigger] earlier[i].0,
        #[trigger] earlier[j].0,
    ) by {
        assert(key_lt(entries[i].0, entries[j].0));
    }
    assert forall|i: int| 0 <= i < earlier.len() implies rest.contains_pair(
        (#[trigger] earlier[i]).0,
        earlier[i].1,
    ) by {
        assert(store.contains_pair(entries[i].0, entries[i].1));
        assert(key_lt(entries[i].0, entries[n - 1].0));
        lemma_key_lt_irreflexive(top);
    }
    assert forall|key: Seq<u8>| #[trigger] rest.dom().contains(key) implies exists|i: int|
        0 <= i < earlier.len() && (#[trigger] earlier[i]).0 == key by {
        assert(store.dom().contains(key));
        let i = choose|i: int| 0 <= i < entries.len() && (#[trigger] entries[i]).0 == key;
        assert(earlier[i].0 == key);
    }
}

/// Loading a stream whose keys grow into an empty database gives a database
/// that, walked in the order of its keys, yields the stream again.
pub proof fn lemma_bulk_load_keeps_order(
    before: Map<Seq<u8>, Seq<u8>>,
    entries: Seq<(Seq<u8>, Seq<u8>)>,
)
    requires
        before.dom() =~= Set::<Seq<u8>>::empty(),
        keys_increasing(entries),
    ensures
        lists_in_order(entries, bulk_loaded(before, entries)),
{
    assert(before =~= Map::<Seq<u8>, Seq<u8>>::empty());
    let store = bulk_loaded(Map::<Seq<u8>, Seq<u8>>::empty(), entries);
    assert forall|i: int, j: int| 0 <= i < j < entries.len() implies #[trigger] entries[i].0
        != #[trigger] entries[j].0 by {
        assert(key_lt(entries[i].0, entries[j].0));
        lemma_key_lt_irreflexive(entries[i].0);
    }
    lemma_bulk_load_disjoint_is_union(Map::empty(), entries);
    assert forall|i: int| 0 <= i < entries.len() implies store.contains_pair(
        (#[trigger] entries[i]).0,
        entries[i].1,
    ) by {
        assert(entries.contains((entries[i].0, entries[i].1)));
    }
    assert forall|key: Seq<u8>| #[trigger] store.dom().contains(key) implies exists|i: int|
        0 <= i < entries.len() && (#[trigger] entries[i]).0 == key by {
        assert(store.contains_pair(key, store[key]));
        assert(entries.contains((key, store[key])));
        let i = choose|i: int| 0 <= i < entries.len() && entries[i] == (key, store[key]);
        assert(entries[i].0 == key);
    }
}

} // verus!
