//! Document-id sets, kept as `roaring::RoaringBitmap`, and their byte encoding.
//!
//! Verus cannot look inside a `RoaringBitmap`. The set a bitmap holds is named by
//! [`bitmap_set`], what a byte string decodes to is named by [`decoded`], and every
//! call into `roaring` goes through one of the small functions below, whose contracts
//! are taken on trust from `roaring`'s source.

use vstd::prelude::*;

verus! {

/// `roaring::RoaringBitmap`, a set of document ids; opaque here.
#[verifier::external_type_specification]
#[verifier::external_body]
pub struct ExRoaringBitmap(roaring::RoaringBitmap);

/// `std::io::Error`, which the decoder reports; opaque here.
#[verifier::external_type_specification]
#[verifier::external_body]
pub struct ExIoError(std::io::Error);

/// The set of document ids that a bitmap holds: the ids of all its containers
/// taken together, in whatever order the containers lie.
pub uninterp spec fn bitmap_set(bitmap: roaring::RoaringBitmap) -> Set<u32>;

/// What `RoaringBitmap::deserialize_from` makes of a byte string: the set of the
/// bitmap it returns, or `None` where it reports an error.
pub uninterp spec fn decoded(bytes: Seq<u8>) -> Option<Set<u32>>;

/// Whether a bitmap is laid out as `roaring` itself lays bitmaps out: the keys
/// of its containers grow, none of them is empty, and each is stored in the
/// form that its size asks for. A bitmap that `roaring` builds by insertion is;
/// one that it decodes from bytes need not be, and on such a bitmap only what
/// walks all the containers is to be relied on.
pub uninterp spec fn bitmap_canonical(bitmap: roaring::RoaringBitmap) -> bool;

/// `RoaringBitmap::new`: a bitmap that holds nothing.
#[verifier::external_body]
pub(crate) fn empty_bitmap() -> (bitmap: roaring::RoaringBitmap)
    ensures
        bitmap_set(bitmap) == Set::<u32>::empty(),
        bitmap_canonical(bitmap),
{
    roaring::RoaringBitmap::new()
}

/// `RoaringBitmap::insert`: adds `value` to the set. On a canonical bitmap it
/// tells whether the value was absent, and the bitmap stays canonical.
#[verifier::external_body]
pub(crate) fn bitmap_insert(bitmap: &mut roaring::RoaringBitmap, value: u32) -> (added: bool)
    ensures
        bitmap_set(*final(bitmap)) == bitmap_set(*old(bitmap)).insert(value),
        bitmap_canonical(*old(bitmap)) ==> bitmap_canonical(*final(bitmap)),
        bitmap_canonical(*old(bitmap)) ==> added == !bitmap_set(*old(bitmap)).contains(value),
{
    bitmap.insert(value)
}

/// `RoaringBitmap::clone`: a second bitmap of the same layout and the same set.
#[verifier::external_body]
pub(crate) fn bitmap_clone(bitmap: &roaring::RoaringBitmap) -> (copy: roaring::RoaringBitmap)
    ensures
        bitmap_set(copy) == bitmap_set(*bitmap),
        bitmap_canonical(copy) == bitmap_canonical(*bitmap),
{
    bitmap.clone()
}

/// `BitAndAssign<&RoaringBitmap>`: `bitmap` keeps what `other` holds too. The
/// containers of `other` are found by binary search on their keys, so both
/// bitmaps have to be canonical.
#[verifier::external_body]
pub(crate) fn bitmap_intersect_with(bitmap: &mut roaring::RoaringBitmap, other: &roaring::RoaringBitmap)
    requires
        bitmap_canonical(*old(bitmap)),
        bitmap_canonical(*other),
    ensures
        bitmap_set(*final(bitmap)) == bitmap_set(*old(bitmap)).intersect(bitmap_set(*other)),
        bitmap_canonical(*final(bitmap)),
{
    *bitmap &= other;
}

/// `BitOrAssign<&RoaringBitmap>`: `bitmap` gains what `other` holds. The union
/// of two canonical bitmaps is canonical.
#[verifier::external_body]
pub(crate) fn bitmap_union_with(bitmap: &mut roaring::RoaringBitmap, other: &roaring::RoaringBitmap)
    ensures
        bitmap_set(*final(bitmap)) == bitmap_set(*old(bitmap)).union(bitmap_set(*other)),
        bitmap_canonical(*old(bitmap)) && bitmap_canonical(*other) ==> bitmap_canonical(
            *final(bitmap),
        ),
{
    *bitmap |= other;
}

/// `RoaringBitmap::iter`, collected: every id that the bitmap holds. The
/// iterator walks the containers one after the other, whatever their order.
#[verifier::external_body]
pub(crate) fn bitmap_ids(bitmap: &roaring::RoaringBitmap) -> (ids: Vec<u32>)
    ensures
        ids@.to_set() == bitmap_set(*bitmap),
{
    bitmap.iter().collect()
}

/// `RoaringBitmap::deserialize_from` on a byte slice: the bitmap that the bytes
/// encode, or the reader's error where they encode none. The decoder checks
/// each container by itself, not the layout of the whole, so the bitmap need
/// not be canonical.
#[verifier::external_body]
pub(crate) fn bitmap_from_bytes(bytes: &[u8]) -> (r: Result<roaring::RoaringBitmap, std::io::Error>)
    ensures
        match r {
            Ok(bitmap) => decoded(bytes@) == Some(bitmap_set(bitmap)),
            Err(_) => decoded(bytes@).is_none(),
        },
{
    roaring::RoaringBitmap::deserialize_from(bytes)
}

/// `RoaringBitmap::serialize_into` a fresh vector: for a canonical bitmap,
/// bytes that decode to the set it holds. Writing into a `Vec` cannot fail.
#[verifier::external_body]
pub(crate) fn bitmap_to_bytes(bitmap: &roaring::RoaringBitmap) -> (bytes: Vec<u8>)
    requires
        bitmap_canonical(*bitmap),
    ensures
        decoded(bytes@) == Some(bitmap_set(*bitmap)),
{
    let mut bytes = Vec::new();
    let _ = bitmap.serialize_into(&mut bytes);
    bytes
}

/// The ids of the first `count` entries of `ids`, as a set, grow by one entry
/// at a time.
pub proof fn lemma_take_to_set_step(ids: Seq<u32>, count: int)
    requires
        0 <= count < ids.len(),
    ensures
        ids.take(count + 1).to_set() == ids.take(count).to_set().insert(ids[count]),
{
    let taken = ids.take(count);
    let more = ids.take(count + 1);
    assert forall|x: u32| more.to_set().contains(x) <==> taken.to_set().insert(
        ids[count],
    ).contains(x) by {
        if more.contains(x) {
            let j = choose|j: int| 0 <= j < more.len() && more[j] == x;
            if j < count {
                assert(taken[j] == x);
            }
        }
        if taken.contains(x) {
            let j = choose|j: int| 0 <= j < taken.len() && taken[j] == x;
            assert(more[j] == x);
        }
        if x == ids[count] {
            assert(more[count] == x);
        }
    }
    assert(more.to_set() =~= taken.to_set().insert(ids[count]));
}

/// Adds every id of `ids` to `bitmap`.
pub fn insert_all(bitmap: &mut roaring::RoaringBitmap, ids: &Vec<u32>)
    ensures
        bitmap_set(*final(bitmap)) == bitmap_set(*old(bitmap)).union(ids@.to_set()),
        bitmap_canonical(*old(bitmap)) ==> bitmap_canonical(*final(bitmap)),
{
    let mut i: usize = 0;
    assert(ids@.take(0).to_set() =~= Set::<u32>::empty());
    assert(bitmap_set(*bitmap).union(Set::<u32>::empty()) =~= bitmap_set(*bitmap));
    while i < ids.len()
        invariant
            i <= ids.len(),
            bitmap_set(*bitmap) == bitmap_set(*old(bitmap)).union(ids@.take(i as int).to_set()),
            bitmap_canonical(*old(bitmap)) ==> bitmap_canonical(*bitmap),
        decreases ids.len() - i,
    {
        bitmap_insert(bitmap, ids[i]);
        proof {
            lemma_take_to_set_step(ids@, i as int);
            assert(bitmap_set(*old(bitmap)).union(ids@.take(i as int).to_set()).insert(
                ids@[i as int],
            ) =~= bitmap_set(*old(bitmap)).union(ids@.take(i as int + 1).to_set()));
        }
        i += 1;
    }
    assert(ids@.take(ids.len() as int) =~= ids@);
}

/// A canonical bitmap that holds what `bitmap` holds: built afresh, by
/// inserting every id of `bitmap` into an empty one.
pub fn canonical_copy(bitmap: &roaring::RoaringBitmap) -> (copy: roaring::RoaringBitmap)
    ensures
        bitmap_set(copy) == bitmap_set(*bitmap),
        bitmap_canonical(copy),
{
    let ids = bitmap_ids(bitmap);
    let mut copy = empty_bitmap();
    insert_all(&mut copy, &ids);
    assert(Set::<u32>::empty().union(ids@.to_set()) =~= ids@.to_set());
    copy
}

/// Merges two encoded bitmaps: decodes both, unites them and encodes the union.
///
/// It succeeds exactly when both byte strings decode; the error is the decoder's,
/// for the first of the two that does not. Both are united as canonical copies,
/// so that the union can be encoded whatever the bytes were.
pub fn merge_serialized_bitmaps(stored: &[u8], added: &[u8]) -> (r: Result<Vec<u8>, std::io::Error>)
    ensures
        match r {
            Ok(merged) => {
                &&& decoded(stored@) matches Some(a)
                &&& decoded(added@) matches Some(b)
                &&& decoded(merged@) == Some(a.union(b))
            },
            Err(_) => decoded(stored@).is_none() || decoded(added@).is_none(),
        },
{
    let first = match bitmap_from_bytes(stored) {
        Ok(bitmap) => bitmap,
        Err(error) => return Err(error),
    };
    let second = match bitmap_from_bytes(added) {
        Ok(bitmap) => bitmap,
        Err(error) => return Err(error),
    };
    let mut union = canonical_copy(&first);
    let other = canonical_copy(&second);
    bitmap_union_with(&mut union, &other);
    Ok(bitmap_to_bytes(&union))
}

} // verus!
