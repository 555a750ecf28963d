//! Sorted posting streams: `grenad` readers over bytes held in memory.
//!
//! Verus cannot look inside a reader or a cursor. The entries a reader yields are
//! named by [`reader_entries`], those still ahead of a cursor by [`cursor_rest`],
//! and every call into `grenad` goes through one of the small functions below,
//! whose contracts are taken on trust from `grenad`'s source.

use vstd::prelude::*;
use crate::error::MilliError;
use crate::keys::key_lt;

verus! {

/// `std::io::Cursor`, bytes in memory with a reading position; opaque here.
#[verifier::external_type_specification]
#[verifier::external_body]
#[verifier::reject_recursive_types(T)]
pub struct ExIoCursor<T>(std::io::Cursor<T>);

/// `grenad::Reader`, a sorted stream of entries; opaque here.
#[verifier::external_type_specification]
#[verifier::external_body]
#[verifier::reject_recursive_types(R)]
pub struct ExReader<R>(grenad::Reader<R>);

/// `grenad::Writer`, a stream in the making; opaque here.
#[verifier::external_type_specification]
#[verifier::external_body]
#[verifier::reject_recursive_types(W)]
pub struct ExWriter<W>(grenad::Writer<W>);

/// `grenad::ReaderCursor`, a position in a stream; opaque here.
#[verifier::external_type_specification]
#[verifier::external_body]
#[verifier::reject_recursive_types(R)]
pub struct ExReaderCursor<R>(grenad::ReaderCursor<R>);

/// `grenad::Error`, what reading a stream reports; opaque here.
#[verifier::external_type_specification]
#[verifier::external_body]
#[verifier::reject_recursive_types(U)]
pub struct ExStreamError<U>(grenad::Error<U>);

/// `grenad::CompressionType`, handed through to the sub-builders; opaque here.
#[verifier::external_type_specification]
#[verifier::external_body]
pub struct ExCompressionType(grenad::CompressionType);

/// A reader over a posting stream that lies in memory.
pub type PostingReader = grenad::Reader<std::io::Cursor<Vec<u8>>>;

/// A cursor over a posting stream that lies in memory.
pub type PostingCursor = grenad::ReaderCursor<std::io::Cursor<Vec<u8>>>;

/// The key and value pairs that a fresh cursor over `reader` yields, in order.
pub uninterp spec fn reader_entries(reader: PostingReader) -> Seq<(Seq<u8>, Seq<u8>)>;

/// The key and value pairs that `cursor` has still to yield, in order.
pub uninterp spec fn cursor_rest(cursor: PostingCursor) -> Seq<(Seq<u8>, Seq<u8>)>;

/// Whether the bytes under `reader` are a stream as a `grenad` writer leaves
/// it. On other bytes `grenad` may panic while it reads, so whoever reads a
/// stream asks for this.
pub uninterp spec fn reader_well_formed(reader: PostingReader) -> bool;

/// Whether the bytes under `cursor` are a stream as a `grenad` writer leaves it.
pub uninterp spec fn cursor_well_formed(cursor: PostingCursor) -> bool;

/// The key and value pairs that were written into `writer`, in order.
pub uninterp spec fn writer_entries(writer: grenad::Writer<Vec<u8>>) -> Seq<(Seq<u8>, Seq<u8>)>;

/// Whether `writer` is one that [`memory_writer`] made and [`insert_entry`]
/// fed: it began over no bytes, with the settings that `grenad` starts from, and
/// its keys grew. Of any other writer nothing is promised: one made over bytes
/// that were there already, or with 255 index levels, leaves a stream that
/// cannot be read back.
pub uninterp spec fn writer_well_formed(writer: grenad::Writer<Vec<u8>>) -> bool;

/// `Writer::memory`: a writer over no bytes, with nothing written.
#[verifier::external_body]
pub(crate) fn writer_memory() -> (writer: grenad::Writer<Vec<u8>>)
    ensures
        writer_well_formed(writer),
        writer_entries(writer) == Seq::<(Seq<u8>, Seq<u8>)>::empty(),
{
    grenad::Writer::memory()
}

/// `Writer::insert`: writes one more entry. `grenad` panics on a key that is
/// not above the last one of its block, and on a key or a value of more than
/// `u32::MAX` bytes.
#[verifier::external_body]
pub(crate) fn writer_insert(writer: &mut grenad::Writer<Vec<u8>>, key: &[u8], value: &[u8]) -> (r:
    Result<(), grenad::Error>)
    requires
        writer_well_formed(*old(writer)),
        writer_entries(*old(writer)).len() > 0 ==> key_lt(
            writer_entries(*old(writer)).last().0,
            key@,
        ),
        key@.len() <= u32::MAX,
        value@.len() <= u32::MAX,
    ensures
        r.is_ok() ==> writer_well_formed(*final(writer)),
        r.is_ok() ==> writer_entries(*final(writer)) == writer_entries(*old(writer)).push(
            (key@, value@),
        ),
{
    writer.insert(key, value).map_err(grenad::Error::from)
}

/// `Writer::into_inner` and `Reader::new` over the bytes it gives: a reader of
/// the stream that the writer wrote into memory. It is well formed and yields
/// what was written, in the order in which it was written.
#[verifier::external_body]
pub(crate) fn writer_into_reader(writer: grenad::Writer<Vec<u8>>) -> (r: Result<
    PostingReader,
    grenad::Error,
>)
    requires
        writer_well_formed(writer),
    ensures
        r matches Ok(reader) ==> reader_well_formed(reader) && reader_entries(reader)
            == writer_entries(writer),
{
    let bytes = writer.into_inner()?;
    grenad::Reader::new(std::io::Cursor::new(bytes))
}

/// A writer of a posting stream into memory, with nothing written yet.
pub fn memory_writer() -> (writer: grenad::Writer<Vec<u8>>)
    ensures
        writer_well_formed(writer),
        writer_entries(writer) == Seq::<(Seq<u8>, Seq<u8>)>::empty(),
{
    writer_memory()
}

/// Writes one more entry into a stream. Its key has to be above the key of the
/// entry before it.
pub fn insert_entry(writer: &mut grenad::Writer<Vec<u8>>, key: &[u8], value: &[u8]) -> (r: Result<
    (),
    MilliError,
>)
    requires
        writer_well_formed(*old(writer)),
        writer_entries(*old(writer)).len() > 0 ==> key_lt(
            writer_entries(*old(writer)).last().0,
            key@,
        ),
        key@.len() <= u32::MAX,
        value@.len() <= u32::MAX,
    ensures
        match r {
            Ok(()) => {
                &&& writer_well_formed(*final(writer))
                &&& writer_entries(*final(writer)) == writer_entries(*old(writer)).push(
                    (key@, value@),
                )
            },
            Err(MilliError::Stream(_)) => true,
            Err(_) => false,
        },
{
    match writer_insert(writer, key, value) {
        Ok(done) => {
            assert(done == ());
            Ok(())
        },
        Err(error) => Err(MilliError::Stream(error)),
    }
}

/// Closes a writer that wrote into memory and opens a reader on its stream.
pub fn reader_from_writer(writer: grenad::Writer<Vec<u8>>) -> (r: Result<PostingReader, MilliError>)
    requires
        writer_well_formed(writer),
    ensures
        match r {
            Ok(reader) => reader_well_formed(reader) && reader_entries(reader) == writer_entries(
                writer,
            ),
            Err(MilliError::Stream(_)) => true,
            Err(_) => false,
        },
{
    match writer_into_reader(writer) {
        Ok(reader) => Ok(reader),
        Err(error) => Err(MilliError::Stream(error)),
    }
}

/// `Reader::clone`: a second reader over the same bytes, hence the same entries.
#[verifier::external_body]
pub(crate) fn reader_clone(reader: &PostingReader) -> (copy: PostingReader)
    ensures
        reader_entries(copy) == reader_entries(*reader),
        reader_well_formed(copy) == reader_well_formed(*reader),
{
    reader.clone()
}

/// `Reader::into_cursor`: a cursor that stands before the reader's first entry.
#[verifier::external_body]
pub(crate) fn reader_into_cursor(reader: PostingReader) -> (r: Result<PostingCursor, grenad::Error>)
    ensures
        r matches Ok(cursor) ==> cursor_rest(cursor) == reader_entries(reader)
            && cursor_well_formed(cursor) == reader_well_formed(reader),
{
    reader.into_cursor()
}

/// `ReaderCursor::move_on_next`, with the entry copied out: the next entry, or
/// `None` once the stream is at its end. An error leaves the cursor unspecified.
#[verifier::external_body]
pub(crate) fn cursor_move_on_next(cursor: &mut PostingCursor) -> (r: Result<
    Option<(Vec<u8>, Vec<u8>)>,
    grenad::Error,
>)
    requires
        cursor_well_formed(*old(cursor)),
    ensures
        r.is_ok() ==> cursor_well_formed(*final(cursor)),
        match r {
            Ok(Some((key, value))) => {
                &&& cursor_rest(*old(cursor)).len() > 0
                &&& cursor_rest(*old(cursor))[0] == (key@, value@)
                &&& cursor_rest(*final(cursor)) == cursor_rest(*old(cursor)).skip(1)
            },
            Ok(None) => {
                &&& cursor_rest(*old(cursor)).len() == 0
                &&& cursor_rest(*final(cursor)).len() == 0
            },
            Err(_) => true,
        },
{
    let entry = cursor.move_on_next()?;
    Ok(entry.map(|(key, value)| (key.to_vec(), value.to_vec())))
}

} // verus!
