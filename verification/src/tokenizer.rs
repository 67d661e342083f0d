//! The trusted surface over the external record tokenizer (the `csv` crate).
//!
//! A reader tokenizes one in-memory byte snapshot. Its yield sequence, its
//! header row and its byte positions are deterministic functions of the bytes
//! and the reader's configuration; they are given names here, and the
//! wrappers' contracts speak of those names. Everything downstream of these
//! wrappers is verified against them.

use vstd::prelude::*;

verus! {

/// A record tokenizer over an owned in-memory byte snapshot.
pub type ByteReader = csv::Reader<std::io::Cursor<Vec<u8>>>;

#[verifier::external_type_specification]
#[verifier::external_body]
#[verifier::reject_recursive_types(T)]
pub struct ExCursor<T>(std::io::Cursor<T>);

#[verifier::external_type_specification]
#[verifier::external_body]
#[verifier::reject_recursive_types(R)]
pub struct ExReader<R>(csv::Reader<R>);

/// What tokenizing the given bytes yields, record by record: each element is
/// one record's fields, or `None` for a malformed record. With the header
/// flag set the first row is skipped and not yielded; with flexibility off,
/// a record whose field count differs from the first record's is malformed.
pub uninterp spec fn spec_records(data: Seq<u8>, has_headers: bool, flexible: bool) -> Seq<
    Option<Seq<Seq<char>>>,
>;

/// What the tokenizer reports as the header row of the given bytes: the
/// fields of the first row, whatever the header flag, or `None` when that
/// row is malformed.
pub uninterp spec fn spec_headers(data: Seq<u8>) -> Option<Seq<Seq<char>>>;

/// The byte offset a tokenizer over the given bytes stands at once
/// `consumed` record yields have been read, the first of them having read
/// past the first row where the header flag asks for that. It is meaningful
/// only once at least one record has been yielded.
pub uninterp spec fn spec_offset_after(
    data: Seq<u8>,
    has_headers: bool,
    flexible: bool,
    consumed: int,
) -> int;

/// The bytes a reader tokenizes.
pub uninterp spec fn reader_data(r: ByteReader) -> Seq<u8>;

/// The header flag a reader was built with.
pub uninterp spec fn reader_has_headers(r: ByteReader) -> bool;

/// The flexibility a reader was built with.
pub uninterp spec fn reader_flexible(r: ByteReader) -> bool;

/// How many record yields have been taken from a reader so far.
pub uninterp spec fn reader_consumed(r: ByteReader) -> int;

/// Whether the reader has read its header row, explicitly or as a side
/// effect of reading the first record.
pub uninterp spec fn reader_header_done(r: ByteReader) -> bool;

/// Relies on csv::ReaderBuilder::from_reader: builds a tokenizer over the
/// given bytes. Every record yield consumes at least one input byte, so
/// there are no more yields than bytes; a reader over no bytes yields
/// nothing and reports an empty header row.
#[verifier::external_body]
pub(crate) fn make_reader(data: &Vec<u8>, has_headers: bool, flexible: bool) -> (r: ByteReader)
    ensures
        reader_data(r) == data@,
        reader_has_headers(r) == has_headers,
        reader_flexible(r) == flexible,
        reader_consumed(r) == 0,
        !reader_header_done(r),
        spec_records(reader_data(r), has_headers, flexible).len() <= data@.len(),
        data@.len() == 0 ==> spec_records(reader_data(r), has_headers, flexible).len() == 0,
        data@.len() == 0 ==> spec_headers(reader_data(r)) == Some(Seq::<Seq<char>>::empty()),
{
    csv::ReaderBuilder::new().flexible(flexible).has_headers(has_headers).from_reader(
        std::io::Cursor::new(data.clone()),
    )
}

/// Relies on csv::Reader::headers: returns the first row of the input as the
/// header set, whatever the header flag, without consuming any record yield.
#[verifier::external_body]
pub(crate) fn read_headers(r: &mut ByteReader) -> (h: Option<Vec<String>>)
    ensures
        reader_data(*final(r)) == reader_data(*old(r)),
        reader_has_headers(*final(r)) == reader_has_headers(*old(r)),
        reader_flexible(*final(r)) == reader_flexible(*old(r)),
        reader_consumed(*final(r)) == reader_consumed(*old(r)),
        reader_header_done(*final(r)),
        match h {
            Some(v) => spec_headers(reader_data(*old(r))) == Some(v.deep_view()),
            None => spec_headers(reader_data(*old(r))) is None,
        },
{
    match r.headers() {
        Ok(rec) => Some(rec.iter().map(|f| f.to_string()).collect()),
        Err(_) => None,
    }
}

/// Relies on csv::Reader::read_record: takes the next record yield, reading
/// past the header row first if that has not happened yet. Returns `None` at
/// end of input, `Some(None)` for a malformed record, and the record's
/// fields otherwise.
#[verifier::external_body]
pub(crate) fn read_one(r: &mut ByteReader) -> (y: Option<Option<Vec<String>>>)
    ensures
        reader_data(*final(r)) == reader_data(*old(r)),
        reader_has_headers(*final(r)) == reader_has_headers(*old(r)),
        reader_flexible(*final(r)) == reader_flexible(*old(r)),
        reader_header_done(*final(r)),
        ({
            let ys = spec_records(
                reader_data(*old(r)),
                reader_has_headers(*old(r)),
                reader_flexible(*old(r)),
            );
            let c = reader_consumed(*old(r));
            if c < ys.len() {
                &&& reader_consumed(*final(r)) == c + 1
                &&& match y {
                    None => false,
                    Some(None) => ys[c] is None,
                    Some(Some(v)) => ys[c] == Some(v.deep_view()),
                }
            } else {
                &&& reader_consumed(*final(r)) == c
                &&& y is None
            }
        }),
{
    let mut rec = csv::StringRecord::new();
    match r.read_record(&mut rec) {
        Ok(true) => Some(Some(rec.iter().map(|f| f.to_string()).collect())),
        Ok(false) => None,
        Err(_) => Some(None),
    }
}

/// Relies on csv::Reader::position: the byte offset immediately before the
/// next record, which never exceeds the input's length.
#[verifier::external_body]
pub(crate) fn byte_position(r: &ByteReader) -> (p: u64)
    requires
        reader_header_done(*r),
        reader_consumed(*r) >= 1,
    ensures
        p as int == spec_offset_after(
            reader_data(*r),
            reader_has_headers(*r),
            reader_flexible(*r),
            reader_consumed(*r),
        ),
        p as int <= reader_data(*r).len(),
{
    r.position().byte()
}

} // verus!
