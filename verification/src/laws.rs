//! The library's laws: what holds of the operations across calls, stated
//! over the spec functions that the operations' own contracts use.

use vstd::prelude::*;
use crate::chunk::spec_chunk_linear;
use crate::chunk::spec_chunk_window;
use crate::chunk::spec_estimate_result;
use crate::chunk::spec_read_chunk;
use crate::chunk::spec_seek_pos;
use crate::chunk::spec_seek_taken;
use crate::parser::spec_count_rows;
use crate::parser::spec_info_headers;
use crate::parser::spec_read_all;
use crate::rows::RowV;
use crate::rows::lemma_batches_flatten;
use crate::rows::lemma_batches_shape;
use crate::rows::spec_file_rows;
use crate::rows::spec_rows;
use crate::tokenizer::spec_headers;
use crate::tokenizer::spec_records;

verus! {

/// A successful full read keeps every row: the batches flatten back to the
/// file's rows (so the total row count over all batches equals the number of
/// record yields), and every batch except possibly the last holds exactly
/// `batch_size` rows, the last at least one.
pub proof fn lemma_read_all_shape(data: Seq<u8>, has_headers: bool, batch_size: int)
    requires
        batch_size >= 1,
        spec_read_all(data, has_headers, batch_size) is Ok,
    ensures
        ({
            let batches = spec_read_all(data, has_headers, batch_size)->Ok_0;
            &&& batches.flatten() == spec_file_rows(data, has_headers)
            &&& forall|i: int|
                0 <= i < batches.len() - 1 ==> (#[trigger] batches[i]).len() == batch_size
            &&& forall|i: int| 0 <= i < batches.len() ==> 1 <= (#[trigger] batches[i]).len()
                <= batch_size
        }),
{
    lemma_batches_flatten(spec_file_rows(data, has_headers), batch_size);
    lemma_batches_shape(spec_file_rows(data, has_headers), batch_size);
}

/// Repeated calls on an unchanged accessor agree: every operation's outcome
/// is a function of the snapshot and the configuration alone, so two
/// results of the same operation are equal.
pub proof fn lemma_operations_deterministic(
    data: Seq<u8>,
    has_headers: bool,
    batch_size: int,
    file_size: u64,
    start: int,
    num: int,
    a1: Result<Seq<Seq<RowV>>, ()>,
    a2: Result<Seq<Seq<RowV>>, ()>,
    c1: Result<int, ()>,
    c2: Result<int, ()>,
    k1: Result<Seq<RowV>, ()>,
    k2: Result<Seq<RowV>, ()>,
    i1: Seq<Seq<char>>,
    i2: Seq<Seq<char>>,
)
    requires
        a1 == spec_read_all(data, has_headers, batch_size),
        a2 == spec_read_all(data, has_headers, batch_size),
        c1 == spec_count_rows(data, has_headers),
        c2 == spec_count_rows(data, has_headers),
        k1 == spec_read_chunk(data, has_headers, file_size, start, num),
        k2 == spec_read_chunk(data, has_headers, file_size, start, num),
        i1 == spec_info_headers(data, has_headers),
        i2 == spec_info_headers(data, has_headers),
    ensures
        a1 == a2,
        c1 == c2,
        k1 == k2,
        i1 == i2,
{
}

/// With headers enabled, a chunk read from row zero returns exactly the
/// first `num` rows of a successful full read's flattened output, on
/// snapshots where strict and tolerant tokenization yield the same records.
pub proof fn lemma_chunk_zero_prefix(
    data: Seq<u8>,
    batch_size: int,
    file_size: u64,
    num: int,
)
    requires
        batch_size >= 1,
        0 <= num <= spec_file_rows(data, true).len(),
        spec_records(data, true, false) == spec_records(data, true, true),
        spec_read_all(data, true, batch_size) is Ok,
    ensures
        spec_read_chunk(data, true, file_size, 0, num) == Ok::<Seq<RowV>, ()>(
            spec_read_all(data, true, batch_size)->Ok_0.flatten().take(num),
        ),
{
    let ys = spec_records(data, true, false);
    let hd = spec_headers(data)->0;
    let rows = spec_file_rows(data, true);
    lemma_batches_flatten(rows, batch_size);
    assert(ys.skip(0) =~= ys);
    assert(spec_read_chunk(data, true, file_size, 0, num) == spec_chunk_window(ys, hd, num));
    assert(num <= ys.len());
    assert(spec_chunk_window(ys, hd, num) == Ok::<Seq<RowV>, ()>(spec_rows(ys.take(num), hd)));
    assert(spec_rows(ys.take(num), hd) =~= rows.take(num));
}

/// The seek path never changes the result, only the cost, whenever the
/// realigned position is faithful: if tokenizing the suffix that starts at
/// the seek position yields exactly the record yields from `start` on, the
/// seek path returns what the linear fallback would have returned.
pub proof fn lemma_seek_matches_linear(
    data: Seq<u8>,
    has_headers: bool,
    file_size: u64,
    start: int,
    num: int,
)
    requires
        num >= 0,
        spec_estimate_result(data, has_headers) is Ok,
        spec_seek_taken(data, has_headers, file_size, start),
        start <= spec_records(data, has_headers, false).len(),
        spec_records(data.skip(spec_seek_pos(data, has_headers, start)), false, false)
            == spec_records(data, has_headers, false).skip(start),
    ensures
        spec_read_chunk(data, has_headers, file_size, start, num) == spec_chunk_linear(
            data,
            has_headers,
            start,
            num,
        ),
{
}

/// A start row at or past the row count yields an empty chunk, not an
/// error, on any snapshot whose header row is readable; past the seek
/// threshold this is the fallback's behaviour.
pub proof fn lemma_chunk_past_end_empty(
    data: Seq<u8>,
    has_headers: bool,
    file_size: u64,
    start: int,
    num: int,
)
    requires
        spec_headers(data) is Some,
        start >= spec_records(data, has_headers, false).len(),
        num >= 0,
    ensures
        spec_chunk_linear(data, has_headers, start, num) == Ok::<Seq<RowV>, ()>(Seq::empty()),
        start <= 1000 ==> spec_read_chunk(data, has_headers, file_size, start, num) == Ok::<
            Seq<RowV>,
            (),
        >(Seq::empty()),
{
    let ys = spec_records(data, has_headers, false);
    let hd = spec_headers(data)->0;
    if ys.len() < start {
    } else {
        assert(start == ys.len());
        assert(ys.skip(start) =~= Seq::<Option<Seq<Seq<char>>>>::empty());
        assert(spec_chunk_window(ys.skip(start), hd, num) == Ok::<Seq<RowV>, ()>(
            spec_rows(ys.skip(start).take(0), hd),
        ));
        assert(spec_rows(ys.skip(start).take(0), hd) =~= Seq::<RowV>::empty());
    }
}

/// A zero-byte snapshot holds nothing: the count is zero, a full read
/// returns no batches, a chunk read returns no rows, and the header list of
/// the file-info summary is empty. The tokenizer facts assumed here are the
/// ones its wrappers state of empty input: no record yields, and an empty
/// header row.
pub proof fn lemma_empty_snapshot(
    data: Seq<u8>,
    has_headers: bool,
    batch_size: int,
    start: int,
    num: int,
)
    requires
        data.len() == 0,
        batch_size >= 1,
        start >= 0,
        num >= 0,
        spec_headers(data) == Some(Seq::<Seq<char>>::empty()),
        spec_records(data, has_headers, true).len() == 0,
        spec_records(data, has_headers, false).len() == 0,
    ensures
        spec_count_rows(data, has_headers) == Ok::<int, ()>(0),
        spec_read_all(data, has_headers, batch_size) == Ok::<Seq<Seq<RowV>>, ()>(Seq::empty()),
        spec_read_chunk(data, has_headers, 0u64, start, num) == Ok::<Seq<RowV>, ()>(Seq::empty()),
        spec_info_headers(data, has_headers) == Seq::<Seq<char>>::empty(),
{
    let ysf = spec_records(data, has_headers, true);
    let yss = spec_records(data, has_headers, false);
    let hd = spec_headers(data)->0;
    assert(spec_file_rows(data, has_headers) =~= Seq::<RowV>::empty());
    assert(spec_read_all(data, has_headers, batch_size) == Ok::<Seq<Seq<RowV>>, ()>(
        Seq::empty(),
    ));
    if start == 0 {
        assert(yss.skip(0) =~= yss);
        assert(spec_chunk_window(yss, hd, num) == Ok::<Seq<RowV>, ()>(
            spec_rows(yss.take(0), hd),
        ));
        assert(spec_rows(yss.take(0), hd) =~= Seq::<RowV>::empty());
    }
}

} // verus!
