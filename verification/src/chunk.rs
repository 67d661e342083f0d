//! Chunk reading: an arbitrary contiguous window of rows, reached either by
//! a linear skip from the top or, far into a large file, by projecting a
//! byte offset from a sampled bytes-per-row estimate, undershooting it by two
//! average rows, and realigning on the next line start.

use vstd::prelude::*;
use vstd::arithmetic::div_mod::lemma_multiply_divide_lt;
use vstd::arithmetic::mul::lemma_mul_inequality;
use vstd::arithmetic::mul::lemma_mul_upper_bound;
use crate::CsvError;
use crate::parser::CSVParser;
use crate::rows::Row;
use crate::rows::RowV;
use crate::rows::build_row;
use crate::rows::spec_row;
use crate::rows::spec_rows;
use crate::tokenizer::ByteReader;
use crate::tokenizer::byte_position;
use crate::tokenizer::make_reader;
use crate::tokenizer::read_headers;
use crate::tokenizer::read_one;
use crate::tokenizer::reader_consumed;
use crate::tokenizer::reader_data;
use crate::tokenizer::reader_flexible;
use crate::tokenizer::reader_has_headers;
use crate::tokenizer::reader_header_done;
use crate::tokenizer::spec_headers;
use crate::tokenizer::spec_offset_after;
use crate::tokenizer::spec_records;

verus! {

/// Beyond this start row a chunk read tries the estimate-and-seek path.
pub const SEEK_THRESHOLD: usize = 1000;

/// How many records the density estimator samples from the file's start.
pub const SAMPLE_SIZE: u64 = 100;

/// The default bytes-per-row guess when nothing could be sampled.
pub const DEFAULT_BYTES_PER_ROW: u64 = 100;

/// The position just past the first line terminator at or after `from`, or
/// the data's end when no terminator follows.
pub open spec fn spec_line_start_after(data: Seq<u8>, from: int) -> int
    recommends
        0 <= from <= data.len(),
    decreases data.len() - from,
    when 0 <= from <= data.len()
{
    if from >= data.len() {
        data.len() as int
    } else if data[from] == 10u8 {
        from + 1
    } else {
        spec_line_start_after(data, from + 1)
    }
}

/// How many records the estimator samples on the given snapshot: up to 100,
/// fewer at end of input.
pub open spec fn spec_sample_count(data: Seq<u8>, has_headers: bool) -> int {
    let ys = spec_records(data, has_headers, false);
    if ys.len() <= 100 {
        ys.len() as int
    } else {
        100int
    }
}

/// Whether every sampled record is well-formed.
pub open spec fn spec_sample_ok(data: Seq<u8>, has_headers: bool) -> bool {
    let ys = spec_records(data, has_headers, false);
    forall|i: int| 0 <= i < spec_sample_count(data, has_headers) ==> ys[i] is Some
}

/// The bytes-per-row estimate as a ratio, sampled bytes over sampled record
/// count, starting the byte count at the very start of the input (so a
/// header row's bytes are spread over the sample); the fixed default of 100
/// bytes per row when nothing could be sampled.
pub open spec fn spec_estimate(data: Seq<u8>, has_headers: bool) -> (int, int) {
    let n = spec_sample_count(data, has_headers);
    if n == 0 {
        (100int, 1int)
    } else {
        (spec_offset_after(data, has_headers, false, n), n)
    }
}

/// What the density estimator returns: the ratio, or an error when the
/// header row (if configured) or any sampled record is malformed.
pub open spec fn spec_estimate_result(data: Seq<u8>, has_headers: bool) -> Result<(int, int), ()> {
    if has_headers && spec_headers(data) is None {
        Err(())
    } else if !spec_sample_ok(data, has_headers) {
        Err(())
    } else {
        Ok(spec_estimate(data, has_headers))
    }
}

/// The first `num` yields of a window turned into rows against the header
/// set, fewer at end of input; an error when any yield in that range is
/// malformed.
pub open spec fn spec_chunk_window(
    ys: Seq<Option<Seq<Seq<char>>>>,
    hd: Seq<Seq<char>>,
    num: int,
) -> Result<Seq<RowV>, ()> {
    let take = if num <= ys.len() {
        num
    } else {
        ys.len() as int
    };
    if forall|i: int| 0 <= i < take ==> ys[i] is Some {
        Ok(spec_rows(ys.take(take), hd))
    } else {
        Err(())
    }
}

/// A linear chunk read: skip `start` yields from the top (whatever their
/// well-formedness), then take up to `num` rows. Reaching end of input
/// while skipping gives an empty result, not an error; a malformed header
/// row is an error.
pub open spec fn spec_chunk_linear(data: Seq<u8>, has_headers: bool, start: int, num: int) -> Result<
    Seq<RowV>,
    (),
> {
    match spec_headers(data) {
        None => Err(()),
        Some(hd) => {
            let ys = spec_records(data, has_headers, false);
            if ys.len() < start {
                Ok(Seq::empty())
            } else {
                spec_chunk_window(ys.skip(start), hd, num)
            }
        },
    }
}

/// The undershot projected byte offset for the given start row: the
/// estimate times the start row, plus one estimated row for a header, minus
/// two estimated rows of safety margin, rounded down.
pub open spec fn spec_safe_pos(data: Seq<u8>, has_headers: bool, start: int) -> int {
    let (en, ed) = spec_estimate(data, has_headers);
    let hoff = if has_headers {
        1int
    } else {
        0int
    };
    en * (start + hoff - 2) / ed
}

/// Where the seek path resumes reading: the undershot offset realigned to
/// the next line start.
pub open spec fn spec_seek_pos(data: Seq<u8>, has_headers: bool, start: int) -> int {
    spec_line_start_after(data, spec_safe_pos(data, has_headers, start))
}

/// Whether a chunk read takes the seek path: a start row past the
/// threshold, a known nonzero byte length, a positive estimate, and a
/// projected offset that falls inside the file.
pub open spec fn spec_seek_taken(data: Seq<u8>, has_headers: bool, file_size: u64, start: int) -> bool {
    let (en, ed) = spec_estimate(data, has_headers);
    let hoff = if has_headers {
        1int
    } else {
        0int
    };
    &&& start > SEEK_THRESHOLD as int
    &&& file_size > 0
    &&& en >= 1
    &&& en * (start + hoff) < file_size * ed
}

/// What a chunk read returns on the given snapshot. Near the start it is
/// the linear read; past the threshold the estimator runs first (its errors
/// surface), and when the projected offset falls inside the file the rows
/// come from the realigned seek position under an independently read header
/// set, otherwise from the linear fallback.
pub open spec fn spec_read_chunk(
    data: Seq<u8>,
    has_headers: bool,
    file_size: u64,
    start: int,
    num: int,
) -> Result<Seq<RowV>, ()> {
    if start > SEEK_THRESHOLD as int && file_size > 0 {
        if spec_estimate_result(data, has_headers) is Err {
            Err(())
        } else if spec_seek_taken(data, has_headers, file_size, start) {
            match spec_headers(data) {
                None => Err(()),
                Some(hd) => spec_chunk_window(
                    spec_records(data.skip(spec_seek_pos(data, has_headers, start)), false, false),
                    hd,
                    num,
                ),
            }
        } else {
            spec_chunk_linear(data, has_headers, start, num)
        }
    } else {
        spec_chunk_linear(data, has_headers, start, num)
    }
}

/// Scans for the next line start at or after `from`.
fn find_boundary(data: &Vec<u8>, from: usize) -> (pos: usize)
    requires
        from <= data@.len(),
    ensures
        pos as int == spec_line_start_after(data@, from as int),
        from <= pos <= data@.len(),
{
    let mut i = from;
    while i < data.len()
        invariant
            from <= i <= data@.len(),
            spec_line_start_after(data@, from as int) == spec_line_start_after(data@, i as int),
        decreases data@.len() - i,
    {
        if data[i] == 10u8 {
            return i + 1;
        }
        i = i + 1;
    }
    data.len()
}

/// Copies the snapshot's bytes from `pos` to its end.
fn tail_from(data: &Vec<u8>, pos: usize) -> (t: Vec<u8>)
    requires
        pos <= data@.len(),
    ensures
        t@ == data@.skip(pos as int),
{
    let mut t: Vec<u8> = Vec::new();
    let mut i = pos;
    proof {
        assert(t@ =~= data@.subrange(pos as int, pos as int));
    }
    while i < data.len()
        invariant
            pos <= i <= data@.len(),
            t@ == data@.subrange(pos as int, i as int),
        decreases data@.len() - i,
    {
        let b = data[i];
        t.push(b);
        proof {
            assert(t@ =~= data@.subrange(pos as int, i as int + 1));
        }
        i = i + 1;
    }
    proof {
        assert(t@ =~= data@.skip(pos as int));
    }
    t
}

/// Takes up to `num` rows from the reader's current position, built against
/// the given header set; a malformed yield in that range is a format error.
fn take_rows(reader: &mut ByteReader, headers: &Vec<String>, num: usize) -> (r: Result<
    Vec<Row>,
    CsvError,
>)
    requires
        0 <= reader_consumed(*old(reader)) <= spec_records(
            reader_data(*old(reader)),
            reader_has_headers(*old(reader)),
            reader_flexible(*old(reader)),
        ).len(),
    ensures
        ({
            let ys = spec_records(
                reader_data(*old(reader)),
                reader_has_headers(*old(reader)),
                reader_flexible(*old(reader)),
            );
            let w = ys.skip(reader_consumed(*old(reader)));
            match r {
                Ok(rows) => spec_chunk_window(w, headers.deep_view(), num as int) == Ok::<
                    Seq<RowV>,
                    (),
                >(rows.deep_view()),
                Err(e) => spec_chunk_window(w, headers.deep_view(), num as int) is Err
                    && e is Format,
            }
        }),
{
    let ghost ys = spec_records(
        reader_data(*old(reader)),
        reader_has_headers(*old(reader)),
        reader_flexible(*old(reader)),
    );
    let ghost c0 = reader_consumed(*old(reader));
    let ghost w = ys.skip(c0);
    let ghost hd = headers.deep_view();
    let mut out: Vec<Row> = Vec::new();
    proof {
        assert(out.deep_view() =~= spec_rows(w.take(0), hd));
    }
    loop
        invariant
            reader_data(*reader) == reader_data(*old(reader)),
            reader_has_headers(*reader) == reader_has_headers(*old(reader)),
            reader_flexible(*reader) == reader_flexible(*old(reader)),
            ys == spec_records(
                reader_data(*old(reader)),
                reader_has_headers(*old(reader)),
                reader_flexible(*old(reader)),
            ),
            c0 == reader_consumed(*old(reader)),
            w == ys.skip(c0),
            hd == headers.deep_view(),
            0 <= c0 <= reader_consumed(*reader) <= ys.len(),
            out@.len() <= num,
            reader_consumed(*reader) == c0 + out@.len(),
            forall|l: int| 0 <= l < out@.len() ==> w[l] is Some,
            out.deep_view() == spec_rows(w.take(out@.len() as int), hd),
        ensures
            reader_consumed(*reader) == c0 + out@.len(),
            out@.len() == num || reader_consumed(*reader) == ys.len(),
            forall|l: int| 0 <= l < out@.len() ==> w[l] is Some,
            out.deep_view() == spec_rows(w.take(out@.len() as int), hd),
        decreases num - out@.len(),
    {
        if out.len() == num {
            break ;
        }
        let ghost j = out@.len() as int;
        match read_one(reader) {
            None => {
                break ;
            },
            Some(None) => {
                proof {
                    assert(w[j] == ys[c0 + j]);
                    assert(w[j] is None);
                    assert(j < num as int && j < w.len());
                    assert(spec_chunk_window(w, hd, num as int) is Err);
                }
                return Err(CsvError::Format("Failed to read CSV record".to_string()));
            },
            Some(Some(rec)) => {
                let row = build_row(&rec, headers);
                let ghost out0 = out.deep_view();
                out.push(row);
                proof {
                    assert(w[j] == ys[c0 + j]);
                    assert(row.deep_view() == spec_row(w[j]->0, hd));
                    assert(out.deep_view() =~= out0.push(row.deep_view()));
                    assert(out.deep_view() =~= spec_rows(w.take(j + 1), hd));
                }
            },
        }
    }
    proof {
        let take = if num as int <= w.len() {
            num as int
        } else {
            w.len() as int
        };
        assert(out@.len() as int == take);
    }
    Ok(out)
}

/// Skips `n` yields from the reader's current position, whatever their
/// well-formedness. True when end of input came first.
fn skip_rows(reader: &mut ByteReader, n: usize) -> (hit_end: bool)
    requires
        0 <= reader_consumed(*old(reader)) <= spec_records(
            reader_data(*old(reader)),
            reader_has_headers(*old(reader)),
            reader_flexible(*old(reader)),
        ).len(),
    ensures
        reader_data(*final(reader)) == reader_data(*old(reader)),
        reader_has_headers(*final(reader)) == reader_has_headers(*old(reader)),
        reader_flexible(*final(reader)) == reader_flexible(*old(reader)),
        ({
            let ys = spec_records(
                reader_data(*old(reader)),
                reader_has_headers(*old(reader)),
                reader_flexible(*old(reader)),
            );
            let c0 = reader_consumed(*old(reader));
            if hit_end {
                reader_consumed(*final(reader)) == ys.len() && ys.len() < c0 + n
            } else {
                reader_consumed(*final(reader)) == c0 + n && c0 + n <= ys.len()
            }
        }),
{
    let ghost ys = spec_records(
        reader_data(*old(reader)),
        reader_has_headers(*old(reader)),
        reader_flexible(*old(reader)),
    );
    let ghost c0 = reader_consumed(*old(reader));
    let mut skipped: usize = 0;
    loop
        invariant
            reader_data(*reader) == reader_data(*old(reader)),
            reader_has_headers(*reader) == reader_has_headers(*old(reader)),
            reader_flexible(*reader) == reader_flexible(*old(reader)),
            ys == spec_records(
                reader_data(*old(reader)),
                reader_has_headers(*old(reader)),
                reader_flexible(*old(reader)),
            ),
            c0 == reader_consumed(*old(reader)),
            skipped <= n,
            reader_consumed(*reader) == c0 + skipped,
            reader_consumed(*reader) <= ys.len(),
        ensures
            reader_consumed(*reader) == c0 + skipped,
            skipped == n,
        decreases n - skipped,
    {
        if skipped == n {
            break ;
        }
        match read_one(reader) {
            None => {
                return true;
            },
            Some(_) => {
                skipped = skipped + 1;
            },
        }
    }
    false
}

impl CSVParser {
    /// Samples up to 100 records from the snapshot's start and returns the
    /// average bytes per row as a ratio of sampled bytes to sampled record
    /// count, defaulting to 100 bytes per row when nothing could be sampled.
    /// A malformed header row (when configured) or sample record is a
    /// format error.
    pub fn estimate_bytes_per_row(&self) -> (r: Result<(u64, u64), CsvError>)
        requires
            self.wf(),
        ensures
            match r {
                Ok(p) => spec_estimate_result(self.data@, self.has_headers) == Ok::<(int, int), ()>(
                    (p.0 as int, p.1 as int),
                ) && p.1 >= 1,
                Err(e) => spec_estimate_result(self.data@, self.has_headers) is Err && e is Format,
            },
    {
        let mut reader = make_reader(&self.data, self.has_headers, false);
        let ghost ys = spec_records(self.data@, self.has_headers, false);
        if self.has_headers {
            if read_headers(&mut reader).is_none() {
                return Err(CsvError::Format("Failed to read headers".to_string()));
            }
        }
        let mut n: u64 = 0;
        loop
            invariant
                reader_data(reader) == self.data@,
                reader_has_headers(reader) == self.has_headers,
                reader_flexible(reader) == false,
                ys == spec_records(self.data@, self.has_headers, false),
                n <= SAMPLE_SIZE,
                reader_consumed(reader) == n as int,
                n as int <= ys.len(),
                forall|j: int| 0 <= j < n as int ==> ys[j] is Some,
                n >= 1 ==> reader_header_done(reader),
            ensures
                reader_consumed(reader) == n as int,
                n == SAMPLE_SIZE || n as int == ys.len(),
                forall|j: int| 0 <= j < n as int ==> ys[j] is Some,
                n >= 1 ==> reader_header_done(reader),
            decreases SAMPLE_SIZE - n,
        {
            if n == SAMPLE_SIZE {
                break ;
            }
            match read_one(&mut reader) {
                None => {
                    break ;
                },
                Some(None) => {
                    proof {
                        assert(ys[n as int] is None);
                        assert(spec_sample_count(self.data@, self.has_headers) > n as int);
                    }
                    return Err(CsvError::Format("Error reading sample row".to_string()));
                },
                Some(Some(_)) => {
                    n = n + 1;
                },
            }
        }
        proof {
            assert(n as int == spec_sample_count(self.data@, self.has_headers));
            assert(spec_sample_ok(self.data@, self.has_headers));
        }
        if n == 0 {
            Ok((DEFAULT_BYTES_PER_ROW, 1))
        } else {
            let p = byte_position(&reader);
            Ok((p, n))
        }
    }

    /// Reads up to `num_rows` rows starting at `start_row`, seeking near the
    /// start row by the density estimate when the start is far into a large
    /// file, and scanning linearly otherwise. Reaching end of input early
    /// gives fewer rows, or none, not an error.
    pub fn read_chunk(&self, start_row: usize, num_rows: usize) -> (r: Result<Vec<Row>, CsvError>)
        requires
            self.wf(),
        ensures
            match r {
                Ok(rows) => spec_read_chunk(
                    self.data@,
                    self.has_headers,
                    self.file_size,
                    start_row as int,
                    num_rows as int,
                ) == Ok::<Seq<RowV>, ()>(rows.deep_view()),
                Err(e) => spec_read_chunk(
                    self.data@,
                    self.has_headers,
                    self.file_size,
                    start_row as int,
                    num_rows as int,
                ) is Err && e is Format,
            },
    {
        if start_row == 0 && self.has_headers {
            let mut reader = make_reader(&self.data, self.has_headers, false);
            let ghost ys = spec_records(self.data@, self.has_headers, false);
            let headers = match read_headers(&mut reader) {
                Some(h) => h,
                None => {
                    return Err(CsvError::Format("Failed to read CSV headers".to_string()));
                },
            };
            proof {
                assert(ys.skip(0) =~= ys);
            }
            return take_rows(&mut reader, &headers, num_rows);
        }
        self.read_chunk_optimized(start_row, num_rows)
    }

    /// The chunk read behind the threshold test: estimate, seek and realign
    /// when the projected offset falls inside the file, and the linear skip
    /// otherwise.
    pub fn read_chunk_optimized(&self, start_row: usize, num_rows: usize) -> (r: Result<
        Vec<Row>,
        CsvError,
    >)
        requires
            self.wf(),
        ensures
            match r {
                Ok(rows) => spec_read_chunk(
                    self.data@,
                    self.has_headers,
                    self.file_size,
                    start_row as int,
                    num_rows as int,
                ) == Ok::<Seq<RowV>, ()>(rows.deep_view()),
                Err(e) => spec_read_chunk(
                    self.data@,
                    self.has_headers,
                    self.file_size,
                    start_row as int,
                    num_rows as int,
                ) is Err && e is Format,
            },
    {
        if start_row > SEEK_THRESHOLD && self.file_size > 0 {
            let (en, ed) = match self.estimate_bytes_per_row() {
                Ok(p) => p,
                Err(e) => {
                    return Err(e);
                },
            };
            if en >= 1 {
                let hoff: u128 = if self.has_headers {
                    1
                } else {
                    0
                };
                let en128 = en as u128;
                let ed128 = ed as u128;
                proof {
                    lemma_mul_upper_bound(
                        en as int,
                        u64::MAX as int,
                        start_row as int + hoff as int,
                        u64::MAX as int + 1,
                    );
                    lemma_mul_upper_bound(
                        self.file_size as int,
                        u64::MAX as int,
                        ed as int,
                        u64::MAX as int,
                    );
                }
                let target: u128 = en128 * (start_row as u128 + hoff);
                let bound: u128 = (self.file_size as u128) * ed128;
                if target < bound {
                    proof {
                        lemma_mul_inequality(
                            start_row as int + hoff as int - 2,
                            start_row as int + hoff as int,
                            en as int,
                        );
                        assert((start_row as int + hoff as int - 2) * en as int == en as int * (
                        start_row as int + hoff as int - 2)) by (nonlinear_arith);
                        assert((start_row as int + hoff as int) * en as int == en as int * (
                        start_row as int + hoff as int)) by (nonlinear_arith);
                    }
                    let sub: u128 = en128 * (start_row as u128 + hoff - 2);
                    let safe128: u128 = sub / ed128;
                    proof {
                        assert(self.file_size as int * ed as int == ed as int
                            * self.file_size as int) by (nonlinear_arith);
                        lemma_multiply_divide_lt(sub as int, ed as int, self.file_size as int);
                        assert(safe128 as int == spec_safe_pos(
                            self.data@,
                            self.has_headers,
                            start_row as int,
                        ));
                    }
                    let dlen = self.data.len();
                    proof {
                        assert(self.file_size as int == dlen as int);
                        assert((safe128 as int) < (dlen as int));
                    }
                    let safe = safe128 as usize;
                    let pos = find_boundary(&self.data, safe);
                    let mut hreader = make_reader(&self.data, true, false);
                    let headers = match read_headers(&mut hreader) {
                        Some(h) => h,
                        None => {
                            return Err(CsvError::Format("Failed to read CSV headers".to_string()));
                        },
                    };
                    let suffix = tail_from(&self.data, pos);
                    let mut reader = make_reader(&suffix, false, false);
                    let ghost sys = spec_records(suffix@, false, false);
                    proof {
                        assert(sys.skip(0) =~= sys);
                        assert(spec_seek_taken(
                            self.data@,
                            self.has_headers,
                            self.file_size,
                            start_row as int,
                        ));
                        assert(pos as int == spec_seek_pos(
                            self.data@,
                            self.has_headers,
                            start_row as int,
                        ));
                    }
                    return take_rows(&mut reader, &headers, num_rows);
                }
            }
            proof {
                assert(!spec_seek_taken(
                    self.data@,
                    self.has_headers,
                    self.file_size,
                    start_row as int,
                ));
            }
            self.read_chunk_linear(start_row, num_rows)
        } else {
            self.read_chunk_linear(start_row, num_rows)
        }
    }

    /// The linear fallback: read the header set, discard `start_row` yields
    /// one at a time (an early end of input gives an empty result), then
    /// take up to `num_rows` rows.
    fn read_chunk_linear(&self, start_row: usize, num_rows: usize) -> (r: Result<Vec<Row>, CsvError>)
        requires
            self.wf(),
        ensures
            match r {
                Ok(rows) => spec_chunk_linear(
                    self.data@,
                    self.has_headers,
                    start_row as int,
                    num_rows as int,
                ) == Ok::<Seq<RowV>, ()>(rows.deep_view()),
                Err(e) => spec_chunk_linear(
                    self.data@,
                    self.has_headers,
                    start_row as int,
                    num_rows as int,
                ) is Err && e is Format,
            },
    {
        let mut reader = make_reader(&self.data, self.has_headers, false);
        let ghost ys = spec_records(self.data@, self.has_headers, false);
        let headers = match read_headers(&mut reader) {
            Some(h) => h,
            None => {
                return Err(CsvError::Format("Failed to read CSV headers".to_string()));
            },
        };
        if skip_rows(&mut reader, start_row) {
            let empty: Vec<Row> = Vec::new();
            proof {
                assert(empty.deep_view() =~= Seq::<RowV>::empty());
            }
            return Ok(empty);
        }
        take_rows(&mut reader, &headers, num_rows)
    }
}

} // verus!
