//! The accessor over one file snapshot: full reads in batches, row counting,
//! and the file-info summary.

use vstd::prelude::*;
use vstd::arithmetic::div_mod::lemma_mod_add_multiples_vanish;
use crate::CsvError;
use crate::Strategy;
use crate::select_strategy;
use crate::rows::Batch;
use crate::rows::Row;
use crate::rows::RowV;
use crate::rows::all_ok;
use crate::rows::build_row;
use crate::rows::lemma_batches_append;
use crate::rows::spec_batches;
use crate::rows::spec_file_rows;
use crate::rows::spec_row;
use crate::rows::spec_rows;
use crate::tokenizer::make_reader;
use crate::tokenizer::read_headers;
use crate::tokenizer::read_one;
use crate::tokenizer::reader_consumed;
use crate::tokenizer::reader_data;
use crate::tokenizer::reader_flexible;
use crate::tokenizer::reader_has_headers;
use crate::tokenizer::spec_headers;
use crate::tokenizer::spec_records;

verus! {

/// The accessor: an immutable snapshot of one delimited file, the configured
/// batch size, the header flag, and the byte length captured at
/// construction.
pub struct CSVParser {
    pub filename: String,
    pub data: Vec<u8>,
    pub batch_size: usize,
    pub has_headers: bool,
    pub file_size: u64,
}

/// The metadata summary of an accessor's file.
pub struct FileInfo {
    pub filename: String,
    pub size_bytes: u64,
    pub batch_size: usize,
    pub has_headers: bool,
    pub headers: Vec<String>,
}

/// The allocation hint for the outer batch sequence. Loading wholesale
/// guesses 50 bytes per row from having the whole buffer in hand; streaming
/// guesses 100 bytes per row, floored at one batch. A hint only: it never
/// truncates anything.
pub open spec fn spec_capacity_hint(strategy: Strategy, file_size: u64, batch_size: int) -> int
    recommends
        batch_size >= 1,
{
    match strategy {
        Strategy::WholeFile => (file_size as int / 50) / batch_size + 1,
        Strategy::Streaming => {
            let est = file_size as int / (batch_size * 100);
            (if est >= 1 {
                est
            } else {
                1int
            }) + 1
        },
    }
}

/// Computes the batch-sequence allocation hint, clamped to what a length can
/// hold.
pub fn batch_capacity_hint(strategy: &Strategy, file_size: u64, batch_size: usize) -> (c: usize)
    requires
        batch_size >= 1,
    ensures
        c as int == if spec_capacity_hint(*strategy, file_size, batch_size as int) <= usize::MAX
            as int {
            spec_capacity_hint(*strategy, file_size, batch_size as int)
        } else {
            usize::MAX as int
        },
{
    let hint: u128 = match strategy {
        Strategy::WholeFile => ((file_size as u128) / 50) / (batch_size as u128) + 1,
        Strategy::Streaming => {
            let est: u128 = (file_size as u128) / ((batch_size as u128) * 100);
            (if est >= 1 {
                est
            } else {
                1
            }) + 1
        },
    };
    if hint > usize::MAX as u128 {
        usize::MAX
    } else {
        hint as usize
    }
}

/// What a full read returns on the given snapshot: the rows of every
/// tolerant-tokenization yield against the header row, grouped into batches,
/// or an error when the header row or any record is malformed.
pub open spec fn spec_read_all(data: Seq<u8>, has_headers: bool, batch_size: int) -> Result<
    Seq<Seq<RowV>>,
    (),
> {
    if spec_headers(data) is None {
        Err(())
    } else if !all_ok(spec_records(data, has_headers, true)) {
        Err(())
    } else {
        Ok(spec_batches(spec_file_rows(data, has_headers), batch_size))
    }
}

/// How many yields of a window are well-formed records.
pub open spec fn spec_count_ok(ys: Seq<Option<Seq<Seq<char>>>>) -> int
    decreases ys.len(),
{
    if ys.len() == 0 {
        0
    } else {
        spec_count_ok(ys.drop_last()) + if ys.last() is Some {
            1int
        } else {
            0int
        }
    }
}

/// There are never more well-formed yields than yields.
pub proof fn lemma_count_ok_le(ys: Seq<Option<Seq<Seq<char>>>>)
    ensures
        0 <= spec_count_ok(ys) <= ys.len(),
    decreases ys.len(),
{
    if ys.len() > 0 {
        lemma_count_ok_le(ys.drop_last());
    }
}

/// What a row count returns on the given snapshot: the number of
/// well-formed strict-tokenization yields, malformed ones silently skipped,
/// or an error when the header flag is set and the header row is malformed.
pub open spec fn spec_count_rows(data: Seq<u8>, has_headers: bool) -> Result<int, ()> {
    if has_headers && spec_headers(data) is None {
        Err(())
    } else {
        Ok(spec_count_ok(spec_records(data, has_headers, false)))
    }
}

/// The header list the file-info summary carries: the header row when the
/// header flag is set and that row is well-formed, and empty otherwise.
pub open spec fn spec_info_headers(data: Seq<u8>, has_headers: bool) -> Seq<Seq<char>> {
    if has_headers {
        match spec_headers(data) {
            Some(h) => h,
            None => Seq::empty(),
        }
    } else {
        Seq::empty()
    }
}

impl CSVParser {
    /// A well-formed accessor: a positive batch size, and a byte length that
    /// matches the snapshot.
    pub open spec fn wf(&self) -> bool {
        &&& self.batch_size >= 1
        &&& self.file_size == self.data@.len()
    }

    /// Builds an accessor over a snapshot of the named file's bytes. The
    /// header flag defaults to set.
    pub fn new(
        filename: String,
        data: Vec<u8>,
        batch_size: usize,
        has_headers: Option<bool>,
    ) -> (p: Self)
        requires
            batch_size >= 1,
        ensures
            p.wf(),
            p.filename == filename,
            p.data == data,
            p.batch_size == batch_size,
            p.has_headers == (match has_headers {
                Some(b) => b,
                None => true,
            }),
            p.file_size == data@.len(),
    {
        let file_size = data.len() as u64;
        let has_headers = match has_headers {
            Some(b) => b,
            None => true,
        };
        CSVParser { filename, data, batch_size, has_headers, file_size }
    }

    /// Reads the whole snapshot as batches of rows. Every batch except
    /// possibly the last holds exactly `batch_size` rows; a malformed header
    /// row or record aborts the whole read with a format error and no
    /// batches.
    pub fn read(&self) -> (r: Result<Vec<Batch>, CsvError>)
        requires
            self.wf(),
        ensures
            match r {
                Ok(batches) => spec_read_all(self.data@, self.has_headers, self.batch_size as int)
                    == Ok::<Seq<Seq<RowV>>, ()>(batches.deep_view()),
                Err(e) => spec_read_all(self.data@, self.has_headers, self.batch_size as int)
                    == Err::<Seq<Seq<RowV>>, ()>(()) && e is Format,
            },
    {
        let strategy = select_strategy(self.file_size);
        let cap = batch_capacity_hint(&strategy, self.file_size, self.batch_size);
        let mut reader = make_reader(&self.data, self.has_headers, true);
        let ghost ys = spec_records(self.data@, self.has_headers, true);
        let headers = match read_headers(&mut reader) {
            Some(h) => h,
            None => {
                return Err(CsvError::Format("Failed to read CSV headers".to_string()));
            },
        };
        let ghost hd = headers.deep_view();
        let bs = self.batch_size;
        let mut batches: Vec<Batch> = Vec::with_capacity(cap);
        let mut cur: Batch = Vec::with_capacity(bs);
        proof {
            assert(cur.deep_view() =~= spec_rows(ys.take(0), hd).skip(0));
            assert(batches.deep_view() =~= spec_batches(
                spec_rows(ys.take(0), hd).take(0),
                bs as int,
            ));
        }
        loop
            invariant
                self.wf(),
                bs == self.batch_size,
                reader_data(reader) == self.data@,
                reader_has_headers(reader) == self.has_headers,
                reader_flexible(reader) == true,
                ys == spec_records(self.data@, self.has_headers, true),
                0 <= reader_consumed(reader) <= ys.len(),
                spec_headers(self.data@) == Some(hd),
                headers.deep_view() == hd,
                forall|j: int| 0 <= j < reader_consumed(reader) ==> ys[j] is Some,
                cur@.len() < bs,
                cur@.len() <= reader_consumed(reader),
                cur.deep_view() == spec_rows(ys.take(reader_consumed(reader)), hd).skip(
                    reader_consumed(reader) - cur@.len(),
                ),
                batches.deep_view() == spec_batches(
                    spec_rows(ys.take(reader_consumed(reader)), hd).take(
                        reader_consumed(reader) - cur@.len(),
                    ),
                    bs as int,
                ),
                (reader_consumed(reader) - cur@.len()) % (bs as int) == 0,
            ensures
                reader_consumed(reader) == ys.len(),
            decreases ys.len() - reader_consumed(reader),
        {
            let ghost k0 = reader_consumed(reader);
            let ghost full0 = k0 - cur@.len();
            let ghost rows0 = spec_rows(ys.take(k0), hd);
            match read_one(&mut reader) {
                None => {
                    break ;
                },
                Some(None) => {
                    proof {
                        assert(ys[k0] is None);
                        assert(!all_ok(ys));
                    }
                    return Err(CsvError::Format("Failed to read CSV record".to_string()));
                },
                Some(Some(rec)) => {
                    let row = build_row(&rec, &headers);
                    let ghost rows1 = spec_rows(ys.take(k0 + 1), hd);
                    proof {
                        assert(ys[k0] == Some(rec.deep_view()));
                        assert(row.deep_view() == spec_row(ys[k0]->0, hd));
                        assert(rows1 =~= rows0.push(spec_row(ys[k0]->0, hd)));
                    }
                    let ghost cur0 = cur.deep_view();
                    cur.push(row);
                    proof {
                        assert(cur.deep_view() =~= cur0.push(row.deep_view()));
                        assert(cur.deep_view() =~= rows1.skip(full0));
                        assert(rows1.take(full0) =~= rows0.take(full0));
                    }
                    if cur.len() == bs {
                        let ghost b0 = batches.deep_view();
                        batches.push(cur);
                        cur = Vec::with_capacity(bs);
                        proof {
                            assert(batches.deep_view() =~= b0.push(rows1.skip(full0)));
                            assert(rows1.skip(full0).len() == bs);
                            assert(spec_batches(rows1.skip(full0), bs as int) == seq![
                                rows1.skip(full0),
                            ]);
                            lemma_batches_append(
                                rows1.take(full0),
                                rows1.skip(full0),
                                bs as int,
                            );
                            assert(rows1.take(full0) + rows1.skip(full0) =~= rows1);
                            assert(batches.deep_view() =~= spec_batches(rows1, bs as int));
                            assert(rows1.take(k0 + 1) =~= rows1);
                            lemma_mod_add_multiples_vanish(full0, bs as int);
                            assert(cur.deep_view() =~= rows1.skip(k0 + 1));
                        }
                    }
                },
            }
        }
        proof {
            assert(ys.take(ys.len() as int) =~= ys);
            assert(all_ok(ys));
            assert(spec_rows(ys, hd) == spec_file_rows(self.data@, self.has_headers));
        }
        let ghost rows = spec_rows(ys, hd);
        let ghost fulln = reader_consumed(reader) - cur@.len();
        if cur.len() > 0 {
            let ghost b0 = batches.deep_view();
            batches.push(cur);
            proof {
                assert(batches.deep_view() =~= b0.push(rows.skip(fulln)));
                assert(spec_batches(rows.skip(fulln), bs as int) == seq![rows.skip(fulln)]);
                lemma_batches_append(rows.take(fulln), rows.skip(fulln), bs as int);
                assert(rows.take(fulln) + rows.skip(fulln) =~= rows);
                assert(batches.deep_view() =~= spec_batches(rows, bs as int));
            }
        } else {
            proof {
                assert(rows.take(fulln) =~= rows);
            }
        }
        Ok(batches)
    }

    /// Counts the rows of the snapshot under strict tokenization without
    /// materializing them, silently skipping malformed records; a malformed
    /// header row (when the header flag is set) is a format error.
    pub fn count_rows(&self) -> (r: Result<usize, CsvError>)
        requires
            self.wf(),
        ensures
            match r {
                Ok(n) => spec_count_rows(self.data@, self.has_headers) == Ok::<int, ()>(n as int),
                Err(e) => spec_count_rows(self.data@, self.has_headers) == Err::<int, ()>(())
                    && e is Format,
            },
    {
        let total = self.data.len();
        let mut reader = make_reader(&self.data, self.has_headers, false);
        let ghost ys = spec_records(self.data@, self.has_headers, false);
        if self.has_headers {
            if read_headers(&mut reader).is_none() {
                return Err(CsvError::Format("Failed to read headers".to_string()));
            }
        }
        let mut count: usize = 0;
        loop
            invariant
                total == self.data@.len(),
                reader_data(reader) == self.data@,
                reader_has_headers(reader) == self.has_headers,
                reader_flexible(reader) == false,
                ys == spec_records(self.data@, self.has_headers, false),
                0 <= reader_consumed(reader) <= ys.len(),
                ys.len() <= total,
                count as int == spec_count_ok(ys.take(reader_consumed(reader))),
                count <= reader_consumed(reader),
            ensures
                reader_consumed(reader) == ys.len(),
                count as int == spec_count_ok(ys.take(reader_consumed(reader))),
            decreases ys.len() - reader_consumed(reader),
        {
            let ghost k0 = reader_consumed(reader);
            let y = read_one(&mut reader);
            proof {
                if y is Some {
                    assert(ys.take(k0 + 1).drop_last() =~= ys.take(k0));
                    assert(ys.take(k0 + 1).last() == ys[k0]);
                    lemma_count_ok_le(ys.take(k0));
                }
            }
            match y {
                None => {
                    break ;
                },
                Some(None) => {
                },
                Some(Some(_)) => {
                    count = count + 1;
                },
            }
        }
        proof {
            assert(ys.take(ys.len() as int) =~= ys);
        }
        Ok(count)
    }

    /// Assembles the metadata summary: name, byte size, batch size, header
    /// flag, and the header row read fresh from the snapshot (empty when the
    /// header flag is off or the row is malformed).
    pub fn get_file_info(&self) -> (info: FileInfo)
        requires
            self.wf(),
        ensures
            info.filename == self.filename,
            info.size_bytes == self.file_size,
            info.batch_size == self.batch_size,
            info.has_headers == self.has_headers,
            info.headers.deep_view() == spec_info_headers(self.data@, self.has_headers),
    {
        let headers: Vec<String> = if self.has_headers {
            let mut reader = make_reader(&self.data, true, false);
            match read_headers(&mut reader) {
                Some(h) => h,
                None => {
                    let empty: Vec<String> = Vec::new();
                    proof {
                        assert(empty.deep_view() =~= spec_info_headers(
                            self.data@,
                            self.has_headers,
                        ));
                    }
                    empty
                },
            }
        } else {
            let empty: Vec<String> = Vec::new();
            proof {
                assert(empty.deep_view() =~= spec_info_headers(self.data@, self.has_headers));
            }
            empty
        };
        FileInfo {
            filename: self.filename.clone(),
            size_bytes: self.file_size,
            batch_size: self.batch_size,
            has_headers: self.has_headers,
            headers,
        }
    }
}

} // verus!
