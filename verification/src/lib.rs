//! Batched reading of delimited tabular data.
//!
//! The accessor holds an immutable byte snapshot of one file together with a
//! configured batch size and a header flag. It can stream the whole snapshot
//! as fixed-size batches of rows, count rows without materializing them, and
//! read an arbitrary contiguous window of rows, jumping near a far start row
//! by a sampled bytes-per-row estimate instead of scanning from the top.
//! Record tokenization itself (field splitting, quoting, escaping) is
//! delegated to the `csv` crate behind a small trusted surface.

use vstd::prelude::*;

pub mod chunk;
pub mod laws;
pub mod parser;
pub mod rows;
pub mod tokenizer;

verus! {

/// The failures an operation can surface: a system-level I/O failure
/// (raised by the surrounding glue that reads files, never by the
/// in-memory operations here) or malformed record content.
#[derive(Debug)]
pub enum CsvError {
    Io(String),
    Format(String),
}

impl CsvError {
    /// True of the data-format variant.
    pub fn is_format(&self) -> (r: bool)
        ensures
            r == (self is Format),
    {
        match self {
            CsvError::Format(_) => true,
            CsvError::Io(_) => false,
        }
    }

    /// True of the I/O variant.
    pub fn is_io(&self) -> (r: bool)
        ensures
            r == (self is Io),
    {
        match self {
            CsvError::Io(_) => true,
            CsvError::Format(_) => false,
        }
    }

    /// The error's descriptive message.
    pub fn message(&self) -> (m: &String)
        ensures
            self matches CsvError::Io(s) ==> m == s,
            self matches CsvError::Format(s) ==> m == s,
    {
        match self {
            CsvError::Io(s) => s,
            CsvError::Format(s) => s,
        }
    }
}

/// How a full read obtains its bytes: small files wholesale, large or
/// unknown-length files through a bounded buffer.
#[derive(Debug, PartialEq, Eq, Structural)]
pub enum Strategy {
    WholeFile,
    Streaming,
}

/// The whole-file threshold: 100 MiB.
pub const WHOLE_FILE_LIMIT: u64 = 104857600;

/// Which load strategy a full read uses for a file of the given byte length:
/// strictly under 100 MiB loads wholesale, at or above that, or with an
/// unknown (zero) length, streams.
pub open spec fn spec_select_strategy(file_byte_length: u64) -> Strategy {
    if 0 < file_byte_length < WHOLE_FILE_LIMIT {
        Strategy::WholeFile
    } else {
        Strategy::Streaming
    }
}

/// Chooses between loading a file wholesale and streaming it.
pub fn select_strategy(file_byte_length: u64) -> (s: Strategy)
    ensures
        s == spec_select_strategy(file_byte_length),
{
    if 0 < file_byte_length && file_byte_length < WHOLE_FILE_LIMIT {
        Strategy::WholeFile
    } else {
        Strategy::Streaming
    }
}

} // verus!
