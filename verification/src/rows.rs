//! Rows and batches: pairing a record's fields with the header set, and
//! grouping rows into fixed-size batches.

use vstd::prelude::*;
use vstd::seq_lib::lemma_flatten_concat;
use crate::tokenizer::spec_headers;
use crate::tokenizer::spec_records;

verus! {

/// A row: field name paired with field text, in header order.
pub type Row = Vec<(String, String)>;

/// A batch: a bounded group of rows.
pub type Batch = Vec<Row>;

/// The mathematical value of a row.
pub type RowV = Seq<(Seq<char>, Seq<char>)>;

/// The row a record makes against a header set: each field paired
/// positionally with its header. Fields past the header count are dropped;
/// headers past the record's field count get no entry.
pub open spec fn spec_row(rec: Seq<Seq<char>>, headers: Seq<Seq<char>>) -> RowV {
    Seq::new(
        if rec.len() <= headers.len() {
            rec.len()
        } else {
            headers.len()
        },
        |i: int| (headers[i], rec[i]),
    )
}

/// Whether every yield of a window is a well-formed record.
pub open spec fn all_ok(ys: Seq<Option<Seq<Seq<char>>>>) -> bool {
    forall|i: int| 0 <= i < ys.len() ==> ys[i] is Some
}

/// The rows of a sequence of well-formed record yields.
pub open spec fn spec_rows(ys: Seq<Option<Seq<Seq<char>>>>, headers: Seq<Seq<char>>) -> Seq<
    RowV,
> {
    Seq::new(ys.len(), |i: int| spec_row(ys[i]->0, headers))
}

/// The rows of a full read of the given bytes, defined when every yield is
/// well-formed: each tolerant-tokenization yield against the header row.
pub open spec fn spec_file_rows(data: Seq<u8>, has_headers: bool) -> Seq<RowV> {
    spec_rows(spec_records(data, has_headers, true), spec_headers(data)->0)
}

/// The given rows grouped into batches of `batch_size`, the last batch
/// holding the remainder.
pub open spec fn spec_batches(rows: Seq<RowV>, batch_size: int) -> Seq<Seq<RowV>>
    recommends
        batch_size >= 1,
    decreases rows.len(),
    when batch_size >= 1
{
    if rows.len() == 0 {
        Seq::empty()
    } else if rows.len() <= batch_size {
        seq![rows]
    } else {
        seq![rows.take(batch_size)] + spec_batches(rows.skip(batch_size), batch_size)
    }
}

/// Splitting rows into batches keeps every row, in order: the batches
/// flatten back to the rows, so the total row count over all batches equals
/// the number of rows.
pub proof fn lemma_batches_flatten(rows: Seq<RowV>, batch_size: int)
    requires
        batch_size >= 1,
    ensures
        spec_batches(rows, batch_size).flatten() == rows,
    decreases rows.len(),
{
    if rows.len() == 0 {
        assert(spec_batches(rows, batch_size).flatten() =~= rows);
    } else if rows.len() <= batch_size {
        assert(seq![rows].len() == 1);
        seq![rows].lemma_flatten_singleton();
    } else {
        let head = seq![rows.take(batch_size)];
        let tail = spec_batches(rows.skip(batch_size), batch_size);
        lemma_batches_flatten(rows.skip(batch_size), batch_size);
        lemma_flatten_concat(head, tail);
        assert(head.len() == 1);
        head.lemma_flatten_singleton();
        assert((head + tail).flatten() =~= rows);
    }
}

/// Every batch except possibly the last holds exactly `batch_size` rows, and
/// every batch holds at least one.
pub proof fn lemma_batches_shape(rows: Seq<RowV>, batch_size: int)
    requires
        batch_size >= 1,
    ensures
        forall|i: int|
            0 <= i < spec_batches(rows, batch_size).len() - 1 ==> (#[trigger] spec_batches(
                rows,
                batch_size,
            )[i]).len() == batch_size,
        forall|i: int|
            0 <= i < spec_batches(rows, batch_size).len() ==> 1 <= (#[trigger] spec_batches(
                rows,
                batch_size,
            )[i]).len() <= batch_size,
    decreases rows.len(),
{
    let b = spec_batches(rows, batch_size);
    if rows.len() == 0 {
    } else if rows.len() <= batch_size {
        assert(b == seq![rows]);
        assert(b[0].len() == rows.len());
    } else {
        lemma_batches_shape(rows.skip(batch_size), batch_size);
        let rest = spec_batches(rows.skip(batch_size), batch_size);
        assert(b == seq![rows.take(batch_size)] + rest);
        assert(rest.len() >= 1);
        assert forall|i: int| 0 <= i < b.len() implies 1 <= (#[trigger] b[i]).len()
            <= batch_size by {
            if i == 0 {
                assert(b[0] == rows.take(batch_size));
            } else {
                assert(b[i] == rest[i - 1]);
            }
        }
        assert forall|i: int| 0 <= i < b.len() - 1 implies (#[trigger] b[i]).len()
            == batch_size by {
            if i == 0 {
                assert(b[0] == rows.take(batch_size));
            } else {
                assert(b[i] == rest[i - 1]);
            }
        }
    }
}

/// Chunking a sequence that splits at a batch boundary chunks each part on
/// its own.
pub proof fn lemma_batches_append(s: Seq<RowV>, t: Seq<RowV>, batch_size: int)
    requires
        batch_size >= 1,
        s.len() as int % batch_size == 0,
    ensures
        spec_batches(s + t, batch_size) == spec_batches(s, batch_size) + spec_batches(
            t,
            batch_size,
        ),
    decreases s.len(),
{
    if s.len() == 0 {
        assert(s + t =~= t);
        assert(spec_batches(s, batch_size) + spec_batches(t, batch_size) =~= spec_batches(
            t,
            batch_size,
        ));
    } else {
        assert(s.len() >= batch_size) by {
            if s.len() < batch_size {
                vstd::arithmetic::div_mod::lemma_small_mod(s.len(), batch_size as nat);
            }
        };
        if s.len() == batch_size && t.len() == 0 {
            assert(s + t =~= s);
            assert(spec_batches(s, batch_size) + spec_batches(t, batch_size) =~= spec_batches(
                s,
                batch_size,
            ));
        } else {
            assert((s + t).len() > batch_size);
            assert((s + t).take(batch_size) =~= s.take(batch_size));
            assert((s + t).skip(batch_size) =~= s.skip(batch_size) + t);
            assert(s.skip(batch_size).len() as int % batch_size == 0) by {
                let q = s.len() as int / batch_size;
                vstd::arithmetic::div_mod::lemma_fundamental_div_mod(s.len() as int, batch_size);
                assert(s.len() as int == batch_size * q);
                assert((q - 1) * batch_size == batch_size * q - batch_size) by (nonlinear_arith);
                vstd::arithmetic::div_mod::lemma_mod_multiples_basic(q - 1, batch_size);
                assert(s.skip(batch_size).len() as int == (q - 1) * batch_size);
            };
            lemma_batches_append(s.skip(batch_size), t, batch_size);
            assert(spec_batches(s, batch_size) =~= seq![s.take(batch_size)] + spec_batches(
                s.skip(batch_size),
                batch_size,
            )) by {
                if s.len() == batch_size {
                    assert(s.take(batch_size) =~= s);
                    assert(s.skip(batch_size) =~= Seq::<RowV>::empty());
                }
            };
            assert(spec_batches(s + t, batch_size) =~= spec_batches(s, batch_size) + spec_batches(
                t,
                batch_size,
            ));
        }
    }
}

/// Builds the row of one record against the header set.
pub fn build_row(rec: &Vec<String>, headers: &Vec<String>) -> (r: Row)
    ensures
        r.deep_view() == spec_row(rec.deep_view(), headers.deep_view()),
{
    let n = if rec.len() <= headers.len() {
        rec.len()
    } else {
        headers.len()
    };
    let mut r: Row = Vec::new();
    let mut i: usize = 0;
    while i < n
        invariant
            0 <= i <= n,
            n == if rec@.len() <= headers@.len() {
                rec@.len()
            } else {
                headers@.len()
            },
            r.deep_view() =~= spec_row(rec.deep_view(), headers.deep_view()).take(i as int),
        decreases n - i,
    {
        let h = headers[i].clone();
        let f = rec[i].clone();
        r.push((h, f));
        proof {
            let target = spec_row(rec.deep_view(), headers.deep_view());
            assert(h@ == headers.deep_view()[i as int]);
            assert(f@ == rec.deep_view()[i as int]);
            assert(r.deep_view() =~= target.take(i as int).push((h@, f@)));
            assert(target.take(i as int).push((h@, f@)) =~= target.take(i as int + 1));
        }
        i = i + 1;
    }
    assert(r.deep_view() =~= spec_row(rec.deep_view(), headers.deep_view()));
    r
}

} // verus!
