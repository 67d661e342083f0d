use csv_reader::CsvError;
use csv_reader::Strategy;
use csv_reader::WHOLE_FILE_LIMIT;
use csv_reader::parser::CSVParser;
use csv_reader::parser::batch_capacity_hint;
use csv_reader::select_strategy;

fn parser(content: &str, batch_size: usize, has_headers: Option<bool>) -> CSVParser {
    CSVParser::new(
        "test.csv".to_string(),
        content.as_bytes().to_vec(),
        batch_size,
        has_headers,
    )
}

fn row(pairs: &[(&str, &str)]) -> Vec<(String, String)> {
    pairs.iter().map(|(k, v)| (k.to_string(), v.to_string())).collect()
}

/// A uniform file of 12-byte lines `rNNNN,cNNNN\n`, with an optional
/// same-width header line.
fn uniform_file(rows: usize, header: bool) -> String {
    let mut s = String::new();
    if header {
        s.push_str("haaaa,hbbbb\n");
    }
    for i in 0..rows {
        s.push_str(&format!("r{:04},c{:04}\n", i, i));
    }
    s
}

#[test]
fn read_all_three_rows_batch_two() {
    let p = parser("a,b,c\n1,2,3\n4,5,6\n7,8,9\n", 2, Some(true));
    let batches = p.read().unwrap();
    assert_eq!(batches.len(), 2);
    assert_eq!(
        batches[0],
        vec![row(&[("a", "1"), ("b", "2"), ("c", "3")]), row(&[("a", "4"), ("b", "5"), ("c", "6")])]
    );
    assert_eq!(batches[1], vec![row(&[("a", "7"), ("b", "8"), ("c", "9")])]);
}

#[test]
fn read_all_default_header_flag_is_true() {
    let p = parser("a,b,c\n1,2,3\n4,5,6\n7,8,9\n", 10, None);
    let batches = p.read().unwrap();
    assert_eq!(batches.len(), 1);
    assert_eq!(batches[0].len(), 3);
    assert_eq!(batches[0][0], row(&[("a", "1"), ("b", "2"), ("c", "3")]));
}

#[test]
fn read_chunk_second_row() {
    let p = parser("a,b,c\n1,2,3\n4,5,6\n7,8,9\n", 2, Some(true));
    let chunk = p.read_chunk(1, 1).unwrap();
    assert_eq!(chunk, vec![row(&[("a", "4"), ("b", "5"), ("c", "6")])]);
}

#[test]
fn read_chunk_zero_matches_read_all_prefix() {
    let p = parser("a,b,c\n1,2,3\n4,5,6\n7,8,9\n", 2, Some(true));
    let flattened: Vec<Vec<(String, String)>> =
        p.read().unwrap().into_iter().flatten().collect();
    let chunk = p.read_chunk(0, 2).unwrap();
    assert_eq!(chunk.as_slice(), &flattened[..2]);
}

#[test]
fn read_chunk_midrange_remainder() {
    let p = parser("a,b,c\n1,2,3\n4,5,6\n7,8,9\n", 2, Some(true));
    let chunk = p.read_chunk(2, 2).unwrap();
    assert_eq!(chunk, vec![row(&[("a", "7"), ("b", "8"), ("c", "9")])]);
}

#[test]
fn read_chunk_past_end_is_empty_not_error() {
    let p = parser("a,b,c\n1,2,3\n4,5,6\n7,8,9\n", 2, Some(true));
    assert_eq!(p.read_chunk(3, 5).unwrap(), Vec::<Vec<(String, String)>>::new());
    assert_eq!(p.read_chunk(100, 5).unwrap(), Vec::<Vec<(String, String)>>::new());
}

#[test]
fn count_rows_with_headers_excludes_header_line() {
    let p = parser("a,b,c\n1,2,3\n4,5,6\n7,8,9\n", 2, Some(true));
    assert_eq!(p.count_rows().unwrap(), 3);
}

#[test]
fn count_rows_without_headers_counts_every_line() {
    let p = parser("a,b,c\n1,2,3\n4,5,6\n7,8,9\n", 2, Some(false));
    assert_eq!(p.count_rows().unwrap(), 4);
}

#[test]
fn empty_file_yields_nothing() {
    let p = parser("", 2, Some(true));
    assert_eq!(p.count_rows().unwrap(), 0);
    assert_eq!(p.read().unwrap().len(), 0);
    assert_eq!(p.read_chunk(0, 5).unwrap(), Vec::<Vec<(String, String)>>::new());
    assert_eq!(p.read_chunk(7, 5).unwrap(), Vec::<Vec<(String, String)>>::new());
    let info = p.get_file_info();
    assert_eq!(info.size_bytes, 0);
    assert_eq!(info.headers, Vec::<String>::new());
}

#[test]
fn header_only_file_yields_nothing() {
    let p = parser("a,b,c\n", 2, Some(true));
    assert_eq!(p.count_rows().unwrap(), 0);
    assert_eq!(p.read().unwrap().len(), 0);
    let info = p.get_file_info();
    assert_eq!(info.headers, vec!["a".to_string(), "b".to_string(), "c".to_string()]);
}

#[test]
fn read_all_fails_on_malformed_record() {
    let mut content = b"a,b\n1,2\n".to_vec();
    content.extend_from_slice(&[0xFF, 0xFE]);
    content.extend_from_slice(b",9\n3,4\n");
    let p = CSVParser::new("test.csv".to_string(), content, 2, Some(true));
    let err = p.read().unwrap_err();
    assert!(err.is_format());
    assert!(!err.is_io());
}

#[test]
fn count_rows_skips_malformed_records() {
    let mut content = b"a,b\n1,2\n".to_vec();
    content.extend_from_slice(&[0xFF, 0xFE]);
    content.extend_from_slice(b",9\n3,4\n");
    let p = CSVParser::new("test.csv".to_string(), content, 2, Some(true));
    assert_eq!(p.count_rows().unwrap(), 2);
}

#[test]
fn read_chunk_fails_on_mismatched_quote() {
    let p = parser("a,b,c\n1,2,3\n\"4,5,6\n7,8,9\n", 2, Some(true));
    let err = p.read_chunk(1, 2).unwrap_err();
    assert!(err.is_format());
}

#[test]
fn read_all_tolerates_mismatched_quote() {
    // The tolerant tokenization of a full read does not reject a record
    // whose opening quote never closes: the quote swallows the rest of the
    // input into one field, and the read succeeds with that record intact.
    let p = parser("a,b,c\n1,2,3\n\"4,5,6\n7,8,9\n", 10, Some(true));
    let batches = p.read().unwrap();
    assert_eq!(batches.len(), 1);
    assert_eq!(batches[0].len(), 2);
    assert_eq!(batches[0][0], row(&[("a", "1"), ("b", "2"), ("c", "3")]));
    assert_eq!(batches[0][1].len(), 1);
    assert_eq!(batches[0][1][0].0, "a".to_string());
}

#[test]
fn batch_totals_match_row_count() {
    let p = parser(&uniform_file(250, true), 100, Some(true));
    let batches = p.read().unwrap();
    let sizes: Vec<usize> = batches.iter().map(|b| b.len()).collect();
    assert_eq!(sizes, vec![100, 100, 50]);
    assert_eq!(sizes.iter().sum::<usize>(), p.count_rows().unwrap());
}

#[test]
fn read_all_short_and_long_records() {
    let p = parser("a,b\n1\n2,3,4\n", 10, Some(true));
    let batches = p.read().unwrap();
    assert_eq!(batches.len(), 1);
    assert_eq!(batches[0][0], row(&[("a", "1")]));
    assert_eq!(batches[0][1], row(&[("a", "2"), ("b", "3")]));
}

#[test]
fn unreadable_header_row_fails_reads_but_not_info() {
    let mut content = vec![0xFF, 0xFE];
    content.extend_from_slice(b"a,b\n1,2\n3,4\n");
    let p = CSVParser::new("test.csv".to_string(), content, 2, Some(true));
    assert!(p.read().unwrap_err().is_format());
    assert!(p.count_rows().unwrap_err().is_format());
    assert!(p.read_chunk(0, 1).unwrap_err().is_format());
    let info = p.get_file_info();
    assert_eq!(info.headers, Vec::<String>::new());
}

#[test]
fn operations_are_idempotent() {
    let p = parser("a,b,c\n1,2,3\n4,5,6\n7,8,9\n", 2, Some(true));
    assert_eq!(p.read().unwrap(), p.read().unwrap());
    assert_eq!(p.count_rows().unwrap(), p.count_rows().unwrap());
    assert_eq!(p.read_chunk(1, 2).unwrap(), p.read_chunk(1, 2).unwrap());
    let i1 = p.get_file_info();
    let i2 = p.get_file_info();
    assert_eq!(i1.filename, i2.filename);
    assert_eq!(i1.size_bytes, i2.size_bytes);
    assert_eq!(i1.headers, i2.headers);
}

#[test]
fn estimate_on_uniform_rows_is_exact() {
    let p = parser(&uniform_file(2000, false), 100, Some(false));
    assert_eq!(p.estimate_bytes_per_row().unwrap(), (1200, 100));
}

#[test]
fn estimate_with_header_spreads_header_bytes() {
    let p = parser(&uniform_file(2000, true), 100, Some(true));
    assert_eq!(p.estimate_bytes_per_row().unwrap(), (1212, 100));
}

#[test]
fn estimate_on_empty_input_is_default() {
    let p = parser("", 100, Some(false));
    assert_eq!(p.estimate_bytes_per_row().unwrap(), (100, 1));
}

#[test]
fn read_chunk_far_without_headers_seeks_near_start() {
    // 2000 uniform 12-byte rows, no header. The sampled estimate is exactly
    // 12 bytes/row, the undershot offset lands two rows early, and the
    // realignment consumes one partial row, so the chunk starts one row
    // before the requested one; field names come from the first row.
    let p = parser(&uniform_file(2000, false), 100, Some(false));
    let chunk = p.read_chunk(1500, 3).unwrap();
    assert_eq!(
        chunk,
        vec![
            row(&[("r0000", "r1499"), ("c0000", "c1499")]),
            row(&[("r0000", "r1500"), ("c0000", "c1500")]),
            row(&[("r0000", "r1501"), ("c0000", "c1501")]),
        ]
    );
}

#[test]
fn read_chunk_far_with_headers_drifts_by_header_share() {
    // 2000 uniform 12-byte rows under a 12-byte header. The sample spreads
    // the header's bytes over 100 rows, so the projected offset overshoots
    // by about one percent and the chunk starts 13 rows past the requested
    // one.
    let p = parser(&uniform_file(2000, true), 100, Some(true));
    let chunk = p.read_chunk(1500, 2).unwrap();
    assert_eq!(
        chunk,
        vec![
            row(&[("haaaa", "r1513"), ("hbbbb", "c1513")]),
            row(&[("haaaa", "r1514"), ("hbbbb", "c1514")]),
        ]
    );
}

#[test]
fn read_chunk_far_falls_back_when_estimate_overshoots() {
    // The first hundred rows are five times as long as the rest, so the
    // sampled estimate projects the start row past the end of the file and
    // the read falls back to the linear skip, which returns the exact rows.
    let mut s = String::new();
    for _ in 0..100 {
        s.push_str("aaaaaaaaa,bbbbbbbbb\n");
    }
    for _ in 0..1900 {
        s.push_str("a,b\n");
    }
    let p = parser(&s, 100, Some(false));
    assert_eq!(p.estimate_bytes_per_row().unwrap(), (2000, 100));
    let chunk = p.read_chunk(1200, 2).unwrap();
    assert_eq!(
        chunk,
        vec![
            row(&[("aaaaaaaaa", "a"), ("bbbbbbbbb", "b")]),
            row(&[("aaaaaaaaa", "a"), ("bbbbbbbbb", "b")]),
        ]
    );
}

#[test]
fn read_chunk_far_seek_is_idempotent() {
    let p = parser(&uniform_file(2000, true), 100, Some(true));
    assert_eq!(p.read_chunk(1500, 4).unwrap(), p.read_chunk(1500, 4).unwrap());
}

#[test]
fn get_file_info_reports_configuration() {
    let p = parser("a,b,c\n1,2,3\n", 7, Some(true));
    let info = p.get_file_info();
    assert_eq!(info.filename, "test.csv".to_string());
    assert_eq!(info.size_bytes, 12);
    assert_eq!(info.batch_size, 7);
    assert!(info.has_headers);
    assert_eq!(info.headers, vec!["a".to_string(), "b".to_string(), "c".to_string()]);
}

#[test]
fn get_file_info_without_headers_has_empty_header_list() {
    let p = parser("1,2,3\n", 7, Some(false));
    let info = p.get_file_info();
    assert!(!info.has_headers);
    assert_eq!(info.headers, Vec::<String>::new());
}

#[test]
fn strategy_threshold_is_100_mib() {
    assert_eq!(select_strategy(0), Strategy::Streaming);
    assert_eq!(select_strategy(1), Strategy::WholeFile);
    assert_eq!(select_strategy(WHOLE_FILE_LIMIT - 1), Strategy::WholeFile);
    assert_eq!(select_strategy(WHOLE_FILE_LIMIT), Strategy::Streaming);
    assert_eq!(select_strategy(WHOLE_FILE_LIMIT + 1), Strategy::Streaming);
}

#[test]
fn capacity_hints_match_the_heuristics() {
    assert_eq!(batch_capacity_hint(&Strategy::WholeFile, 1000, 10), 3);
    assert_eq!(batch_capacity_hint(&Strategy::Streaming, 5000, 2), 26);
    assert_eq!(batch_capacity_hint(&Strategy::Streaming, 50, 1), 2);
}

#[test]
fn error_kind_accessors() {
    let f = CsvError::Format("bad".to_string());
    let io = CsvError::Io("gone".to_string());
    assert!(f.is_format() && !f.is_io());
    assert!(io.is_io() && !io.is_format());
}
