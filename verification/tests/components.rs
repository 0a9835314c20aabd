use prodagg::columns::ColIndices;
use prodagg::errors::{AggError, ColName};
use prodagg::parse::parse_qty;
use prodagg::reader::LineReader;
use prodagg::tokenize::{col_starts, get_col, split_fields};

#[test]
fn parse_qty_accepts_digits_only() {
    assert_eq!(parse_qty(b"0"), Some(0));
    assert_eq!(parse_qty(b"007"), Some(7));
    assert_eq!(parse_qty(b"4294967295"), Some(4294967295));
    assert_eq!(parse_qty(b"18446744073709551615"), Some(u64::MAX));
    assert_eq!(parse_qty(b""), None);
    assert_eq!(parse_qty(b"-1"), None);
    assert_eq!(parse_qty(b"1 2"), None);
    assert_eq!(parse_qty(b"12x"), None);
    assert_eq!(parse_qty(b"18446744073709551616"), None);
    assert_eq!(parse_qty(b"99999999999999999999999"), None);
}

#[test]
fn tokenizers_agree_on_fields() {
    let line: &[u8] = b"ToClnt,Buy,10,,8,AAA";
    let fields = split_fields(line);
    assert_eq!(fields.len(), 6);
    assert_eq!(fields[0], b"ToClnt".to_vec());
    assert_eq!(fields[3], Vec::<u8>::new());
    assert_eq!(fields[5], b"AAA".to_vec());
    let starts = col_starts(line);
    assert_eq!(starts.len(), fields.len());
    for (k, f) in fields.iter().enumerate() {
        assert_eq!(get_col(line, &starts, k), f.as_slice());
    }
}

#[test]
fn tokenizing_keeps_embedded_whitespace() {
    let line: &[u8] = b" a b ,c\t";
    let fields = split_fields(line);
    assert_eq!(fields[0], b" a b ".to_vec());
    assert_eq!(fields[1], b"c\t".to_vec());
}

#[test]
fn reader_joins_lines_across_chunks() {
    let chunks = vec![b"ab".to_vec(), b"c".to_vec(), b"\nde".to_vec(), b"f\ngh".to_vec()];
    let mut reader = LineReader::new(chunks);
    assert_eq!(reader.next_line(), Some(b"abc".to_vec()));
    assert_eq!(reader.next_line(), Some(b"def".to_vec()));
    assert_eq!(reader.next_line(), Some(b"gh".to_vec()));
    assert_eq!(reader.next_line(), None);
}

#[test]
fn reader_ends_cleanly_after_final_newline() {
    let mut reader = LineReader::new(vec![b"one\ntwo\n".to_vec()]);
    assert_eq!(reader.next_line(), Some(b"one".to_vec()));
    assert_eq!(reader.next_line(), Some(b"two".to_vec()));
    assert_eq!(reader.next_line(), None);
    let mut empty = LineReader::new(Vec::new());
    assert_eq!(empty.next_line(), None);
}

#[test]
fn reader_keeps_empty_interior_lines() {
    let mut reader = LineReader::new(vec![b"a\n\nb".to_vec()]);
    assert_eq!(reader.next_line(), Some(b"a".to_vec()));
    assert_eq!(reader.next_line(), Some(Vec::new()));
    assert_eq!(reader.next_line(), Some(b"b".to_vec()));
    assert_eq!(reader.next_line(), None);
}

#[test]
fn header_resolution_by_name() {
    let (idx, n) = ColIndices::from_header(b"Prod,B/S,Source,OrdQty,WrkQty,ExcQty")
        .expect("all columns present");
    assert_eq!(n, 6);
    assert_eq!(idx.prod, 0);
    assert_eq!(idx.bs, 1);
    assert_eq!(idx.source, 2);
    assert_eq!(idx.ordqty, 3);
    assert_eq!(idx.wrkqty, 4);
    assert_eq!(idx.excqty, 5);
}

#[test]
fn header_last_duplicate_wins() {
    let (idx, n) = ColIndices::from_header(b"Source,Source,B/S,OrdQty,WrkQty,ExcQty,Prod")
        .expect("all columns present");
    assert_eq!(n, 7);
    assert_eq!(idx.source, 1);
}

#[test]
fn header_missing_direction() {
    let r = ColIndices::from_header(b"Source,OrdQty,WrkQty,ExcQty,Prod");
    assert_eq!(r.err(), Some(AggError::MissingColumn(ColName::Direction)));
}
