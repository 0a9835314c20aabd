use prodagg::accum::ProductData;
use prodagg::agg::{calc_custom_read, calc_key_clone, calc_key_ref, calc_read_memchr};
use prodagg::errors::{AggError, ColName};

fn pairs_of(r: Result<prodagg::table::ProdMap, AggError>) -> Vec<(Vec<u8>, ProductData)> {
    let mut pairs = r.expect("aggregation should succeed").to_pairs();
    pairs.sort_by(|a, b| a.0.cmp(&b.0));
    pairs
}

fn find<'a>(pairs: &'a [(Vec<u8>, ProductData)], key: &[u8]) -> &'a ProductData {
    &pairs.iter().find(|(k, _)| k == key).expect("key should be present").1
}

#[test]
fn two_rows_one_product() {
    let text = b"Source,B/S,OrdQty,WrkQty,ExcQty,Prod\nToClnt,Buy,10,5,8,AAA\nToClnt,Sell,3,3,9,AAA\nOther,Buy,100,1,1,AAA\n";
    let pairs = pairs_of(calc_key_ref(text));
    assert_eq!(pairs.len(), 1);
    let d = find(&pairs, b"AAA");
    assert_eq!(d.count, 2);
    assert_eq!(d.buys, 1);
    assert_eq!(d.sells, 1);
    assert_eq!(d.total_qty, 19);
    let line = d.fmt(b"AAA");
    assert_eq!(line, b"AAA 2 buy=1 sell=1 avg qty=9.50".to_vec());
}

#[test]
fn hold_direction_counts_row_only() {
    let text = b"Source,B/S,OrdQty,WrkQty,ExcQty,Prod\nToClnt,Hold,4,7,2,BBB\n";
    let pairs = pairs_of(calc_key_ref(text));
    let d = find(&pairs, b"BBB");
    assert_eq!(d.count, 1);
    assert_eq!(d.buys, 0);
    assert_eq!(d.sells, 0);
    assert_eq!(d.total_qty, 7);
}

#[test]
fn short_row_is_malformed() {
    let text = b"Source,B/S,OrdQty,WrkQty,ExcQty,Prod\nToClnt,Buy,10,5,8,AAA\nToClnt,Buy,10\nToClnt,Sell,1,1,1,CCC\n";
    assert_eq!(calc_key_ref(text).err(), Some(AggError::MalformedRow(2)));
}

#[test]
fn missing_column_is_named() {
    let text = b"Source,B/S,OrdQty,WrkQty,ExcQty\nToClnt,Buy,1,2,3\n";
    assert_eq!(calc_key_ref(text).err(), Some(AggError::MissingColumn(ColName::ProductId)));
    let empty: &[u8] = b"";
    assert_eq!(calc_key_ref(empty).err(), Some(AggError::MissingColumn(ColName::Source)));
}

#[test]
fn non_digit_quantity_is_malformed() {
    let text = b"Source,B/S,OrdQty,WrkQty,ExcQty,Prod\nToClnt,Buy,1x,5,8,AAA\n";
    assert_eq!(calc_key_ref(text).err(), Some(AggError::MalformedNumber(1)));
}

#[test]
fn empty_quantity_is_malformed() {
    let text = b"Source,B/S,OrdQty,WrkQty,ExcQty,Prod\nToClnt,Buy,10,,8,AAA\n";
    assert_eq!(calc_key_ref(text).err(), Some(AggError::MalformedNumber(1)));
}

#[test]
fn quantity_at_width_limit() {
    let text =
        b"Source,B/S,OrdQty,WrkQty,ExcQty,Prod\nToClnt,Buy,18446744073709551615,0,0,AAA\n";
    let pairs = pairs_of(calc_key_ref(text));
    assert_eq!(find(&pairs, b"AAA").total_qty, u64::MAX);
}

#[test]
fn quantity_past_width_is_malformed() {
    let text =
        b"Source,B/S,OrdQty,WrkQty,ExcQty,Prod\nToClnt,Buy,18446744073709551616,0,0,AAA\n";
    assert_eq!(calc_key_ref(text).err(), Some(AggError::MalformedNumber(1)));
}

#[test]
fn total_past_width_is_malformed() {
    let text = b"Source,B/S,OrdQty,WrkQty,ExcQty,Prod\nToClnt,Buy,18446744073709551615,0,0,AAA\nToClnt,Buy,1,0,0,AAA\n";
    assert_eq!(calc_key_ref(text).err(), Some(AggError::MalformedNumber(2)));
}

#[test]
fn filtered_rows_touch_nothing() {
    let text = b"Source,B/S,OrdQty,WrkQty,ExcQty,Prod\nElsewhere,Buy,10,5,8,AAA\nToClnt,Buy,1,1,1,BBB\n";
    let pairs = pairs_of(calc_key_ref(text));
    assert_eq!(pairs.len(), 1);
    assert_eq!(pairs[0].0, b"BBB".to_vec());
}

#[test]
fn header_order_is_irrelevant() {
    let canonical = b"Source,B/S,OrdQty,WrkQty,ExcQty,Prod\nToClnt,Buy,10,5,8,AAA\nToClnt,Sell,3,3,9,AAA\n";
    let permuted =
        b"Prod,ExcQty,WrkQty,OrdQty,B/S,Source\nAAA,8,5,10,Buy,ToClnt\nAAA,9,3,3,Sell,ToClnt\n";
    assert_eq!(pairs_of(calc_key_ref(canonical)), pairs_of(calc_key_ref(permuted)));
}

#[test]
fn unknown_header_columns_are_ignored() {
    let text = b"When,Source,B/S,OrdQty,WrkQty,ExcQty,Prod,Note\n1,ToClnt,Buy,2,3,4,AAA,x\n";
    let pairs = pairs_of(calc_key_ref(text));
    let d = find(&pairs, b"AAA");
    assert_eq!((d.count, d.buys, d.total_qty), (1, 1, 4));
}

#[test]
fn trailing_record_without_newline() {
    let with_nl = b"Source,B/S,OrdQty,WrkQty,ExcQty,Prod\nToClnt,Buy,10,5,8,AAA\n";
    let without = b"Source,B/S,OrdQty,WrkQty,ExcQty,Prod\nToClnt,Buy,10,5,8,AAA";
    assert_eq!(pairs_of(calc_key_ref(with_nl)), pairs_of(calc_key_ref(without)));
    assert_eq!(find(&pairs_of(calc_key_ref(without)), b"AAA").count, 1);
}

#[test]
fn empty_lines_are_skipped() {
    let plain = b"Source,B/S,OrdQty,WrkQty,ExcQty,Prod\nToClnt,Buy,10,5,8,AAA\nToClnt,Sell,1,1,1,AAA\n";
    let gappy = b"Source,B/S,OrdQty,WrkQty,ExcQty,Prod\n\nToClnt,Buy,10,5,8,AAA\n\n\nToClnt,Sell,1,1,1,AAA\n\n";
    assert_eq!(pairs_of(calc_key_ref(plain)), pairs_of(calc_key_ref(gappy)));
}

#[test]
fn chunking_never_changes_the_result() {
    let text: &[u8] = b"Source,B/S,OrdQty,WrkQty,ExcQty,Prod\nToClnt,Buy,10,5,8,AAA\nToClnt,Sell,3,3,9,AAA\nToClnt,Hold,7,7,7,BBB\n";
    let whole = pairs_of(calc_key_ref(text));
    let one_chunk = pairs_of(calc_custom_read(vec![text.to_vec()]));
    let tiny_chunks: Vec<Vec<u8>> = text.iter().map(|b| vec![*b]).collect();
    let trickled = pairs_of(calc_custom_read(tiny_chunks.clone()));
    let trickled_offsets = pairs_of(calc_read_memchr(tiny_chunks));
    let mid_line = pairs_of(calc_custom_read(vec![
        text[..41].to_vec(),
        text[41..47].to_vec(),
        text[47..].to_vec(),
    ]));
    assert_eq!(whole, one_chunk);
    assert_eq!(whole, trickled);
    assert_eq!(whole, trickled_offsets);
    assert_eq!(whole, mid_line);
}

#[test]
fn key_strategies_agree() {
    let text = b"Source,B/S,OrdQty,WrkQty,ExcQty,Prod\nToClnt,Buy,10,5,8,AAA\nToClnt,Sell,3,3,9,CCC\n";
    assert_eq!(pairs_of(calc_key_ref(text)), pairs_of(calc_key_clone(text)));
}

#[test]
fn directional_counts_never_exceed_count() {
    let text = b"Source,B/S,OrdQty,WrkQty,ExcQty,Prod\nToClnt,Buy,1,1,1,AAA\nToClnt,Hold,1,1,1,AAA\nToClnt,Sell,1,1,1,AAA\nToClnt,?,1,1,1,AAA\n";
    let pairs = pairs_of(calc_key_ref(text));
    for (_, d) in &pairs {
        assert!(d.buys + d.sells <= d.count);
        assert!(d.count >= 1);
    }
    let d = find(&pairs, b"AAA");
    assert_eq!((d.count, d.buys, d.sells), (4, 1, 1));
}

#[test]
fn report_line_rounding() {
    let mut text = b"Source,B/S,OrdQty,WrkQty,ExcQty,Prod".to_vec();
    text.extend_from_slice(b"\nToClnt,Buy,0,0,1,AAA\nToClnt,Buy,0,0,0,AAA\nToClnt,Buy,0,0,0,AAA\n");
    let pairs = pairs_of(calc_key_ref(&text));
    let d = find(&pairs, b"AAA");
    assert_eq!(d.fmt(b"AAA"), b"AAA 3 buy=3 sell=0 avg qty=0.33".to_vec());
    let whole = ProductData { count: 2, buys: 0, sells: 0, total_qty: 200 };
    assert_eq!(whole.fmt(b"K"), b"K 2 buy=0 sell=0 avg qty=100.00".to_vec());
    let half = ProductData { count: 8, buys: 0, sells: 0, total_qty: 1 };
    assert_eq!(half.fmt(b"K"), b"K 8 buy=0 sell=0 avg qty=0.13".to_vec());
}

#[test]
fn average_matches_float_division() {
    for (t, c) in [(19u64, 2u64), (1, 3), (200, 2), (7, 4), (22, 7)] {
        let d = ProductData { count: c, buys: 0, sells: 0, total_qty: t };
        let shown = String::from_utf8(d.fmt(b"K")).unwrap();
        let expect = format!("{:.2}", t as f64 / c as f64);
        assert!(shown.ends_with(&format!("avg qty={}", expect)), "{} vs {}", shown, expect);
    }
}
