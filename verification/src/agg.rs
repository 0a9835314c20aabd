//! The row filter and aggregation pipeline, and its mathematical model.
//! The model folds the records of the input, in order, over the table; the
//! executable pipelines are proved to compute exactly that fold however
//! the bytes were delivered and whichever tokenizer they use.

use vstd::prelude::*;

use crate::accum::{lemma_acc_step_wf, pd_wf, pd_zero, spec_acc_step, ProductData};
use crate::bytes::{
    bytes_eq, fields_of, find_first, first_occ, lemma_cost_lower, lemma_cost_min,
    lemma_first_occ_props, lemma_split_cost, lines_of, total_cost,
};
use crate::columns::{find_last, spec_header, ColIndices};
use crate::errors::{AggError, ColName};
use crate::names::{sentinel_toclnt, source_name, toclnt};
use crate::reader::LineReader;
use crate::table::{prod_view, wf_table, ProdMap, ProdView};
use crate::tokenize::{col_starts, get_col, split_fields, views_of};

verus! {

/// The highest column index a data row must cover.
pub open spec fn max_required(idx: ColIndices) -> int {
    let a = if idx.source >= idx.bs {
        idx.source as int
    } else {
        idx.bs as int
    };
    let b = if idx.ordqty >= idx.wrkqty {
        idx.ordqty as int
    } else {
        idx.wrkqty as int
    };
    let c = if idx.excqty >= idx.prod {
        idx.excqty as int
    } else {
        idx.prod as int
    };
    let ab = if a >= b {
        a
    } else {
        b
    };
    if ab >= c {
        ab
    } else {
        c
    }
}

fn max_required_exec(idx: &ColIndices) -> (r: usize)
    ensures
        r as int == max_required(*idx),
{
    let a = if idx.source >= idx.bs {
        idx.source
    } else {
        idx.bs
    };
    let b = if idx.ordqty >= idx.wrkqty {
        idx.ordqty
    } else {
        idx.wrkqty
    };
    let c = if idx.excqty >= idx.prod {
        idx.excqty
    } else {
        idx.prod
    };
    let ab = if a >= b {
        a
    } else {
        b
    };
    if ab >= c {
        ab
    } else {
        c
    }
}

/// One record against the table: an empty record is skipped; a row with
/// fewer fields than the highest required column is a structural error; a
/// row whose source field is not the sentinel is filtered out; a
/// qualifying row updates its product key's accumulator, creating it at
/// zero first.
pub open spec fn spec_row_step(m: ProdView, line: Seq<u8>, idx: ColIndices, rowno: int) -> Result<
    ProdView,
    AggError,
> {
    if line.len() == 0 {
        Ok(m)
    } else {
        let fs = fields_of(line);
        if fs.len() <= max_required(idx) {
            Err(AggError::MalformedRow(rowno as usize))
        } else if fs[idx.source as int] != toclnt() {
            Ok(m)
        } else {
            let key = fs[idx.prod as int];
            let prev = if m.dom().contains(key) {
                m[key]
            } else {
                pd_zero()
            };
            match spec_acc_step(
                prev,
                fs[idx.bs as int],
                fs[idx.ordqty as int],
                fs[idx.wrkqty as int],
                fs[idx.excqty as int],
            ) {
                Some(acc) => Ok(m.insert(key, acc)),
                None => Err(AggError::MalformedNumber(rowno as usize)),
            }
        }
    }
}

/// The table after the data records before index `i`, or the first
/// failure among them. Record 0 is the header and is not folded.
pub open spec fn agg_upto(lines: Seq<Seq<u8>>, idx: ColIndices, i: int) -> Result<
    ProdView,
    AggError,
>
    decreases i,
{
    if i <= 1 {
        Ok(ProdView::empty())
    } else {
        match agg_upto(lines, idx, i - 1) {
            Ok(m) => spec_row_step(m, lines[i - 1], idx, i - 1),
            Err(e) => Err(e),
        }
    }
}

/// The aggregate of a record list: resolve the header from record 0,
/// then fold every data record in order.
pub open spec fn spec_agg_lines(lines: Seq<Seq<u8>>) -> Result<ProdView, AggError> {
    match spec_header(fields_of(lines[0])) {
        Ok(idx) => agg_upto(lines, idx, lines.len() as int),
        Err(e) => Err(e),
    }
}

/// The aggregate of one whole input: its records are its lines.
pub open spec fn spec_agg(s: Seq<u8>) -> Result<ProdView, AggError> {
    spec_agg_lines(lines_of(s))
}

/// What an executable pipeline owes: the same success, the same table
/// contents, the same error as the model.
pub open spec fn matches_agg(r: Result<ProdMap, AggError>, a: Result<ProdView, AggError>) -> bool {
    match a {
        Ok(mm) => r matches Ok(t) && prod_view(t) == mm,
        Err(e) => r matches Err(e2) && e2 == e,
    }
}

/// A step from a valid table yields a valid table.
pub proof fn lemma_row_step_wf(m: ProdView, line: Seq<u8>, idx: ColIndices, rowno: int)
    requires
        wf_table(m),
        spec_row_step(m, line, idx, rowno) is Ok,
    ensures
        wf_table(spec_row_step(m, line, idx, rowno)->Ok_0),
{
    if line.len() != 0 {
        let fs = fields_of(line);
        if fs.len() > max_required(idx) && fs[idx.source as int] == toclnt() {
            let key = fs[idx.prod as int];
            let prev = if m.dom().contains(key) {
                m[key]
            } else {
                pd_zero()
            };
            assert(pd_wf(prev));
            lemma_acc_step_wf(
                prev,
                fs[idx.bs as int],
                fs[idx.ordqty as int],
                fs[idx.wrkqty as int],
                fs[idx.excqty as int],
            );
        }
    }
}

/// Every table the fold reaches is valid.
pub proof fn lemma_agg_upto_wf(lines: Seq<Seq<u8>>, idx: ColIndices, i: int)
    requires
        agg_upto(lines, idx, i) is Ok,
    ensures
        wf_table(agg_upto(lines, idx, i)->Ok_0),
    decreases i,
{
    if i > 1 {
        lemma_agg_upto_wf(lines, idx, i - 1);
        lemma_row_step_wf(agg_upto(lines, idx, i - 1)->Ok_0, lines[i - 1], idx, i - 1);
    }
}

/// A failure is final: the fold keeps the first error.
pub proof fn lemma_agg_upto_err(lines: Seq<Seq<u8>>, idx: ColIndices, i: int, j: int)
    requires
        i <= j,
        agg_upto(lines, idx, i) is Err,
    ensures
        agg_upto(lines, idx, j) == agg_upto(lines, idx, i),
    decreases j - i,
{
    if i < j {
        lemma_agg_upto_err(lines, idx, i, j - 1);
    }
}

/// Applies one record to the table with the materializing tokenizer.
fn step_line_fields(m: &mut ProdMap, line: &[u8], idx: &ColIndices, rowno: usize) -> (r: Result<
    (),
    AggError,
>)
    requires
        wf_table(prod_view(*old(m))),
    ensures
        match spec_row_step(prod_view(*old(m)), line@, *idx, rowno as int) {
            Ok(mm) => r is Ok && prod_view(*final(m)) == mm && wf_table(mm),
            Err(e) => r == Err::<(), AggError>(e),
        },
{
    let ghost m0 = prod_view(*m);
    if line.len() == 0 {
        return Ok(());
    }
    let cols = split_fields(line);
    let ghost fs = fields_of(line@);
    let mr = max_required_exec(idx);
    if cols.len() <= mr {
        return Err(AggError::MalformedRow(rowno));
    }
    let snt = sentinel_toclnt();
    if !bytes_eq(cols[idx.source].as_slice(), snt.as_slice()) {
        proof {
            assert(views_of(cols@)[idx.source as int] == fs[idx.source as int]);
        }
        return Ok(());
    }
    proof {
        assert(views_of(cols@)[idx.source as int] == fs[idx.source as int]);
        assert(views_of(cols@)[idx.prod as int] == fs[idx.prod as int]);
        assert(views_of(cols@)[idx.bs as int] == fs[idx.bs as int]);
        assert(views_of(cols@)[idx.ordqty as int] == fs[idx.ordqty as int]);
        assert(views_of(cols@)[idx.wrkqty as int] == fs[idx.wrkqty as int]);
        assert(views_of(cols@)[idx.excqty as int] == fs[idx.excqty as int]);
    }
    let mut acc = match m.get_copy(cols[idx.prod].as_slice()) {
        Some(v) => v,
        None => ProductData::default(),
    };
    if acc.process_row(&cols, idx) {
        m.insert(cols[idx.prod].as_slice(), acc);
        proof {
            lemma_row_step_wf(m0, line@, *idx, rowno as int);
        }
        Ok(())
    } else {
        Err(AggError::MalformedNumber(rowno))
    }
}

/// Applies one record to the table with the offset-based tokenizer.
fn step_line_offsets(m: &mut ProdMap, line: &[u8], idx: &ColIndices, rowno: usize) -> (r: Result<
    (),
    AggError,
>)
    requires
        wf_table(prod_view(*old(m))),
    ensures
        match spec_row_step(prod_view(*old(m)), line@, *idx, rowno as int) {
            Ok(mm) => r is Ok && prod_view(*final(m)) == mm && wf_table(mm),
            Err(e) => r == Err::<(), AggError>(e),
        },
{
    let ghost m0 = prod_view(*m);
    if line.len() == 0 {
        return Ok(());
    }
    let cols = col_starts(line);
    let mr = max_required_exec(idx);
    if cols.len() <= mr {
        return Err(AggError::MalformedRow(rowno));
    }
    let snt = sentinel_toclnt();
    if !bytes_eq(get_col(line, &cols, idx.source), snt.as_slice()) {
        return Ok(());
    }
    let key = get_col(line, &cols, idx.prod);
    let mut acc = match m.get_copy(key) {
        Some(v) => v,
        None => ProductData::default(),
    };
    let ok = acc.update(
        get_col(line, &cols, idx.bs),
        get_col(line, &cols, idx.ordqty),
        get_col(line, &cols, idx.wrkqty),
        get_col(line, &cols, idx.excqty),
    );
    if ok {
        m.insert(key, acc);
        proof {
            lemma_row_step_wf(m0, line@, *idx, rowno as int);
        }
        Ok(())
    } else {
        Err(AggError::MalformedNumber(rowno))
    }
}

/// Which field tokenizer a pipeline runs with; a performance axis that
/// does not change the result.
#[derive(Clone, Copy)]
enum Tokenizer {
    Fields,
    Offsets,
}

fn step_line(
    m: &mut ProdMap,
    line: &[u8],
    idx: &ColIndices,
    rowno: usize,
    tk: Tokenizer,
) -> (r: Result<(), AggError>)
    requires
        wf_table(prod_view(*old(m))),
    ensures
        match spec_row_step(prod_view(*old(m)), line@, *idx, rowno as int) {
            Ok(mm) => r is Ok && prod_view(*final(m)) == mm && wf_table(mm),
            Err(e) => r == Err::<(), AggError>(e),
        },
{
    match tk {
        Tokenizer::Fields => step_line_fields(m, line, idx, rowno),
        Tokenizer::Offsets => step_line_offsets(m, line, idx, rowno),
    }
}

/// The whole-buffer pipeline: header, then every record scanned in place.
fn aggregate_text(text: &[u8], tk: Tokenizer) -> (r: Result<ProdMap, AggError>)
    ensures
        matches_agg(r, spec_agg(text@)),
{
    let n = text.len();
    let ghost lines = lines_of(text@);
    proof {
        lemma_split_cost(text@, 10u8);
        lemma_cost_min(lines);
        assert(text@.skip(0) =~= text@);
    }
    let header: &[u8];
    let mut p: usize;
    let exhausted: bool;
    match find_first(10u8, text) {
        Some(j) => {
            header = vstd::slice::slice_subrange(text, 0, j);
            proof {
                assert(header@ =~= text@.take(j as int));
                assert(lines[0] == header@);
                assert(lines.skip(1) =~= lines_of(text@.skip(j + 1)));
            }
            p = j + 1;
            exhausted = false;
        },
        None => {
            header = text;
            proof {
                assert(lines =~= seq![text@]);
            }
            p = n;
            exhausted = true;
        },
    }
    let idx = match ColIndices::from_header(header) {
        Ok(t) => t.0,
        Err(e) => {
            return Err(e);
        },
    };
    let mut m = ProdMap::new();
    if exhausted {
        return Ok(m);
    }
    let mut i: usize = 1;
    loop
        invariant
            n == text@.len(),
            p <= n,
            lines == lines_of(text@),
            spec_header(fields_of(lines[0])) == Ok::<ColIndices, AggError>(idx),
            1 <= i < lines.len(),
            lines.len() <= n + 1,
            lines.skip(i as int) == lines_of(text@.skip(p as int)),
            agg_upto(lines, idx, i as int) == Ok::<ProdView, AggError>(prod_view(m)),
            wf_table(prod_view(m)),
        decreases n - p,
    {
        let rest = vstd::slice::slice_subrange(text, p, n);
        let ghost rem = text@.skip(p as int);
        proof {
            assert(rest@ =~= rem);
        }
        match find_first(10u8, rest) {
            Some(j) => {
                let line = vstd::slice::slice_subrange(text, p, p + j);
                proof {
                    assert(line@ =~= rem.take(j as int));
                    assert(rem.skip(j + 1) =~= text@.skip(p + j + 1));
                    assert(lines_of(rem) == seq![rem.take(j as int)] + lines_of(rem.skip(j + 1)));
                    assert(lines.skip(i as int)[0] == rem.take(j as int));
                    assert(lines[i as int] == lines.skip(i as int)[0]);
                    assert(lines[i as int] == line@);
                    let ghost tail = lines_of(rem.skip(j + 1));
                    assert(lines.skip(i + 1) =~= tail) by {
                        assert(lines.skip(i as int).len() == 1 + tail.len());
                        assert(lines.skip(i + 1).len() == tail.len());
                        assert forall|k: int| 0 <= k < tail.len() implies lines.skip(i + 1)[k]
                            == tail[k] by {
                            assert(lines.skip(i + 1)[k] == lines[i + 1 + k]);
                            assert(lines.skip(i as int)[k + 1] == lines[i + 1 + k]);
                            assert((seq![rem.take(j as int)] + tail)[k + 1] == tail[k]);
                        }
                    }
                    assert(lines.skip(i + 1) =~= lines_of(text@.skip(p + j + 1)));
                    crate::bytes::lemma_split_on_len(rem.skip(j + 1), 10u8);
                }
                match step_line(&mut m, line, &idx, i, tk) {
                    Ok(()) => {},
                    Err(e) => {
                        proof {
                            assert(agg_upto(lines, idx, i + 1) == Err::<ProdView, AggError>(e));
                            lemma_agg_upto_err(lines, idx, i + 1, lines.len() as int);
                        }
                        return Err(e);
                    },
                }
                proof {
                    assert(agg_upto(lines, idx, i + 1) == Ok::<ProdView, AggError>(prod_view(m)));
                }
                p = p + j + 1;
                i = i + 1;
            },
            None => {
                proof {
                    assert(lines_of(rem) == seq![rem]);
                    assert(lines.skip(i as int) =~= seq![rem]);
                    assert(i + 1 == lines.len());
                    assert(lines[i as int] == lines.skip(i as int)[0]);
                    assert(lines[i as int] == rem);
                }
                match step_line(&mut m, rest, &idx, i, tk) {
                    Ok(()) => {},
                    Err(e) => {
                        proof {
                            assert(agg_upto(lines, idx, i + 1) == Err::<ProdView, AggError>(e));
                        }
                        return Err(e);
                    },
                }
                proof {
                    assert(agg_upto(lines, idx, lines.len() as int) == Ok::<ProdView, AggError>(
                        prod_view(m),
                    ));
                }
                return Ok(m);
            },
        }
    }
}

/// The chunk-fed pipeline: a line reader reassembles records across chunk
/// boundaries, so the result depends only on the chunks' concatenation.
fn aggregate_chunks(chunks: Vec<Vec<u8>>, tk: Tokenizer) -> (r: Result<ProdMap, AggError>)
    requires
        views_of(chunks@).flatten().len() <= usize::MAX,
    ensures
        matches_agg(r, spec_agg(views_of(chunks@).flatten())),
{
    let ghost full = views_of(chunks@).flatten();
    let ghost lines = lines_of(full);
    proof {
        lemma_split_cost(full, 10u8);
        lemma_cost_min(lines);
    }
    let mut reader = LineReader::new(chunks);
    let header = match reader.next_line() {
        Some(l) => l,
        None => {
            proof {
                assert(full.len() == 0);
                assert(lines == seq![full]);
                assert(fields_of(lines[0]) == seq![lines[0]]);
                assert(lines[0] != source_name()) by {
                    assert(lines[0].len() != source_name().len());
                }
                assert(seq![lines[0]].drop_last() =~= Seq::<Seq<u8>>::empty());
                assert(seq![lines[0]].last() == lines[0]);
                assert(find_last(Seq::<Seq<u8>>::empty(), source_name()) is None);
                assert(find_last(fields_of(lines[0]), source_name()) is None);
            }
            return Err(AggError::MissingColumn(ColName::Source));
        },
    };
    let ghost j0 = first_occ(full, 10u8);
    proof {
        lemma_first_occ_props(full, 10u8);
        if j0 < full.len() {
            let tail = lines_of(full.skip(j0 + 1));
            assert(lines == seq![full.take(j0)] + tail);
            assert(lines[0] == full.take(j0));
            assert(reader.remaining() == full.skip(j0 + 1));
            assert(lines.skip(1) =~= tail) by {
                assert forall|k: int| 0 <= k < tail.len() implies lines.skip(1)[k] == tail[k] by {
                    assert(lines.skip(1)[k] == lines[1 + k]);
                    assert((seq![full.take(j0)] + tail)[1 + k] == tail[k]);
                }
            }
            if full.skip(j0 + 1).len() == 0 {
                assert(tail == seq![full.skip(j0 + 1)]);
                assert(lines.len() == 2);
                assert(lines[1] == lines.skip(1)[0]);
                assert(lines[1].len() == 0);
            }
        } else {
            assert(lines == seq![full]);
            assert(full.take(j0) =~= full);
            assert(reader.remaining() == Seq::<u8>::empty());
        }
        assert(header@ == lines[0]);
    }
    let idx = match ColIndices::from_header(header.as_slice()) {
        Ok(t) => t.0,
        Err(e) => {
            return Err(e);
        },
    };
    let mut m = ProdMap::new();
    let mut i: usize = 1;
    loop
        invariant
            full == views_of(chunks@).flatten(),
            full.len() <= usize::MAX,
            lines == lines_of(full),
            total_cost(lines) == full.len() + 1,
            reader.wf(),
            spec_header(fields_of(lines[0])) == Ok::<ColIndices, AggError>(idx),
            1 <= i as int <= lines.len(),
            lines.len() <= full.len() + 1,
            reader.remaining().len() > 0 ==> lines_of(reader.remaining()) == lines.skip(i as int),
            reader.remaining().len() == 0 ==> (i as int == lines.len() || (i as int + 1
                == lines.len() && lines[i as int].len() == 0)),
            agg_upto(lines, idx, i as int) == Ok::<ProdView, AggError>(prod_view(m)),
            wf_table(prod_view(m)),
        decreases lines.len() - i,
    {
        let ghost rem = reader.remaining();
        match reader.next_line() {
            None => {
                proof {
                    if i as int != lines.len() {
                        assert(agg_upto(lines, idx, lines.len() as int) == Ok::<
                            ProdView,
                            AggError,
                        >(prod_view(m)));
                    }
                }
                return Ok(m);
            },
            Some(line) => {
                let ghost j = first_occ(rem, 10u8);
                let ghost tail = lines_of(rem.skip(j + 1));
                proof {
                    lemma_first_occ_props(rem, 10u8);
                    if j < rem.len() {
                        assert(lines_of(rem) == seq![rem.take(j)] + tail);
                        assert(lines.skip(i as int)[0] == rem.take(j));
                        assert(lines[i as int] == lines.skip(i as int)[0]);
                        assert(lines.skip(i as int + 1) =~= tail) by {
                            assert(lines.skip(i as int).len() == 1 + tail.len());
                            assert forall|k: int| 0 <= k < tail.len() implies lines.skip(
                                i as int + 1,
                            )[k] == tail[k] by {
                                assert(lines.skip(i as int + 1)[k] == lines[i as int + 1 + k]);
                                assert(lines.skip(i as int)[k + 1] == lines[i as int + 1 + k]);
                                assert((seq![rem.take(j)] + tail)[k + 1] == tail[k]);
                            }
                        }
                    } else {
                        assert(lines_of(rem) == seq![rem]);
                        assert(lines.skip(i as int)[0] == rem);
                        assert(lines[i as int] == lines.skip(i as int)[0]);
                        assert(rem.take(j) =~= rem);
                        assert(i as int + 1 == lines.len());
                    }
                    assert(line@ == lines[i as int]);
                }
                match step_line(&mut m, line.as_slice(), &idx, i, tk) {
                    Ok(()) => {},
                    Err(e) => {
                        proof {
                            assert(agg_upto(lines, idx, i as int + 1) == Err::<ProdView, AggError>(
                                e,
                            ));
                            lemma_agg_upto_err(lines, idx, i as int + 1, lines.len() as int);
                        }
                        return Err(e);
                    },
                }
                proof {
                    assert(agg_upto(lines, idx, i as int + 1) == Ok::<ProdView, AggError>(
                        prod_view(m),
                    ));
                    assert(i < usize::MAX) by {
                        if i == usize::MAX {
                            if j < rem.len() {
                                assert(lines.skip(i as int).len() == 1 + tail.len());
                                assert(lines.len() >= i as int + 1 + tail.len());
                                lemma_cost_min(lines);
                            } else {
                                lemma_cost_lower(lines, i as int);
                            }
                            assert(false);
                        }
                    }
                    if j < rem.len() {
                        let rem2 = rem.skip(j + 1);
                        if rem2.len() == 0 {
                            assert(tail == seq![rem2]);
                            assert(lines.skip(i as int + 1).len() == 1);
                            assert(i as int + 2 == lines.len());
                            assert(lines[i as int + 1] == lines.skip(i as int + 1)[0]);
                            assert(lines[i as int + 1].len() == 0);
                        }
                    }
                }
                i = i + 1;
            },
        }
    }
}

/// Aggregates a chunk-delivered byte source through the line reader; the
/// aggregates are those of the chunks' concatenation, however the chunk
/// boundaries fall.
pub fn calc_custom_read(chunks: Vec<Vec<u8>>) -> (r: Result<ProdMap, AggError>)
    requires
        views_of(chunks@).flatten().len() <= usize::MAX,
    ensures
        matches_agg(r, spec_agg(views_of(chunks@).flatten())),
{
    aggregate_chunks(chunks, Tokenizer::Fields)
}

/// Aggregates a chunk-delivered byte source with the offset-based
/// tokenizer; result-identical to `calc_custom_read`.
pub fn calc_read_memchr(chunks: Vec<Vec<u8>>) -> (r: Result<ProdMap, AggError>)
    requires
        views_of(chunks@).flatten().len() <= usize::MAX,
    ensures
        matches_agg(r, spec_agg(views_of(chunks@).flatten())),
{
    aggregate_chunks(chunks, Tokenizer::Offsets)
}

/// Aggregates a whole in-memory buffer, reading each record as a view
/// into it. Borrowed and owned key storage are one strategy here: the
/// table always owns its keys, the safe fallback that a borrowed key
/// needs anyway whenever the backing buffer is reused.
pub fn calc_key_ref(text: &[u8]) -> (r: Result<ProdMap, AggError>)
    ensures
        matches_agg(r, spec_agg(text@)),
{
    aggregate_text(text, Tokenizer::Fields)
}

/// Aggregates a whole in-memory buffer with the offset-based tokenizer,
/// copying each key into the table; result-identical to `calc_key_ref`.
pub fn calc_key_clone(text: &[u8]) -> (r: Result<ProdMap, AggError>)
    ensures
        matches_agg(r, spec_agg(text@)),
{
    aggregate_text(text, Tokenizer::Offsets)
}

} // verus!
