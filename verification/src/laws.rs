//! The laws the pipeline obeys, stated over the model and proved once for
//! every input: the accumulator invariants, the indifference of the fold
//! to a trailing newline, and the indifference to inserted empty records.

use vstd::prelude::*;

use crate::agg::{agg_upto, max_required, spec_agg, spec_agg_lines, spec_row_step};
use crate::bytes::{
    fields_of, first_occ, lemma_first_occ_exact, lemma_first_occ_props, lemma_split_on_len,
    lines_of,
};
use crate::columns::{find_last, lemma_find_last_props, spec_header, ColIndices};
use crate::errors::AggError;
use crate::names::{
    bs_name, excqty_name, ordqty_name, prod_name, source_name, wrkqty_name,
};
use crate::table::ProdView;

verus! {

/// Law: for every aggregated entity, the directional counts never exceed
/// the record count, and the record count is at least one, because an
/// accumulator is only created together with its first increment.
pub proof fn lemma_accumulator_invariants(s: Seq<u8>)
    ensures
        spec_agg(s) matches Ok(m) ==> forall|k: Seq<u8>|
            #[trigger] m.dom().contains(k) ==> m[k].buys + m[k].sells <= m[k].count && m[k].count
                >= 1,
{
    if spec_agg(s) is Ok {
        let lines = lines_of(s);
        let idx = spec_header(fields_of(lines[0]))->Ok_0;
        crate::agg::lemma_agg_upto_wf(lines, idx, lines.len() as int);
    }
}

/// The fold reads only the data records before `i`.
pub proof fn lemma_agg_upto_congruence(a: Seq<Seq<u8>>, b: Seq<Seq<u8>>, idx: ColIndices, i: int)
    requires
        forall|j: int| 1 <= j < i ==> a[j] == b[j],
    ensures
        agg_upto(a, idx, i) == agg_upto(b, idx, i),
    decreases i,
{
    if i > 1 {
        lemma_agg_upto_congruence(a, b, idx, i - 1);
    }
}

/// Appending the delimiter does not move the first occurrence.
proof fn lemma_first_occ_push(s: Seq<u8>, d: u8)
    ensures
        first_occ(s.push(d), d) == first_occ(s, d),
{
    lemma_first_occ_props(s, d);
    let s2 = s.push(d);
    if first_occ(s, d) < s.len() {
        lemma_first_occ_exact(s2, d, first_occ(s, d));
    } else {
        lemma_first_occ_exact(s2, d, s.len() as int);
    }
}

/// A final newline closes the last record and opens one empty record.
pub proof fn lemma_lines_push_newline(s: Seq<u8>)
    ensures
        lines_of(s.push(10u8)) == lines_of(s).push(Seq::<u8>::empty()),
    decreases s.len(),
{
    let s2 = s.push(10u8);
    lemma_first_occ_push(s, 10u8);
    lemma_first_occ_props(s, 10u8);
    let i = first_occ(s, 10u8);
    if i < s.len() {
        assert(s2.skip(i + 1) =~= s.skip(i + 1).push(10u8));
        lemma_lines_push_newline(s.skip(i + 1));
        assert(s2.take(i) =~= s.take(i));
        assert(lines_of(s2) == seq![s.take(i)] + lines_of(s.skip(i + 1)).push(
            Seq::<u8>::empty(),
        ));
        assert(seq![s.take(i)] + lines_of(s.skip(i + 1)).push(Seq::<u8>::empty()) =~= (
        seq![s.take(i)] + lines_of(s.skip(i + 1))).push(Seq::<u8>::empty()));
    } else {
        assert(s2.take(s.len() as int) =~= s);
        assert(s2.skip(s.len() as int + 1) =~= Seq::<u8>::empty());
        assert(lines_of(Seq::<u8>::empty()) == seq![Seq::<u8>::empty()]);
        assert(lines_of(s2) == seq![s] + seq![Seq::<u8>::empty()]);
        assert(lines_of(s) == seq![s]);
        assert(seq![s] + seq![Seq::<u8>::empty()] =~= seq![s].push(Seq::<u8>::empty()));
    }
}

/// Law: trailing data without a final newline is still one record — the
/// newline would only add an empty record, which the fold skips.
pub proof fn lemma_trailing_newline(s: Seq<u8>)
    ensures
        spec_agg(s.push(10u8)) == spec_agg(s),
{
    lemma_lines_push_newline(s);
    let lines = lines_of(s);
    let lines2 = lines.push(Seq::<u8>::empty());
    lemma_split_on_len(s, 10u8);
    assert(lines2[0] == lines[0]);
    match spec_header(fields_of(lines[0])) {
        Ok(idx) => {
            lemma_agg_upto_congruence(lines2, lines, idx, lines.len() as int);
            assert(lines2[lines.len() as int].len() == 0);
            assert(agg_upto(lines2, idx, lines2.len() as int) == agg_upto(
                lines,
                idx,
                lines.len() as int,
            ));
        },
        Err(_) => {},
    }
}

/// A record's row number shows only in which error is reported, never in
/// whether a step succeeds or in the table it yields.
proof fn lemma_row_step_rowno(m: ProdView, line: Seq<u8>, idx: ColIndices, r1: int, r2: int)
    ensures
        spec_row_step(m, line, idx, r1) is Ok <==> spec_row_step(m, line, idx, r2) is Ok,
        spec_row_step(m, line, idx, r1) is Ok ==> spec_row_step(m, line, idx, r1)
            == spec_row_step(m, line, idx, r2),
{
}

/// The fold over the records with one empty record inserted at `pos`,
/// against the fold without it: same success, same table.
proof fn lemma_insert_empty_fold(lines: Seq<Seq<u8>>, idx: ColIndices, pos: int, i: int)
    requires
        1 <= pos <= i <= lines.len(),
    ensures
        agg_upto(lines.insert(pos, Seq::<u8>::empty()), idx, i + 1) is Ok <==> agg_upto(
            lines,
            idx,
            i,
        ) is Ok,
        agg_upto(lines, idx, i) is Ok ==> agg_upto(
            lines.insert(pos, Seq::<u8>::empty()),
            idx,
            i + 1,
        ) == agg_upto(lines, idx, i),
    decreases i - pos,
{
    let lines2 = lines.insert(pos, Seq::<u8>::empty());
    assert(forall|j: int| 0 <= j < pos ==> lines2[j] == lines[j]);
    assert(forall|j: int| pos <= j < lines.len() ==> lines2[j + 1] == lines[j]);
    if i == pos {
        lemma_agg_upto_congruence(lines2, lines, idx, pos);
        assert(lines2[pos].len() == 0);
        assert(agg_upto(lines2, idx, pos + 1) == agg_upto(lines2, idx, pos));
    } else {
        lemma_insert_empty_fold(lines, idx, pos, i - 1);
        assert(lines2[i] == lines[i - 1]);
        if agg_upto(lines, idx, i - 1) is Ok {
            let m = agg_upto(lines, idx, i - 1)->Ok_0;
            lemma_row_step_rowno(m, lines[i - 1], idx, i, i - 1);
        }
    }
}

/// Law: an empty record inserted anywhere in the data region is skipped
/// and changes no accumulator. A later failure keeps its kind; only its
/// reported row number shifts with the insertion.
pub proof fn lemma_empty_line_skipped(lines: Seq<Seq<u8>>, pos: int)
    requires
        1 <= pos <= lines.len(),
    ensures
        spec_agg_lines(lines.insert(pos, Seq::<u8>::empty())) is Ok <==> spec_agg_lines(
            lines,
        ) is Ok,
        spec_agg_lines(lines) is Ok ==> spec_agg_lines(lines.insert(pos, Seq::<u8>::empty()))
            == spec_agg_lines(lines),
{
    let lines2 = lines.insert(pos, Seq::<u8>::empty());
    assert(lines2[0] == lines[0]);
    match spec_header(fields_of(lines[0])) {
        Ok(idx) => {
            lemma_insert_empty_fold(lines, idx, pos, lines.len() as int);
            assert(lines2.len() == lines.len() + 1);
        },
        Err(_) => {},
    }
}

/// `f` maps every position below `n` into the same range.
pub open spec fn maps_range(f: Seq<int>, n: int) -> bool {
    f.len() == n && forall|j: int| 0 <= j < n ==> 0 <= #[trigger] f[j] < n
}

/// `perm` and `inv` are mutually inverse permutations of `0..n`.
pub open spec fn inverts(perm: Seq<int>, inv: Seq<int>, n: int) -> bool {
    &&& maps_range(perm, n)
    &&& maps_range(inv, n)
    &&& forall|j: int| 0 <= j < n ==> #[trigger] perm[inv[j]] == j
    &&& forall|j: int| 0 <= j < n ==> #[trigger] inv[perm[j]] == j
}

/// `f2` holds the fields of `f1` rearranged by `perm`: the field at new
/// position `j` came from old position `perm[j]`.
pub open spec fn permuted_fields(f1: Seq<Seq<u8>>, f2: Seq<Seq<u8>>, perm: Seq<int>) -> bool {
    &&& f1.len() == perm.len()
    &&& f2.len() == perm.len()
    &&& forall|j: int| 0 <= j < perm.len() ==> #[trigger] f2[j] == f1[perm[j]]
}

/// `name` occurs at most once among the fields.
pub open spec fn at_most_once(fs: Seq<Seq<u8>>, name: Seq<u8>) -> bool {
    forall|j: int, k: int|
        0 <= j < k < fs.len() ==> !(#[trigger] fs[j] == name && #[trigger] fs[k] == name)
}

/// The required indices of a resolved header, each moved to its new
/// position under the permutation's inverse.
pub open spec fn permuted_indices(idx: ColIndices, inv: Seq<int>) -> ColIndices {
    ColIndices {
        source: inv[idx.source as int] as usize,
        bs: inv[idx.bs as int] as usize,
        ordqty: inv[idx.ordqty as int] as usize,
        wrkqty: inv[idx.wrkqty as int] as usize,
        excqty: inv[idx.excqty as int] as usize,
        prod: inv[idx.prod as int] as usize,
    }
}

/// A name that occurs at most once is found exactly where it stands.
proof fn lemma_find_last_unique(fs: Seq<Seq<u8>>, name: Seq<u8>, i: int)
    requires
        at_most_once(fs, name),
        0 <= i < fs.len(),
        fs[i] == name,
    ensures
        find_last(fs, name) == Some(i),
{
    lemma_find_last_props(fs, name);
    match find_last(fs, name) {
        Some(i2) => {
            if i2 != i {
                assert(fs[i2] == name && fs[i] == name);
            }
        },
        None => {
            assert(fs[i] != name);
        },
    }
}

/// How one name's lookup moves under a permutation of the header.
proof fn lemma_find_last_perm(
    f1: Seq<Seq<u8>>,
    f2: Seq<Seq<u8>>,
    perm: Seq<int>,
    inv: Seq<int>,
    n: int,
    name: Seq<u8>,
)
    requires
        inverts(perm, inv, n),
        permuted_fields(f1, f2, perm),
        perm.len() == n,
        at_most_once(f1, name),
    ensures
        match find_last(f1, name) {
            Some(i) => find_last(f2, name) == Some(inv[i]),
            None => find_last(f2, name) is None,
        },
{
    lemma_find_last_props(f1, name);
    match find_last(f1, name) {
        Some(i) => {
            assert(f2[inv[i]] == f1[perm[inv[i]]]);
            assert(f2[inv[i]] == name);
            assert(at_most_once(f2, name)) by {
                assert forall|j: int, k: int| 0 <= j < k < f2.len() implies !(#[trigger] f2[j]
                    == name && #[trigger] f2[k] == name) by {
                    if f2[j] == name && f2[k] == name {
                        assert(f1[perm[j]] == name && f1[perm[k]] == name);
                        assert(inv[perm[j]] == j && inv[perm[k]] == k);
                        assert(perm[j] != perm[k]);
                        if perm[j] < perm[k] {
                            assert(!(f1[perm[j]] == name && f1[perm[k]] == name));
                        } else {
                            assert(!(f1[perm[k]] == name && f1[perm[j]] == name));
                        }
                    }
                }
            }
            lemma_find_last_unique(f2, name, inv[i]);
        },
        None => {
            lemma_find_last_props(f2, name);
            match find_last(f2, name) {
                Some(i2) => {
                    assert(f2[i2] == name);
                    assert(f1[perm[i2]] != name);
                },
                None => {},
            }
        },
    }
}

/// How the whole header resolution moves under a permutation.
proof fn lemma_header_perm(
    f1: Seq<Seq<u8>>,
    f2: Seq<Seq<u8>>,
    perm: Seq<int>,
    inv: Seq<int>,
    n: int,
)
    requires
        inverts(perm, inv, n),
        permuted_fields(f1, f2, perm),
        perm.len() == n,
        n <= usize::MAX,
        at_most_once(f1, source_name()),
        at_most_once(f1, bs_name()),
        at_most_once(f1, ordqty_name()),
        at_most_once(f1, wrkqty_name()),
        at_most_once(f1, excqty_name()),
        at_most_once(f1, prod_name()),
    ensures
        match spec_header(f1) {
            Ok(idx1) => spec_header(f2) == Ok::<ColIndices, AggError>(
                permuted_indices(idx1, inv),
            ),
            Err(e) => spec_header(f2) == Err::<ColIndices, AggError>(e),
        },
{
    lemma_find_last_perm(f1, f2, perm, inv, n, source_name());
    lemma_find_last_perm(f1, f2, perm, inv, n, bs_name());
    lemma_find_last_perm(f1, f2, perm, inv, n, ordqty_name());
    lemma_find_last_perm(f1, f2, perm, inv, n, wrkqty_name());
    lemma_find_last_perm(f1, f2, perm, inv, n, excqty_name());
    lemma_find_last_perm(f1, f2, perm, inv, n, prod_name());
    lemma_find_last_props(f1, source_name());
    lemma_find_last_props(f1, bs_name());
    lemma_find_last_props(f1, ordqty_name());
    lemma_find_last_props(f1, wrkqty_name());
    lemma_find_last_props(f1, excqty_name());
    lemma_find_last_props(f1, prod_name());
}

/// One data record is indifferent to the permutation: the step reads its
/// fields by resolved name, and those fields moved together with the
/// header.
proof fn lemma_row_step_perm(
    m: ProdView,
    line1: Seq<u8>,
    line2: Seq<u8>,
    idx1: ColIndices,
    perm: Seq<int>,
    inv: Seq<int>,
    n: int,
    rowno: int,
)
    requires
        inverts(perm, inv, n),
        n <= usize::MAX,
        line1.len() == 0 <==> line2.len() == 0,
        line1.len() != 0 ==> permuted_fields(fields_of(line1), fields_of(line2), perm),
        idx1.source < n && idx1.bs < n && idx1.ordqty < n && idx1.wrkqty < n && idx1.excqty < n
            && idx1.prod < n,
    ensures
        spec_row_step(m, line2, permuted_indices(idx1, inv), rowno) == spec_row_step(
            m,
            line1,
            idx1,
            rowno,
        ),
{
    if line1.len() != 0 {
        let fs1 = fields_of(line1);
        let fs2 = fields_of(line2);
        let idx2 = permuted_indices(idx1, inv);
        assert(fs1.len() == n && fs2.len() == n);
        assert(max_required(idx1) < n);
        assert(idx2.source < n && idx2.bs < n && idx2.ordqty < n && idx2.wrkqty < n && idx2.excqty
            < n && idx2.prod < n);
        assert(max_required(idx2) < n);
        assert(fs2[idx2.source as int] == fs1[perm[inv[idx1.source as int]]]);
        assert(fs2[idx2.source as int] == fs1[idx1.source as int]);
        assert(fs2[idx2.bs as int] == fs1[perm[inv[idx1.bs as int]]]);
        assert(fs2[idx2.bs as int] == fs1[idx1.bs as int]);
        assert(fs2[idx2.ordqty as int] == fs1[perm[inv[idx1.ordqty as int]]]);
        assert(fs2[idx2.ordqty as int] == fs1[idx1.ordqty as int]);
        assert(fs2[idx2.wrkqty as int] == fs1[perm[inv[idx1.wrkqty as int]]]);
        assert(fs2[idx2.wrkqty as int] == fs1[idx1.wrkqty as int]);
        assert(fs2[idx2.excqty as int] == fs1[perm[inv[idx1.excqty as int]]]);
        assert(fs2[idx2.excqty as int] == fs1[idx1.excqty as int]);
        assert(fs2[idx2.prod as int] == fs1[perm[inv[idx1.prod as int]]]);
        assert(fs2[idx2.prod as int] == fs1[idx1.prod as int]);
    }
}

/// The fold under the permutation, record by record.
proof fn lemma_agg_upto_perm(
    lines1: Seq<Seq<u8>>,
    lines2: Seq<Seq<u8>>,
    idx1: ColIndices,
    perm: Seq<int>,
    inv: Seq<int>,
    n: int,
    i: int,
)
    requires
        inverts(perm, inv, n),
        n <= usize::MAX,
        lines1.len() == lines2.len(),
        i <= lines1.len(),
        forall|l: int|
            1 <= l < lines1.len() ==> ((#[trigger] lines1[l].len() == 0 <==> lines2[l].len() == 0)
                && (lines1[l].len() != 0 ==> permuted_fields(
                fields_of(lines1[l]),
                fields_of(lines2[l]),
                perm,
            ))),
        idx1.source < n && idx1.bs < n && idx1.ordqty < n && idx1.wrkqty < n && idx1.excqty < n
            && idx1.prod < n,
    ensures
        agg_upto(lines2, permuted_indices(idx1, inv), i) == agg_upto(lines1, idx1, i),
    decreases i,
{
    if i > 1 {
        lemma_agg_upto_perm(lines1, lines2, idx1, perm, inv, n, i - 1);
        if agg_upto(lines1, idx1, i - 1) is Ok {
            lemma_row_step_perm(
                agg_upto(lines1, idx1, i - 1)->Ok_0,
                lines1[i - 1],
                lines2[i - 1],
                idx1,
                perm,
                inv,
                n,
                i - 1,
            );
        }
    }
}

/// Law: permuting the header columns, with every data record rearranged
/// the same way, yields identical aggregates — resolution goes by name,
/// not position. The law asks that no required name occur twice in the
/// header: with a duplicated name, which duplicate is read may change
/// under the permutation.
pub proof fn lemma_header_order_independence(
    lines1: Seq<Seq<u8>>,
    lines2: Seq<Seq<u8>>,
    perm: Seq<int>,
    inv: Seq<int>,
)
    requires
        lines1.len() == lines2.len(),
        lines1.len() >= 1,
        fields_of(lines1[0]).len() <= usize::MAX,
        inverts(perm, inv, fields_of(lines1[0]).len() as int),
        permuted_fields(fields_of(lines1[0]), fields_of(lines2[0]), perm),
        at_most_once(fields_of(lines1[0]), source_name()),
        at_most_once(fields_of(lines1[0]), bs_name()),
        at_most_once(fields_of(lines1[0]), ordqty_name()),
        at_most_once(fields_of(lines1[0]), wrkqty_name()),
        at_most_once(fields_of(lines1[0]), excqty_name()),
        at_most_once(fields_of(lines1[0]), prod_name()),
        forall|l: int|
            1 <= l < lines1.len() ==> ((#[trigger] lines1[l].len() == 0 <==> lines2[l].len() == 0)
                && (lines1[l].len() != 0 ==> permuted_fields(
                fields_of(lines1[l]),
                fields_of(lines2[l]),
                perm,
            ))),
    ensures
        spec_agg_lines(lines2) == spec_agg_lines(lines1),
{
    let f1 = fields_of(lines1[0]);
    let f2 = fields_of(lines2[0]);
    let n = f1.len() as int;
    lemma_header_perm(f1, f2, perm, inv, n);
    match spec_header(f1) {
        Ok(idx1) => {
            lemma_find_last_props(f1, source_name());
            lemma_find_last_props(f1, bs_name());
            lemma_find_last_props(f1, ordqty_name());
            lemma_find_last_props(f1, wrkqty_name());
            lemma_find_last_props(f1, excqty_name());
            lemma_find_last_props(f1, prod_name());
            lemma_agg_upto_perm(lines1, lines2, idx1, perm, inv, n, lines1.len() as int);
        },
        Err(_) => {},
    }
}

/// Law: the displayed average is the total divided by the count, to two
/// decimal places with half-up rounding: the rendered hundredths `h`
/// satisfy `2*count*h <= 200*total + count < 2*count*(h + 1)`.
pub proof fn lemma_avg_rounding(total: int, count: int)
    requires
        count >= 1,
        total >= 0,
    ensures
        ({
            let h = crate::render::spec_avg_hundredths(total, count);
            2 * count * h <= 200 * total + count < 2 * count * (h + 1)
        }),
{
    let a = 200 * total + count;
    let h = crate::render::spec_avg_hundredths(total, count);
    vstd::arithmetic::div_mod::lemma_fundamental_div_mod(a, 2 * count);
    vstd::arithmetic::div_mod::lemma_mod_bound(a, 2 * count);
    assert(2 * count * (h + 1) == 2 * count * h + 2 * count) by (nonlinear_arith);
}

} // verus!
