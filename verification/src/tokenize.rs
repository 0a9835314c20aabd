//! The field tokenizer: splits one record into comma-separated fields.
//! Two equivalent strategies exist, a materializing one that copies every
//! field out and an offset-based one that records field start positions and
//! derives a field view on demand; both are proved against `fields_of`.

use vstd::prelude::*;

use crate::bytes::{fields_of, find_first};

verus! {

/// The sequence views of a sequence of byte vectors.
pub open spec fn views_of(r: Seq<Vec<u8>>) -> Seq<Seq<u8>> {
    Seq::new(r.len(), |i: int| r[i]@)
}

/// The end (exclusive) of field `k` under the start table `c`: one byte
/// before the next field's start, or the end of the line for the last field.
pub open spec fn field_end(c: Seq<usize>, s: Seq<u8>, k: int) -> int {
    if k + 1 < c.len() {
        c[k + 1] - 1
    } else {
        s.len() as int
    }
}

/// `c` holds the start position of every field of `s`, in order.
pub open spec fn is_starts(c: Seq<usize>, s: Seq<u8>) -> bool {
    let fs = fields_of(s);
    &&& c.len() == fs.len()
    &&& forall|k: int|
        0 <= k < c.len() ==> (#[trigger] (c[k]) as int) <= field_end(c, s, k) <= s.len()
    &&& forall|k: int|
        0 <= k < c.len() ==> #[trigger] fs[k] == s.subrange(c[k] as int, field_end(c, s, k))
}

/// Materializing tokenizer: copies each field of `line` into its own vector.
pub fn split_fields(line: &[u8]) -> (r: Vec<Vec<u8>>)
    ensures
        views_of(r@) == fields_of(line@),
{
    let mut r: Vec<Vec<u8>> = Vec::new();
    let mut p: usize = 0;
    proof {
        assert(line@.skip(0) =~= line@);
        assert(views_of(r@) =~= Seq::<Seq<u8>>::empty());
        assert(fields_of(line@) =~= views_of(r@) + fields_of(line@.skip(0)));
    }
    loop
        invariant
            p <= line@.len(),
            fields_of(line@) == views_of(r@) + fields_of(line@.skip(p as int)),
        decreases line@.len() - p,
    {
        let rest = vstd::slice::slice_subrange(line, p, line.len());
        let ghost rest_s = line@.skip(p as int);
        proof {
            assert(rest@ =~= rest_s);
        }
        let ghost old_views = views_of(r@);
        match find_first(44u8, rest) {
            Some(j) => {
                let field = vstd::slice::slice_to_vec(vstd::slice::slice_subrange(line, p, p + j));
                r.push(field);
                proof {
                    assert(views_of(r@) =~= old_views.push(field@));
                    assert(rest_s.take(j as int) =~= line@.subrange(p as int, p + j));
                    assert(rest_s.skip(j + 1) =~= line@.skip(p + j + 1));
                    assert(fields_of(rest_s) == seq![rest_s.take(j as int)] + fields_of(
                        rest_s.skip(j + 1),
                    ));
                    assert(field@ == rest_s.take(j as int));
                    assert(fields_of(line@) =~= views_of(r@) + fields_of(line@.skip(p + j + 1)));
                }
                p = p + j + 1;
            },
            None => {
                let field = vstd::slice::slice_to_vec(rest);
                r.push(field);
                proof {
                    assert(views_of(r@) =~= old_views.push(field@));
                    assert(fields_of(rest_s) == seq![rest_s]);
                    assert(fields_of(line@) =~= views_of(r@));
                }
                return r;
            },
        }
    }
}

/// Offset-based tokenizer: records the start position of every field.
pub fn col_starts(line: &[u8]) -> (r: Vec<usize>)
    ensures
        is_starts(r@, line@),
{
    let mut r: Vec<usize> = Vec::new();
    let mut p: usize = 0;
    proof {
        assert(line@.skip(0) =~= line@);
        assert(fields_of(line@) =~= fields_of(line@).take(0) + fields_of(line@.skip(0)));
    }
    loop
        invariant
            p <= line@.len(),
            r@.len() <= fields_of(line@).len(),
            fields_of(line@) == fields_of(line@).take(r@.len() as int) + fields_of(
                line@.skip(p as int),
            ),
            forall|k: int|
                0 <= k < r@.len() ==> (#[trigger] (r@[k]) as int) + fields_of(line@)[k].len()
                    <= line@.len(),
            forall|k: int|
                0 <= k < r@.len() ==> #[trigger] fields_of(line@)[k] == line@.subrange(
                    r@[k] as int,
                    r@[k] + fields_of(line@)[k].len(),
                ),
            forall|k: int|
                0 <= k && k + 1 < r@.len() ==> (#[trigger] (r@[k + 1]) as int) == r@[k]
                    + fields_of(line@)[k].len() + 1,
            r@.len() > 0 ==> p == (r@[r@.len() - 1] as int) + fields_of(line@)[r@.len() - 1].len()
                + 1,
        decreases line@.len() - p,
    {
        let rest = vstd::slice::slice_subrange(line, p, line.len());
        let ghost rest_s = line@.skip(p as int);
        proof {
            assert(rest@ =~= rest_s);
        }
        let ghost n_done = r@.len() as int;
        r.push(p);
        match find_first(44u8, rest) {
            Some(j) => {
                proof {
                    assert(rest_s.take(j as int) =~= line@.subrange(p as int, p + j));
                    assert(rest_s.skip(j + 1) =~= line@.skip(p + j + 1));
                    assert(fields_of(rest_s) == seq![rest_s.take(j as int)] + fields_of(
                        rest_s.skip(j + 1),
                    ));
                    assert(fields_of(line@)[n_done] == line@.subrange(p as int, p + j));
                    assert(fields_of(line@)[n_done].len() == j);
                    assert(fields_of(line@) =~= fields_of(line@).take(n_done + 1) + fields_of(
                        line@.skip(p + j + 1),
                    ));
                }
                p = p + j + 1;
            },
            None => {
                proof {
                    assert(fields_of(rest_s) == seq![rest_s]);
                    assert(rest_s =~= line@.subrange(p as int, line@.len() as int));
                    assert(fields_of(line@) =~= fields_of(line@).take(n_done + 1));
                    assert(fields_of(line@).len() == n_done + 1);
                    assert(fields_of(line@)[n_done] == line@.subrange(
                        p as int,
                        line@.len() as int,
                    ));
                    assert forall|k: int| 0 <= k < r@.len() implies #[trigger] fields_of(line@)[k]
                        == line@.subrange(r@[k] as int, field_end(r@, line@, k)) by {
                        assert(fields_of(line@)[k] == line@.subrange(
                            r@[k] as int,
                            r@[k] + fields_of(line@)[k].len(),
                        ));
                    }
                    assert(is_starts(r@, line@));
                }
                return r;
            },
        }
    }
}

/// Field `col` of `line`, derived from the start table; the offset-based
/// counterpart of indexing the materialized fields.
pub fn get_col<'a>(line: &'a [u8], cols: &Vec<usize>, col: usize) -> (r: &'a [u8])
    requires
        is_starts(cols@, line@),
        col < cols@.len(),
    ensures
        r@ == fields_of(line@)[col as int],
{
    let n = cols.len();
    let start = cols[col];
    let end: usize = if col + 1 < n {
        cols[col + 1] - 1
    } else {
        line.len()
    };
    vstd::slice::slice_subrange(line, start, end)
}

} // verus!
