//! The header resolver: maps the six required column names to their
//! positions in the header record. Resolution is order-independent; when a
//! name occurs more than once the last occurrence wins.

use vstd::prelude::*;

use crate::bytes::{bytes_eq, fields_of};
use crate::errors::{AggError, ColName};
use crate::names::{
    bs_name, excqty_name, name_bs, name_excqty, name_ordqty, name_prod, name_source, name_wrkqty,
    ordqty_name, prod_name, source_name, wrkqty_name,
};
use crate::tokenize::{split_fields, views_of};

verus! {

/// The resolved position of each required column.
#[derive(Clone, Copy, Debug, PartialEq, Eq, Structural)]
pub struct ColIndices {
    pub source: usize,
    pub bs: usize,
    pub ordqty: usize,
    pub wrkqty: usize,
    pub excqty: usize,
    pub prod: usize,
}

/// Index of the last occurrence of `name` in `fs`, if any.
pub open spec fn find_last(fs: Seq<Seq<u8>>, name: Seq<u8>) -> Option<int>
    decreases fs.len(),
{
    if fs.len() == 0 {
        None
    } else if fs.last() == name {
        Some(fs.len() - 1)
    } else {
        find_last(fs.drop_last(), name)
    }
}

pub proof fn lemma_find_last_props(fs: Seq<Seq<u8>>, name: Seq<u8>)
    ensures
        match find_last(fs, name) {
            Some(i) => 0 <= i < fs.len() && fs[i] == name && forall|j: int|
                i < j < fs.len() ==> fs[j] != name,
            None => forall|j: int| 0 <= j < fs.len() ==> fs[j] != name,
        },
    decreases fs.len(),
{
    if fs.len() != 0 && fs.last() != name {
        lemma_find_last_props(fs.drop_last(), name);
        match find_last(fs, name) {
            Some(i) => {
                assert(fs.drop_last()[i] == fs[i]);
                assert forall|j: int| i < j < fs.len() implies fs[j] != name by {
                    if j < fs.len() - 1 {
                        assert(fs.drop_last()[j] != name);
                    }
                }
            },
            None => {
                assert forall|j: int| 0 <= j < fs.len() implies fs[j] != name by {
                    if j < fs.len() - 1 {
                        assert(fs.drop_last()[j] != name);
                    }
                }
            },
        }
    }
}

/// The header model: the position of every required column, or the first
/// absent one in the fixed reporting order.
pub open spec fn spec_header(fs: Seq<Seq<u8>>) -> Result<ColIndices, AggError> {
    if find_last(fs, source_name()) is None {
        Err(AggError::MissingColumn(ColName::Source))
    } else if find_last(fs, bs_name()) is None {
        Err(AggError::MissingColumn(ColName::Direction))
    } else if find_last(fs, ordqty_name()) is None {
        Err(AggError::MissingColumn(ColName::OrderedQty))
    } else if find_last(fs, wrkqty_name()) is None {
        Err(AggError::MissingColumn(ColName::WorkingQty))
    } else if find_last(fs, excqty_name()) is None {
        Err(AggError::MissingColumn(ColName::ExecutedQty))
    } else if find_last(fs, prod_name()) is None {
        Err(AggError::MissingColumn(ColName::ProductId))
    } else {
        Ok(
            ColIndices {
                source: find_last(fs, source_name())->Some_0 as usize,
                bs: find_last(fs, bs_name())->Some_0 as usize,
                ordqty: find_last(fs, ordqty_name())->Some_0 as usize,
                wrkqty: find_last(fs, wrkqty_name())->Some_0 as usize,
                excqty: find_last(fs, excqty_name())->Some_0 as usize,
                prod: find_last(fs, prod_name())->Some_0 as usize,
            },
        )
    }
}

/// Every resolved index of a successful header lies inside the header.
pub proof fn lemma_header_indices_in_range(fs: Seq<Seq<u8>>, idx: ColIndices)
    requires
        spec_header(fs) == Ok::<ColIndices, AggError>(idx),
        fs.len() <= usize::MAX,
    ensures
        idx.source < fs.len(),
        idx.bs < fs.len(),
        idx.ordqty < fs.len(),
        idx.wrkqty < fs.len(),
        idx.excqty < fs.len(),
        idx.prod < fs.len(),
        fs[idx.source as int] == source_name(),
        fs[idx.bs as int] == bs_name(),
        fs[idx.ordqty as int] == ordqty_name(),
        fs[idx.wrkqty as int] == wrkqty_name(),
        fs[idx.excqty as int] == excqty_name(),
        fs[idx.prod as int] == prod_name(),
{
    lemma_find_last_props(fs, source_name());
    lemma_find_last_props(fs, bs_name());
    lemma_find_last_props(fs, ordqty_name());
    lemma_find_last_props(fs, wrkqty_name());
    lemma_find_last_props(fs, excqty_name());
    lemma_find_last_props(fs, prod_name());
}

impl ColIndices {
    /// Resolves the six required columns from the raw header record; returns
    /// the indices and the number of header columns, or names the first
    /// missing column.
    pub fn from_header(header: &[u8]) -> (r: Result<(ColIndices, usize), AggError>)
        ensures
            match spec_header(fields_of(header@)) {
                Ok(idx) => r == Ok::<(ColIndices, usize), AggError>(
                    (idx, fields_of(header@).len() as usize),
                ),
                Err(e) => r == Err::<(ColIndices, usize), AggError>(e),
            },
    {
        let fields = split_fields(header);
        let ghost fs = fields_of(header@);
        let nm_source = name_source();
        let nm_bs = name_bs();
        let nm_ordqty = name_ordqty();
        let nm_wrkqty = name_wrkqty();
        let nm_excqty = name_excqty();
        let nm_prod = name_prod();
        let mut source_idx: Option<usize> = None;
        let mut bs_idx: Option<usize> = None;
        let mut ordqty_idx: Option<usize> = None;
        let mut wrkqty_idx: Option<usize> = None;
        let mut excqty_idx: Option<usize> = None;
        let mut prod_idx: Option<usize> = None;
        let n = fields.len();
        let mut i: usize = 0;
        proof {
            assert(fs.take(0) =~= Seq::<Seq<u8>>::empty());
        }
        while i < n
            invariant
                n == fields@.len(),
                views_of(fields@) == fs,
                0 <= i <= n,
                nm_source@ == source_name(),
                nm_bs@ == bs_name(),
                nm_ordqty@ == ordqty_name(),
                nm_wrkqty@ == wrkqty_name(),
                nm_excqty@ == excqty_name(),
                nm_prod@ == prod_name(),
                opt_matches(source_idx, find_last(fs.take(i as int), source_name())),
                opt_matches(bs_idx, find_last(fs.take(i as int), bs_name())),
                opt_matches(ordqty_idx, find_last(fs.take(i as int), ordqty_name())),
                opt_matches(wrkqty_idx, find_last(fs.take(i as int), wrkqty_name())),
                opt_matches(excqty_idx, find_last(fs.take(i as int), excqty_name())),
                opt_matches(prod_idx, find_last(fs.take(i as int), prod_name())),
            decreases n - i,
        {
            let field = &fields[i];
            proof {
                assert(field@ == fs[i as int]);
                assert(fs.take(i + 1).drop_last() =~= fs.take(i as int));
                assert(fs.take(i + 1).last() == fs[i as int]);
            }
            if bytes_eq(field.as_slice(), nm_source.as_slice()) {
                source_idx = Some(i);
            } else if bytes_eq(field.as_slice(), nm_bs.as_slice()) {
                bs_idx = Some(i);
            } else if bytes_eq(field.as_slice(), nm_ordqty.as_slice()) {
                ordqty_idx = Some(i);
            } else if bytes_eq(field.as_slice(), nm_wrkqty.as_slice()) {
                wrkqty_idx = Some(i);
            } else if bytes_eq(field.as_slice(), nm_excqty.as_slice()) {
                excqty_idx = Some(i);
            } else if bytes_eq(field.as_slice(), nm_prod.as_slice()) {
                prod_idx = Some(i);
            }
            i = i + 1;
        }
        proof {
            assert(fs.take(n as int) =~= fs);
        }
        let source = match source_idx {
            Some(v) => v,
            None => {
                return Err(AggError::MissingColumn(ColName::Source));
            },
        };
        let bs = match bs_idx {
            Some(v) => v,
            None => {
                return Err(AggError::MissingColumn(ColName::Direction));
            },
        };
        let ordqty = match ordqty_idx {
            Some(v) => v,
            None => {
                return Err(AggError::MissingColumn(ColName::OrderedQty));
            },
        };
        let wrkqty = match wrkqty_idx {
            Some(v) => v,
            None => {
                return Err(AggError::MissingColumn(ColName::WorkingQty));
            },
        };
        let excqty = match excqty_idx {
            Some(v) => v,
            None => {
                return Err(AggError::MissingColumn(ColName::ExecutedQty));
            },
        };
        let prod = match prod_idx {
            Some(v) => v,
            None => {
                return Err(AggError::MissingColumn(ColName::ProductId));
            },
        };
        Ok((ColIndices { source, bs, ordqty, wrkqty, excqty, prod }, n))
    }
}

/// The executable resolver state agrees with the model lookup.
pub open spec fn opt_matches(e: Option<usize>, s: Option<int>) -> bool {
    match s {
        Some(i) => e matches Some(v) && v == i,
        None => e is None,
    }
}

} // verus!
