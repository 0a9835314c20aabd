//! The per-entity accumulator: record count, directional counts, and the
//! running sum of the per-row quantity maximum.

use vstd::prelude::*;

use crate::bytes::bytes_eq;
use crate::columns::ColIndices;
use crate::names::{buy_marker, marker_buy, marker_sell, sell_marker};
use crate::parse::{parse_qty, spec_parse_qty};
use crate::tokenize::views_of;

verus! {

/// Running statistics for one product.
#[derive(Clone, Copy, Debug, PartialEq, Eq, Structural)]
pub struct ProductData {
    pub count: u64,
    pub buys: u64,
    pub sells: u64,
    pub total_qty: u64,
}

/// The zero-initialized accumulator a key starts from.
pub open spec fn pd_zero() -> ProductData {
    ProductData { count: 0, buys: 0, sells: 0, total_qty: 0 }
}

/// Validity of an accumulator: rows that are neither buys nor sells
/// increment the count alone, so the directional counts never outgrow it.
pub open spec fn pd_wf(d: ProductData) -> bool {
    d.buys + d.sells <= d.count
}

impl Default for ProductData {
    fn default() -> (d: Self)
        ensures
            d == pd_zero(),
    {
        ProductData { count: 0, buys: 0, sells: 0, total_qty: 0 }
    }
}

/// The larger of three quantities.
pub open spec fn spec_max3(a: u64, b: u64, c: u64) -> u64 {
    if a >= b && a >= c {
        a
    } else if b >= c {
        b
    } else {
        c
    }
}

pub fn max3(a: u64, b: u64, c: u64) -> (r: u64)
    ensures
        r == spec_max3(a, b, c),
{
    if a >= b && a >= c {
        a
    } else if b >= c {
        b
    } else {
        c
    }
}

/// One qualifying row against one accumulator: parse the three quantities,
/// bump the count and the matching directional count, and add the quantity
/// maximum. `None` when a quantity fails to parse or an accumulator field
/// would pass its 64-bit width.
pub open spec fn spec_acc_step(
    acc: ProductData,
    dir: Seq<u8>,
    ord: Seq<u8>,
    wrk: Seq<u8>,
    exc: Seq<u8>,
) -> Option<ProductData> {
    let o = spec_parse_qty(ord);
    let w = spec_parse_qty(wrk);
    let e = spec_parse_qty(exc);
    if o is None || w is None || e is None {
        None
    } else {
        let mx = spec_max3(o->Some_0, w->Some_0, e->Some_0);
        if acc.count == u64::MAX || acc.total_qty + mx > u64::MAX {
            None
        } else {
            Some(
                ProductData {
                    count: (acc.count + 1) as u64,
                    buys: if dir == buy_marker() {
                        (acc.buys + 1) as u64
                    } else {
                        acc.buys
                    },
                    sells: if dir == sell_marker() {
                        (acc.sells + 1) as u64
                    } else {
                        acc.sells
                    },
                    total_qty: (acc.total_qty + mx) as u64,
                },
            )
        }
    }
}

/// A step from a valid accumulator stays valid and counts exactly one row.
pub proof fn lemma_acc_step_wf(
    acc: ProductData,
    dir: Seq<u8>,
    ord: Seq<u8>,
    wrk: Seq<u8>,
    exc: Seq<u8>,
)
    requires
        pd_wf(acc),
        spec_acc_step(acc, dir, ord, wrk, exc) is Some,
    ensures
        pd_wf(spec_acc_step(acc, dir, ord, wrk, exc)->Some_0),
        spec_acc_step(acc, dir, ord, wrk, exc)->Some_0.count == acc.count + 1,
{
    assert(buy_marker() != sell_marker()) by {
        assert(buy_marker().len() != sell_marker().len());
    }
}

impl ProductData {
    /// Core accumulator update from the four relevant field views.
    pub fn update(&mut self, dir: &[u8], ord: &[u8], wrk: &[u8], exc: &[u8]) -> (ok: bool)
        requires
            pd_wf(*old(self)),
        ensures
            match spec_acc_step(*old(self), dir@, ord@, wrk@, exc@) {
                Some(a) => ok && *final(self) == a,
                None => !ok && *final(self) == *old(self),
            },
    {
        let o = match parse_qty(ord) {
            Some(v) => v,
            None => {
                return false;
            },
        };
        let w = match parse_qty(wrk) {
            Some(v) => v,
            None => {
                return false;
            },
        };
        let e = match parse_qty(exc) {
            Some(v) => v,
            None => {
                return false;
            },
        };
        let mx = max3(o, w, e);
        if self.count == u64::MAX || mx > u64::MAX - self.total_qty {
            return false;
        }
        proof {
            assert(buy_marker() != sell_marker()) by {
                assert(buy_marker().len() != sell_marker().len());
            }
        }
        self.count = self.count + 1;
        let m_buy = marker_buy();
        let m_sell = marker_sell();
        if bytes_eq(dir, m_buy.as_slice()) {
            self.buys = self.buys + 1;
        } else if bytes_eq(dir, m_sell.as_slice()) {
            self.sells = self.sells + 1;
        }
        self.total_qty = self.total_qty + mx;
        true
    }

    /// Applies one qualifying row, given its materialized fields and the
    /// resolved column positions.
    pub fn process_row(&mut self, cols: &Vec<Vec<u8>>, idx: &ColIndices) -> (ok: bool)
        requires
            pd_wf(*old(self)),
            idx.bs < cols@.len(),
            idx.ordqty < cols@.len(),
            idx.wrkqty < cols@.len(),
            idx.excqty < cols@.len(),
        ensures
            match spec_acc_step(
                *old(self),
                views_of(cols@)[idx.bs as int],
                views_of(cols@)[idx.ordqty as int],
                views_of(cols@)[idx.wrkqty as int],
                views_of(cols@)[idx.excqty as int],
            ) {
                Some(a) => ok && *final(self) == a,
                None => !ok && *final(self) == *old(self),
            },
    {
        self.update(
            cols[idx.bs].as_slice(),
            cols[idx.ordqty].as_slice(),
            cols[idx.wrkqty].as_slice(),
            cols[idx.excqty].as_slice(),
        )
    }
}

} // verus!
