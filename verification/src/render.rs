//! The per-entity report line. The derived average quantity is the total
//! divided by the record count, rendered to two decimal places with
//! half-up rounding; the line itself is raw bytes, since a product key is
//! not promised to be text.

use vstd::prelude::*;

use crate::accum::ProductData;
use crate::bytes::push_range;

verus! {

/// The decimal digits of a non-negative number, most significant first.
pub open spec fn dec_of(n: int) -> Seq<u8>
    decreases n,
{
    if n < 0 {
        Seq::empty()
    } else if n < 10 {
        seq![(48 + n) as u8]
    } else {
        dec_of(n / 10).push((48 + n % 10) as u8)
    }
}

/// One hundred times the average quantity, rounded half up.
pub open spec fn spec_avg_hundredths(total: int, count: int) -> int {
    (200 * total + count) / (2 * count)
}

/// The bytes of ` buy=`.
pub open spec fn buy_label() -> Seq<u8> {
    seq![32u8, 98u8, 117u8, 121u8, 61u8]
}

/// The bytes of ` sell=`.
pub open spec fn sell_label() -> Seq<u8> {
    seq![32u8, 115u8, 101u8, 108u8, 108u8, 61u8]
}

/// The bytes of ` avg qty=`.
pub open spec fn avg_label() -> Seq<u8> {
    seq![32u8, 97u8, 118u8, 103u8, 32u8, 113u8, 116u8, 121u8, 61u8]
}

/// The whole report line for one product: the key, the record count, the
/// directional counts, and the average quantity to two decimal places.
pub open spec fn spec_report_line(prod: Seq<u8>, d: ProductData) -> Seq<u8> {
    let h = spec_avg_hundredths(d.total_qty as int, d.count as int);
    prod + seq![32u8] + dec_of(d.count as int) + buy_label() + dec_of(d.buys as int)
        + sell_label() + dec_of(d.sells as int) + avg_label() + dec_of(h / 100) + seq![46u8]
        + seq![(48 + (h % 100) / 10) as u8, (48 + (h % 100) % 10) as u8]
}

/// Appends the decimal digits of `n` to `out`.
pub fn push_dec(out: &mut Vec<u8>, n: u128)
    ensures
        final(out)@ == old(out)@ + dec_of(n as int),
    decreases n,
{
    if n < 10 {
        out.push(48u8 + n as u8);
        proof {
            assert(out@ =~= old(out)@ + dec_of(n as int));
        }
    } else {
        push_dec(out, n / 10);
        out.push(48u8 + (n % 10) as u8);
        proof {
            assert(out@ =~= old(out)@ + dec_of(n as int));
        }
    }
}

impl ProductData {
    /// Renders the report line for this accumulator under the given
    /// product key. Defined only for keys that were aggregated, whose
    /// count is at least one.
    pub fn fmt(&self, prod: &[u8]) -> (out: Vec<u8>)
        requires
            self.count >= 1,
        ensures
            out@ == spec_report_line(prod@, *self),
    {
        let mut out: Vec<u8> = Vec::new();
        proof {
            assert(out@ + prod@ =~= prod@);
        }
        push_range(&mut out, prod, 0, prod.len());
        proof {
            assert(prod@.subrange(0, prod@.len() as int) =~= prod@);
            assert(out@ =~= prod@);
        }
        out.push(32u8);
        let ghost s1 = prod@ + seq![32u8];
        proof {
            assert(out@ =~= s1);
        }
        push_dec(&mut out, self.count as u128);
        let ghost s2 = s1 + dec_of(self.count as int);
        out.push(32u8);
        out.push(98u8);
        out.push(117u8);
        out.push(121u8);
        out.push(61u8);
        let ghost s3 = s2 + buy_label();
        proof {
            assert(out@ =~= s3);
        }
        push_dec(&mut out, self.buys as u128);
        let ghost s4 = s3 + dec_of(self.buys as int);
        out.push(32u8);
        out.push(115u8);
        out.push(101u8);
        out.push(108u8);
        out.push(108u8);
        out.push(61u8);
        let ghost s5 = s4 + sell_label();
        proof {
            assert(out@ =~= s5);
        }
        push_dec(&mut out, self.sells as u128);
        let ghost s6 = s5 + dec_of(self.sells as int);
        out.push(32u8);
        out.push(97u8);
        out.push(118u8);
        out.push(103u8);
        out.push(32u8);
        out.push(113u8);
        out.push(116u8);
        out.push(121u8);
        out.push(61u8);
        let ghost s7 = s6 + avg_label();
        proof {
            assert(out@ =~= s7);
        }
        let t = self.total_qty as u128;
        let c = self.count as u128;
        let h = (200 * t + c) / (2 * c);
        proof {
            assert(h as int == spec_avg_hundredths(self.total_qty as int, self.count as int));
        }
        push_dec(&mut out, h / 100);
        let ghost s8 = s7 + dec_of((h as int) / 100);
        proof {
            assert((h / 100) as int == (h as int) / 100);
        }
        out.push(46u8);
        let f = (h % 100) as u64;
        out.push(48u8 + (f / 10) as u8);
        out.push(48u8 + (f % 10) as u8);
        proof {
            assert(f as int == (h as int) % 100);
            assert(out@ =~= spec_report_line(prod@, *self));
        }
        out
    }
}

} // verus!
