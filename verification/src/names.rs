//! The fixed byte strings of the input format: the six required header
//! column names, the row filter sentinel, and the two direction markers.

use vstd::prelude::*;

verus! {

/// The header name of the filter column.
pub open spec fn source_name() -> Seq<u8> {
    seq![83u8, 111u8, 117u8, 114u8, 99u8, 101u8]
}

/// The header name of the direction column.
pub open spec fn bs_name() -> Seq<u8> {
    seq![66u8, 47u8, 83u8]
}

/// The header name of the ordered-quantity column.
pub open spec fn ordqty_name() -> Seq<u8> {
    seq![79u8, 114u8, 100u8, 81u8, 116u8, 121u8]
}

/// The header name of the working-quantity column.
pub open spec fn wrkqty_name() -> Seq<u8> {
    seq![87u8, 114u8, 107u8, 81u8, 116u8, 121u8]
}

/// The header name of the executed-quantity column.
pub open spec fn excqty_name() -> Seq<u8> {
    seq![69u8, 120u8, 99u8, 81u8, 116u8, 121u8]
}

/// The header name of the product (entity key) column.
pub open spec fn prod_name() -> Seq<u8> {
    seq![80u8, 114u8, 111u8, 100u8]
}

/// The sentinel a row's source field must equal for the row to qualify.
pub open spec fn toclnt() -> Seq<u8> {
    seq![84u8, 111u8, 67u8, 108u8, 110u8, 116u8]
}

/// The direction marker that counts as a buy.
pub open spec fn buy_marker() -> Seq<u8> {
    seq![66u8, 117u8, 121u8]
}

/// The direction marker that counts as a sell.
pub open spec fn sell_marker() -> Seq<u8> {
    seq![83u8, 101u8, 108u8, 108u8]
}

pub fn name_source() -> (v: Vec<u8>)
    ensures
        v@ == source_name(),
{
    let mut v: Vec<u8> = Vec::new();
    v.push(83u8);
    v.push(111u8);
    v.push(117u8);
    v.push(114u8);
    v.push(99u8);
    v.push(101u8);
    proof {
        assert(v@ =~= source_name());
    }
    v
}

pub fn name_bs() -> (v: Vec<u8>)
    ensures
        v@ == bs_name(),
{
    let mut v: Vec<u8> = Vec::new();
    v.push(66u8);
    v.push(47u8);
    v.push(83u8);
    proof {
        assert(v@ =~= bs_name());
    }
    v
}

pub fn name_ordqty() -> (v: Vec<u8>)
    ensures
        v@ == ordqty_name(),
{
    let mut v: Vec<u8> = Vec::new();
    v.push(79u8);
    v.push(114u8);
    v.push(100u8);
    v.push(81u8);
    v.push(116u8);
    v.push(121u8);
    proof {
        assert(v@ =~= ordqty_name());
    }
    v
}

pub fn name_wrkqty() -> (v: Vec<u8>)
    ensures
        v@ == wrkqty_name(),
{
    let mut v: Vec<u8> = Vec::new();
    v.push(87u8);
    v.push(114u8);
    v.push(107u8);
    v.push(81u8);
    v.push(116u8);
    v.push(121u8);
    proof {
        assert(v@ =~= wrkqty_name());
    }
    v
}

pub fn name_excqty() -> (v: Vec<u8>)
    ensures
        v@ == excqty_name(),
{
    let mut v: Vec<u8> = Vec::new();
    v.push(69u8);
    v.push(120u8);
    v.push(99u8);
    v.push(81u8);
    v.push(116u8);
    v.push(121u8);
    proof {
        assert(v@ =~= excqty_name());
    }
    v
}

pub fn name_prod() -> (v: Vec<u8>)
    ensures
        v@ == prod_name(),
{
    let mut v: Vec<u8> = Vec::new();
    v.push(80u8);
    v.push(114u8);
    v.push(111u8);
    v.push(100u8);
    proof {
        assert(v@ =~= prod_name());
    }
    v
}

pub fn sentinel_toclnt() -> (v: Vec<u8>)
    ensures
        v@ == toclnt(),
{
    let mut v: Vec<u8> = Vec::new();
    v.push(84u8);
    v.push(111u8);
    v.push(67u8);
    v.push(108u8);
    v.push(110u8);
    v.push(116u8);
    proof {
        assert(v@ =~= toclnt());
    }
    v
}

pub fn marker_buy() -> (v: Vec<u8>)
    ensures
        v@ == buy_marker(),
{
    let mut v: Vec<u8> = Vec::new();
    v.push(66u8);
    v.push(117u8);
    v.push(121u8);
    proof {
        assert(v@ =~= buy_marker());
    }
    v
}

pub fn marker_sell() -> (v: Vec<u8>)
    ensures
        v@ == sell_marker(),
{
    let mut v: Vec<u8> = Vec::new();
    v.push(83u8);
    v.push(101u8);
    v.push(108u8);
    v.push(108u8);
    proof {
        assert(v@ =~= sell_marker());
    }
    v
}

} // verus!
